//! Scratchpad definitions: names, actions, placement and the KDL reader.

use vstd::prelude::*;
use crate::scratchpad::configs::ScratchpadConfigs;
use crate::kdl_model::{
    children_view, collect_string_entries, entry_string, find_node, get_node, kdl_parse_result,
    parse_kdl, parse_string_child, string_child, string_entries, entry_text, Node,
};
use crate::message::ParseError;
use crate::text::{
    chars_of, decimal, decimal_string, is_ascii_alphanumeric, parse_unsigned, parse_unsigned_chars,
    push_str, slice_chars, str_equals, string_of,
};

verus! {

/// Anchor point on a single axis.
#[derive(Debug, Clone, Copy, PartialEq, Eq, Structural)]
pub enum AxisOrigin {
    /// Offset from the start (left / top). This is the default.
    Start,
    /// Centered: pane is centered, offset shifts away from center.
    Center,
    /// Offset inward from the end (right / bottom).
    End,
}

/// Reference point that x/y are calculated relative to: vertical then horizontal.
#[derive(Debug, Clone, Copy, PartialEq, Eq, Structural)]
pub struct Origin {
    /// Vertical anchor (top / center / bottom).
    pub vertical: AxisOrigin,
    /// Horizontal anchor (left / center / right).
    pub horizontal: AxisOrigin,
}

impl Default for Origin {
    fn default() -> (o: Self)
        ensures
            o.vertical == AxisOrigin::Center && o.horizontal == AxisOrigin::Center,
    {
        Origin { vertical: AxisOrigin::Center, horizontal: AxisOrigin::Center }
    }
}

/// Configuration for a scratchpad.
#[derive(Debug, Clone)]
pub struct ScratchpadConfig {
    pub command: Vec<String>,
    /// Horizontal position: fixed columns (e.g. "10") or percent (e.g. "10%").
    pub x: Option<String>,
    /// Vertical position: fixed rows (e.g. "5") or percent (e.g. "5%").
    pub y: Option<String>,
    /// Width: fixed columns (e.g. "80") or percent (e.g. "50%").
    pub width: Option<String>,
    /// Height: fixed rows (e.g. "24") or percent (e.g. "50%").
    pub height: Option<String>,
    /// Reference point for x/y coordinates.
    pub origin: Origin,
    /// Pane title (displayed in the Zellij UI). Applied on register.
    pub title: Option<String>,
    /// Working directory for the command.
    pub cwd: Option<String>,
}

/// The text content of a scratchpad configuration.
pub struct ScratchpadConfigView {
    pub command: Seq<Seq<char>>,
    pub x: Option<Seq<char>>,
    pub y: Option<Seq<char>>,
    pub width: Option<Seq<char>>,
    pub height: Option<Seq<char>>,
    pub origin: Origin,
    pub title: Option<Seq<char>>,
    pub cwd: Option<Seq<char>>,
}

pub open spec fn opt_view(o: Option<String>) -> Option<Seq<char>> {
    match o {
        Some(s) => Some(s@),
        None => None,
    }
}

impl View for ScratchpadConfig {
    type V = ScratchpadConfigView;

    open spec fn view(&self) -> ScratchpadConfigView {
        ScratchpadConfigView {
            command: self.command@.map_values(|s: String| s@),
            x: opt_view(self.x),
            y: opt_view(self.y),
            width: opt_view(self.width),
            height: opt_view(self.height),
            origin: self.origin,
            title: opt_view(self.title),
            cwd: opt_view(self.cwd),
        }
    }
}

/// A size value that is either a fixed number of rows/columns or a percentage.
#[derive(Debug, Clone, Copy, PartialEq, Eq, Structural)]
pub enum SizeValue {
    Fixed(usize),
    Percent(usize),
}

/// What `SizeValue::parse` returns: a trailing `%` makes a percentage.
pub open spec fn size_value_spec(s: Seq<char>) -> Option<SizeValue> {
    if s.len() > 0 && s.last() == '%' {
        match parse_unsigned(s.drop_last(), usize::MAX as nat) {
            Ok(v) => Some(SizeValue::Percent(v as usize)),
            Err(_) => None,
        }
    } else {
        match parse_unsigned(s, usize::MAX as nat) {
            Ok(v) => Some(SizeValue::Fixed(v as usize)),
            Err(_) => None,
        }
    }
}

impl SizeValue {
    /// Parse a size string: plain number gives `Fixed`, trailing '%' gives `Percent`.
    pub fn parse(s: &str) -> (r: Option<SizeValue>)
        ensures
            r == size_value_spec(s@),
    {
        let cs = chars_of(s);
        let n = cs.len();
        if n > 0 && cs[n - 1] == '%' {
            let digits = slice_chars(&cs, 0, n - 1);
            assert(digits@ == cs@.drop_last());
            match parse_unsigned_chars(&digits, usize::MAX as u64) {
                Ok(v) => Some(SizeValue::Percent(v as usize)),
                Err(_) => None,
            }
        } else {
            match parse_unsigned_chars(&cs, usize::MAX as u64) {
                Ok(v) => Some(SizeValue::Fixed(v as usize)),
                Err(_) => None,
            }
        }
    }
}

/// Resolved floating-pane coordinates (all absolute, ready for the Zellij API).
#[derive(Debug, Clone, PartialEq, Eq)]
pub struct ResolvedCoordinates {
    pub x: Option<String>,
    pub y: Option<String>,
    pub width: Option<String>,
    pub height: Option<String>,
}

/// Where a pane starts on one axis:
/// `Start` gives the offset, `Center` gives `(viewport - size) / 2 + offset`,
/// `End` gives `viewport - size - offset`; each difference is floored at 0.
pub open spec fn axis_position(origin: AxisOrigin, offset: nat, size: nat, viewport: nat) -> nat {
    match origin {
        AxisOrigin::Start => offset,
        AxisOrigin::Center => (if viewport >= size { ((viewport - size) / 2) as nat } else { 0 }) + offset,
        AxisOrigin::End => {
            let rest: nat = if viewport >= size { (viewport - size) as nat } else { 0 };
            if rest >= offset { (rest - offset) as nat } else { 0 }
        },
    }
}

/// The position as a `usize`: a position past `usize::MAX` saturates there.
pub open spec fn saturated(n: nat) -> nat {
    if n <= usize::MAX { n } else { usize::MAX as nat }
}

/// Resolve a single axis position given an origin, offset, optional pane size,
/// and viewport extent. A missing size counts as 0.
pub fn resolve_axis(origin: AxisOrigin, offset: usize, pane_size: Option<usize>, viewport: usize) -> (p: usize)
    ensures
        p == saturated(axis_position(origin, offset as nat, match pane_size { Some(s) => s as nat, None => 0 }, viewport as nat)),
{
    let size = match pane_size {
        Some(s) => s,
        None => 0,
    };
    match origin {
        AxisOrigin::Start => offset,
        AxisOrigin::Center => {
            let center = viewport.saturating_sub(size) / 2;
            center.saturating_add(offset)
        },
        AxisOrigin::End => viewport.saturating_sub(size).saturating_sub(offset),
    }
}

fn clone_opt(o: &Option<String>) -> (r: Option<String>)
    ensures
        opt_view(r) == opt_view(*o),
{
    match o {
        Some(s) => Some(s.clone()),
        None => None,
    }
}

impl ScratchpadConfig {
    /// Place the pane given already resolved sizes and offsets: with a
    /// top-left origin the configured texts pass through unchanged; otherwise
    /// x and y become the decimal axis positions and width/height pass through.
    pub fn place(
        &self,
        pane_w: Option<usize>,
        pane_h: Option<usize>,
        offset_x: usize,
        offset_y: usize,
        viewport_cols: usize,
        viewport_rows: usize,
    ) -> (r: ResolvedCoordinates)
        ensures
            opt_view(r.width) == opt_view(self.width),
            opt_view(r.height) == opt_view(self.height),
            self.origin.vertical == AxisOrigin::Start && self.origin.horizontal == AxisOrigin::Start ==> {
                &&& opt_view(r.x) == opt_view(self.x)
                &&& opt_view(r.y) == opt_view(self.y)
            },
            !(self.origin.vertical == AxisOrigin::Start && self.origin.horizontal == AxisOrigin::Start) ==> {
                &&& opt_view(r.x) == Some(decimal(saturated(axis_position(self.origin.horizontal, offset_x as nat,
                        match pane_w { Some(s) => s as nat, None => 0 }, viewport_cols as nat))))
                &&& opt_view(r.y) == Some(decimal(saturated(axis_position(self.origin.vertical, offset_y as nat,
                        match pane_h { Some(s) => s as nat, None => 0 }, viewport_rows as nat))))
            },
    {
        if self.origin.vertical == AxisOrigin::Start && self.origin.horizontal == AxisOrigin::Start {
            return ResolvedCoordinates {
                x: clone_opt(&self.x),
                y: clone_opt(&self.y),
                width: clone_opt(&self.width),
                height: clone_opt(&self.height),
            };
        }
        let rx = resolve_axis(self.origin.horizontal, offset_x, pane_w, viewport_cols);
        let ry = resolve_axis(self.origin.vertical, offset_y, pane_h, viewport_rows);
        ResolvedCoordinates {
            x: Some(decimal_string(rx as u64)),
            y: Some(decimal_string(ry as u64)),
            width: clone_opt(&self.width),
            height: clone_opt(&self.height),
        }
    }
}

/// Actions that can be performed on scratchpads.
#[derive(Debug)]
pub enum ScratchpadAction {
    Toggle { name: Option<String> },
    Show { name: String },
    Hide { name: String },
    Close { name: String },
}

pub open spec fn is_name_char(c: char) -> bool {
    is_ascii_alphanumeric(c) || c == '_' || c == '-'
}

/// A valid scratchpad name is nonempty and made of ASCII letters, digits, `_` and `-`.
pub open spec fn valid_scratchpad_name(name: Seq<char>) -> bool {
    name.len() > 0 && forall|i: int| 0 <= i < name.len() ==> is_name_char(#[trigger] name[i])
}

/// Check if a scratchpad name is valid (alphanumeric, underscore, hyphen).
pub fn is_valid_scratchpad_name(name: &str) -> (b: bool)
    ensures
        b == valid_scratchpad_name(name@),
{
    let cs = chars_of(name);
    if cs.len() == 0 {
        return false;
    }
    let mut i: usize = 0;
    while i < cs.len()
        invariant
            cs@ == name@,
            i <= cs@.len(),
            forall|j: int| 0 <= j < i ==> is_name_char(#[trigger] cs@[j]),
        decreases cs.len() - i,
    {
        let c = cs[i];
        if !(('0' <= c && c <= '9') || ('a' <= c && c <= 'z') || ('A' <= c && c <= 'Z') || c == '_' || c == '-') {
            return false;
        }
        i = i + 1;
    }
    true
}

/// What `parse_scratchpad_action` yields for message arguments, with errors
/// written as `ParseError` shapes: `Err(Ok(text))` is `InvalidArgs(text)` and
/// `Err(Err(name))` is `InvalidScratchpadName(name)`.
pub open spec fn scratchpad_action_spec(args: Seq<Seq<char>>)
    -> Result<(Seq<char>, Option<Seq<char>>), Result<Seq<char>, Seq<char>>>
{
    let action = if args.len() > 0 { args[0] } else { Seq::empty() };
    if action == "toggle"@ {
        if args.len() > 1 {
            if valid_scratchpad_name(args[1]) { Ok((action, Some(args[1]))) } else { Err(Err(args[1])) }
        } else {
            Ok((action, None))
        }
    } else if action == "show"@ || action == "hide"@ || action == "close"@ {
        if args.len() > 1 {
            if valid_scratchpad_name(args[1]) { Ok((action, Some(args[1]))) } else { Err(Err(args[1])) }
        } else {
            Err(Ok(action + " requires a scratchpad name"@))
        }
    } else {
        Err(Ok("Unknown scratchpad action: "@ + action))
    }
}

/// Whether an action value is the one a successful spec result describes.
pub open spec fn action_matches(a: ScratchpadAction, verb: Seq<char>, name: Option<Seq<char>>) -> bool {
    match a {
        ScratchpadAction::Toggle { name: n } => verb == "toggle"@ && opt_view(n) == name,
        ScratchpadAction::Show { name: n } => verb == "show"@ && name == Some(n@),
        ScratchpadAction::Hide { name: n } => verb == "hide"@ && name == Some(n@),
        ScratchpadAction::Close { name: n } => verb == "close"@ && name == Some(n@),
    }
}

fn requires_name(verb: &str) -> (e: ParseError)
    ensures
        e matches ParseError::InvalidArgs(m) && m@ == verb@ + " requires a scratchpad name"@,
{
    let mut out: Vec<char> = Vec::new();
    push_str(&mut out, verb);
    push_str(&mut out, " requires a scratchpad name");
    ParseError::InvalidArgs(string_of(&out))
}

/// Parse a scratchpad action from message arguments.
pub fn parse_scratchpad_action(args: &[&str]) -> (r: Result<ScratchpadAction, ParseError>)
    ensures
        match scratchpad_action_spec(args@.map_values(|a: &str| a@)) {
            Ok((verb, name)) => r matches Ok(a) && action_matches(a, verb, name),
            Err(Ok(text)) => r matches Err(ParseError::InvalidArgs(m)) && m@ == text,
            Err(Err(name)) => r matches Err(ParseError::InvalidScratchpadName(m)) && m@ == name,
        },
{
    let ghost sargs = args@.map_values(|a: &str| a@);
    proof {
        reveal_strlit("toggle");
        reveal_strlit("show");
        reveal_strlit("hide");
        reveal_strlit("close");
        reveal_strlit("");
    }
    let action: &str = if args.len() > 0 { args[0] } else { "" };
    assert(sargs.len() == args@.len());
    assert(args@.len() > 0 ==> sargs[0] == args@[0]@);
    assert(action@ == (if sargs.len() > 0 { sargs[0] } else { Seq::<char>::empty() }));
    assert(args@.len() > 1 ==> sargs[1] == args@[1]@);
    let name: Option<String> = if args.len() > 1 { Some(args[1].to_owned()) } else { None };
    if str_equals(action, "toggle") {
        match &name {
            Some(n) => {
                if !is_valid_scratchpad_name(n.as_str()) {
                    return Err(ParseError::InvalidScratchpadName(n.clone()));
                }
            },
            None => {},
        }
        return Ok(ScratchpadAction::Toggle { name });
    }
    let is_show = str_equals(action, "show");
    let is_hide = str_equals(action, "hide");
    let is_close = str_equals(action, "close");
    if is_show || is_hide || is_close {
        let n = match name {
            Some(n) => n,
            None => return Err(requires_name(action)),
        };
        if !is_valid_scratchpad_name(n.as_str()) {
            return Err(ParseError::InvalidScratchpadName(n));
        }
        if is_show {
            return Ok(ScratchpadAction::Show { name: n });
        } else if is_hide {
            return Ok(ScratchpadAction::Hide { name: n });
        } else {
            return Ok(ScratchpadAction::Close { name: n });
        }
    }
    let mut out: Vec<char> = Vec::new();
    push_str(&mut out, "Unknown scratchpad action: ");
    push_str(&mut out, action);
    Err(ParseError::InvalidArgs(string_of(&out)))
}

/// A vertical axis keyword.
pub open spec fn vertical_spec(s: Seq<char>) -> Option<AxisOrigin> {
    if s == "top"@ { Some(AxisOrigin::Start) }
    else if s == "center"@ { Some(AxisOrigin::Center) }
    else if s == "bottom"@ { Some(AxisOrigin::End) }
    else { None }
}

/// A horizontal axis keyword.
pub open spec fn horizontal_spec(s: Seq<char>) -> Option<AxisOrigin> {
    if s == "left"@ { Some(AxisOrigin::Start) }
    else if s == "center"@ { Some(AxisOrigin::Center) }
    else if s == "right"@ { Some(AxisOrigin::End) }
    else { None }
}

fn parse_vertical(s: &str) -> (r: Option<AxisOrigin>)
    ensures
        r == vertical_spec(s@),
{
    proof { reveal_strlit("top"); reveal_strlit("center"); reveal_strlit("bottom"); }
    if str_equals(s, "top") { Some(AxisOrigin::Start) }
    else if str_equals(s, "center") { Some(AxisOrigin::Center) }
    else if str_equals(s, "bottom") { Some(AxisOrigin::End) }
    else { None }
}

fn parse_horizontal(s: &str) -> (r: Option<AxisOrigin>)
    ensures
        r == horizontal_spec(s@),
{
    proof { reveal_strlit("left"); reveal_strlit("center"); reveal_strlit("right"); }
    if str_equals(s, "left") { Some(AxisOrigin::Start) }
    else if str_equals(s, "center") { Some(AxisOrigin::Center) }
    else if str_equals(s, "right") { Some(AxisOrigin::End) }
    else { None }
}

/// The `origin` of a scratchpad's child block: one argument applies to both
/// axes (a horizontal-only keyword keeps the top edge), two are vertical then
/// horizontal. Errors carry their message.
pub open spec fn origin_spec(children: Option<Seq<Node>>) -> Result<Origin, Seq<char>> {
    let node = match children {
        Some(c) => get_node(c, "origin"@),
        None => None,
    };
    match node {
        None => Ok(Origin { vertical: AxisOrigin::Center, horizontal: AxisOrigin::Center }),
        Some(n) => {
            let args = string_entries(n.entries@);
            if args.len() == 1 {
                match vertical_spec(args[0]) {
                    Some(v) => Ok(Origin {
                        vertical: v,
                        horizontal: if v == AxisOrigin::Center { AxisOrigin::Center } else { AxisOrigin::Start },
                    }),
                    None => match horizontal_spec(args[0]) {
                        Some(h) => Ok(Origin { vertical: AxisOrigin::Start, horizontal: h }),
                        None => Err("Invalid origin value: '"@ + args[0] + "'"@),
                    },
                }
            } else if args.len() == 2 {
                match vertical_spec(args[0]) {
                    None => Err("Invalid vertical origin: '"@ + args[0] + "'"@),
                    Some(v) => match horizontal_spec(args[1]) {
                        None => Err("Invalid horizontal origin: '"@ + args[1] + "'"@),
                        Some(h) => Ok(Origin { vertical: v, horizontal: h }),
                    },
                }
            } else {
                Err("origin expects 1 or 2 arguments"@)
            }
        },
    }
}

fn quoted_error(prefix: &str, value: &str) -> (s: String)
    ensures
        s@ == prefix@ + value@ + "'"@,
{
    let mut out: Vec<char> = Vec::new();
    push_str(&mut out, prefix);
    push_str(&mut out, value);
    push_str(&mut out, "'");
    string_of(&out)
}

/// Parse an `origin` child node.
fn parse_origin(children: &Option<Vec<Node>>) -> (r: Result<Origin, String>)
    ensures
        match r {
            Ok(o) => origin_spec(children_view(children)) == Ok::<Origin, Seq<char>>(o),
            Err(e) => origin_spec(children_view(children)) == Err::<Origin, Seq<char>>(e@),
        },
{
    proof { reveal_strlit("origin"); }
    let nodes = match children {
        Some(c) => c,
        None => return Ok(Origin::default()),
    };
    let idx = match find_node(nodes, "origin") {
        Some(i) => i,
        None => return Ok(Origin::default()),
    };
    let args = collect_string_entries(&nodes[idx].entries);
    if args.len() == 1 {
        match parse_vertical(args[0].as_str()) {
            Some(v) => Ok(Origin {
                vertical: v,
                horizontal: if v == AxisOrigin::Center { AxisOrigin::Center } else { AxisOrigin::Start },
            }),
            None => match parse_horizontal(args[0].as_str()) {
                Some(h) => Ok(Origin { vertical: AxisOrigin::Start, horizontal: h }),
                None => Err(quoted_error("Invalid origin value: '", args[0].as_str())),
            },
        }
    } else if args.len() == 2 {
        match parse_vertical(args[0].as_str()) {
            None => Err(quoted_error("Invalid vertical origin: '", args[0].as_str())),
            Some(v) => match parse_horizontal(args[1].as_str()) {
                None => Err(quoted_error("Invalid horizontal origin: '", args[1].as_str())),
                Some(h) => Ok(Origin { vertical: v, horizontal: h }),
            },
        }
    } else {
        Err("origin expects 1 or 2 arguments".to_owned())
    }
}

/// The command arguments of a scratchpad's child block.
pub open spec fn command_spec(children: Option<Seq<Node>>) -> Seq<Seq<char>> {
    match children {
        Some(c) => match get_node(c, "command"@) {
            Some(n) => string_entries(n.entries@),
            None => Seq::empty(),
        },
        None => Seq::empty(),
    }
}

/// The configuration one scratchpad node describes, or the error it causes.
pub open spec fn node_config_spec(n: Node) -> Result<ScratchpadConfigView, Seq<char>> {
    let name = n.name@;
    let children = children_view(&n.children);
    let command = command_spec(children);
    if !valid_scratchpad_name(name) {
        Err("Invalid scratchpad name: '"@ + name + "'"@)
    } else if command.len() == 0 {
        Err("Scratchpad '"@ + name + "' has no command"@)
    } else {
        match origin_spec(children) {
            Err(e) => Err(e),
            Ok(origin) => Ok(ScratchpadConfigView {
                command,
                x: string_child(children, "x"@),
                y: string_child(children, "y"@),
                width: string_child(children, "width"@),
                height: string_child(children, "height"@),
                origin,
                title: string_child(children, "title"@),
                cwd: string_child(children, "cwd"@),
            }),
        }
    }
}

/// The configurations a document's nodes describe, keyed by name; the first
/// failing node decides the error and a later definition replaces an earlier one.
pub open spec fn scratchpads_spec(nodes: Seq<Node>) -> Result<Map<Seq<char>, ScratchpadConfigView>, Seq<char>>
    decreases nodes.len(),
{
    if nodes.len() == 0 {
        Ok(Map::empty())
    } else {
        match scratchpads_spec(nodes.drop_last()) {
            Err(e) => Err(e),
            Ok(m) => match node_config_spec(nodes.last()) {
                Err(e) => Err(e),
                Ok(c) => Ok(m.insert(nodes.last().name@, c)),
            },
        }
    }
}

pub open spec fn configs_view(m: Map<Seq<char>, ScratchpadConfig>) -> Map<Seq<char>, ScratchpadConfigView> {
    m.map_values(|c: ScratchpadConfig| c@)
}

fn node_config(n: &Node) -> (r: Result<ScratchpadConfig, String>)
    ensures
        match r {
            Ok(c) => node_config_spec(*n) == Ok::<ScratchpadConfigView, Seq<char>>(c@),
            Err(e) => node_config_spec(*n) == Err::<ScratchpadConfigView, Seq<char>>(e@),
        },
{
    proof {
        reveal_strlit("command");
        reveal_strlit("x");
        reveal_strlit("y");
        reveal_strlit("width");
        reveal_strlit("height");
        reveal_strlit("title");
        reveal_strlit("cwd");
    }
    let name = n.name.as_str();
    if !is_valid_scratchpad_name(name) {
        return Err(quoted_error("Invalid scratchpad name: '", name));
    }
    let command: Vec<String> = match &n.children {
        Some(c) => match find_node(c, "command") {
            Some(i) => collect_string_entries(&c[i].entries),
            None => Vec::new(),
        },
        None => Vec::new(),
    };
    assert(command@.map_values(|s: String| s@) =~= command_spec(children_view(&n.children)));
    if command.len() == 0 {
        let mut out: Vec<char> = Vec::new();
        push_str(&mut out, "Scratchpad '");
        push_str(&mut out, name);
        push_str(&mut out, "' has no command");
        return Err(string_of(&out));
    }
    let x = parse_string_child(&n.children, "x");
    let y = parse_string_child(&n.children, "y");
    let width = parse_string_child(&n.children, "width");
    let height = parse_string_child(&n.children, "height");
    let origin = match parse_origin(&n.children) {
        Ok(o) => o,
        Err(e) => return Err(e),
    };
    let title = parse_string_child(&n.children, "title");
    let cwd = parse_string_child(&n.children, "cwd");
    Ok(ScratchpadConfig { command, x, y, width, height, origin, title, cwd })
}

/// Read scratchpad configurations from parsed KDL nodes.
pub fn parse_scratchpad_nodes(nodes: &Vec<Node>) -> (r: Result<ScratchpadConfigs, String>)
    ensures
        match r {
            Ok(m) => m.wf() && scratchpads_spec(nodes@) == Ok::<Map<Seq<char>, ScratchpadConfigView>, Seq<char>>(configs_view(m@)),
            Err(e) => scratchpads_spec(nodes@) == Err::<Map<Seq<char>, ScratchpadConfigView>, Seq<char>>(e@),
        },
{
    let mut configs = ScratchpadConfigs::new();
    let mut i: usize = 0;
    assert(configs_view(configs@) =~= Map::empty());
    while i < nodes.len()
        invariant
            i <= nodes@.len(),
            configs.wf(),
            scratchpads_spec(nodes@.subrange(0, i as int))
                == Ok::<Map<Seq<char>, ScratchpadConfigView>, Seq<char>>(configs_view(configs@)),
        decreases nodes.len() - i,
    {
        let ghost pre = nodes@.subrange(0, i + 1);
        assert(pre.drop_last() == nodes@.subrange(0, i as int));
        assert(pre.last() == nodes@[i as int]);
        match node_config(&nodes[i]) {
            Ok(c) => {
                let ghost before = configs@;
                configs.insert(nodes[i].name.clone(), c);
                assert(configs_view(configs@) =~= configs_view(before).insert(nodes@[i as int].name@, c@));
            },
            Err(e) => {
                proof { lemma_scratchpads_error_sticks(nodes@, i as int + 1); }
                return Err(e);
            },
        }
        i = i + 1;
    }
    assert(nodes@.subrange(0, nodes@.len() as int) == nodes@);
    Ok(configs)
}

/// Once a prefix of the nodes fails, the whole document fails with that error.
proof fn lemma_scratchpads_error_sticks(nodes: Seq<Node>, k: int)
    requires
        0 <= k <= nodes.len(),
        scratchpads_spec(nodes.subrange(0, k)) is Err,
    ensures
        scratchpads_spec(nodes) == scratchpads_spec(nodes.subrange(0, k)),
    decreases nodes.len() - k,
{
    if k < nodes.len() {
        let pre = nodes.subrange(0, k + 1);
        assert(pre.drop_last() == nodes.subrange(0, k));
        lemma_scratchpads_error_sticks(nodes, k + 1);
    } else {
        assert(nodes.subrange(0, k) == nodes);
    }
}

/// What `parse_scratchpads_kdl` returns for a text.
pub open spec fn scratchpads_kdl_spec(text: Seq<char>) -> Result<Map<Seq<char>, ScratchpadConfigView>, Seq<char>> {
    match kdl_parse_result(text) {
        Err(e) => Err("KDL parse error: "@ + e),
        Ok(nodes) => scratchpads_spec(nodes@),
    }
}

/// Parse scratchpad configurations from KDL text.
pub fn parse_scratchpads_kdl(input: &str) -> (r: Result<ScratchpadConfigs, String>)
    ensures
        match r {
            Ok(m) => m.wf() && scratchpads_kdl_spec(input@) == Ok::<Map<Seq<char>, ScratchpadConfigView>, Seq<char>>(configs_view(m@)),
            Err(e) => scratchpads_kdl_spec(input@) == Err::<Map<Seq<char>, ScratchpadConfigView>, Seq<char>>(e@),
        },
{
    match parse_kdl(input) {
        Err(e) => {
            let mut out: Vec<char> = Vec::new();
            push_str(&mut out, "KDL parse error: ");
            push_str(&mut out, e.as_str());
            Err(string_of(&out))
        },
        Ok(nodes) => parse_scratchpad_nodes(&nodes),
    }
}


/// What an external configuration file gives: the configurations of its
/// first `scratchpads` block, and none without such a block or without
/// children in it.
pub open spec fn external_scratchpads_spec(text: Seq<char>) -> Result<Map<Seq<char>, ScratchpadConfigView>, Seq<char>> {
    match kdl_parse_result(text) {
        Err(e) => Err("KDL parse error: "@ + e),
        Ok(nodes) => match get_node(nodes@, "scratchpads"@) {
            None => Ok(Map::empty()),
            Some(n) => match n.children {
                None => Ok(Map::empty()),
                Some(children) => scratchpads_spec(children@),
            },
        },
    }
}

/// Read the scratchpad configurations of an external configuration file,
/// which holds them in a top-level `scratchpads { ... }` block.
pub fn parse_external_scratchpads(contents: &str) -> (r: Result<ScratchpadConfigs, String>)
    ensures
        match r {
            Ok(m) => m.wf() && external_scratchpads_spec(contents@) == Ok::<Map<Seq<char>, ScratchpadConfigView>, Seq<char>>(configs_view(m@)),
            Err(e) => external_scratchpads_spec(contents@) == Err::<Map<Seq<char>, ScratchpadConfigView>, Seq<char>>(e@),
        },
{
    match parse_kdl(contents) {
        Err(e) => {
            let mut out: Vec<char> = Vec::new();
            push_str(&mut out, "KDL parse error: ");
            push_str(&mut out, e.as_str());
            Err(string_of(&out))
        },
        Ok(nodes) => match find_node(&nodes, "scratchpads") {
            None => {
                let c = ScratchpadConfigs::new();
                assert(configs_view(c@) =~= Map::<Seq<char>, ScratchpadConfigView>::empty());
                Ok(c)
            },
            Some(i) => match &nodes[i].children {
                None => {
                    let c = ScratchpadConfigs::new();
                    assert(configs_view(c@) =~= Map::<Seq<char>, ScratchpadConfigView>::empty());
                    Ok(c)
                },
                Some(children) => parse_scratchpad_nodes(children),
            },
        },
    }
}

} // verus!
