//! Rendering of scratchpad status outputs for zjstatus.

use vstd::prelude::*;
use crate::scratchpad::status::{display_state_text, ScratchpadDisplayState, ScratchpadStatusItem, ScratchpadStatusSnapshot};
use crate::text::{chars_of, decimal, push_decimal, push_str, string_of};
use crate::zjstatus::markup::{
    escape_chars, escape_value, sanitize_pipe, sanitize_pipe_chars, sanitize_tab, sanitize_tab_chars,
    substitute, substitute_chars, table_view,
};

verus! {

/// What an output shows.
#[derive(Debug, Clone, Copy, PartialEq, Eq, Structural)]
pub enum OutputSource {
    Scratchpad,
    PaneStatus,
}

/// Per-output formatting and filters, finalized from the configuration
/// layers. The publisher checks `enabled` before rendering.
#[derive(Debug, Clone, PartialEq, Eq)]
pub struct OutputConfig {
    pub enabled: bool,
    pub source: OutputSource,
    /// Whether the output is a tab field rather than a global pipe.
    pub tab_scoped: bool,
    pub format: String,
    pub empty_format: String,
    pub item_format: String,
    pub item_visible_format: Option<String>,
    pub item_hidden_format: Option<String>,
    pub item_closed_format: Option<String>,
    pub current_item_format: Option<String>,
    pub current_item_focused_format: Option<String>,
    pub current_item_mru_format: Option<String>,
    pub current_item_visible_format: Option<String>,
    pub current_item_hidden_format: Option<String>,
    pub current_item_closed_format: Option<String>,
    pub global_item_format: Option<String>,
    pub global_item_visible_format: Option<String>,
    pub global_item_hidden_format: Option<String>,
    pub global_item_closed_format: Option<String>,
    pub tab_item_format: Option<String>,
    pub tab_item_focused_format: Option<String>,
    pub tab_item_mru_format: Option<String>,
    pub tab_item_visible_format: Option<String>,
    pub tab_item_hidden_format: Option<String>,
    pub tab_item_closed_format: Option<String>,
    pub tab_item_separator: Option<String>,
    pub item_separator: String,
    pub current_item_separator: Option<String>,
    pub global_item_separator: Option<String>,
    pub selected: Vec<String>,
    pub exclude: Vec<String>,
}

/// The three groups of items an output can show.
#[derive(Debug, Clone, Copy, PartialEq, Eq, Structural)]
pub enum Scope {
    Current,
    Global,
    Tab,
}

pub open spec fn sv(o: Option<String>) -> Option<Seq<char>> {
    match o {
        Some(s) => Some(s@),
        None => None,
    }
}

/// The first of three optional templates that is set, else the fallback.
pub open spec fn first_set(a: Option<String>, b: Option<String>, c: Option<String>, fallback: String) -> Seq<char> {
    match (a, b, c) {
        (Some(x), _, _) => x@,
        (None, Some(x), _) => x@,
        (None, None, Some(x)) => x@,
        (None, None, None) => fallback@,
    }
}

/// The template of an item: focus and most-recent overrides of the scope
/// first, then the state template of the scope, the generic state template,
/// the scope template, and the item template.
pub open spec fn item_template(c: OutputConfig, scope: Scope, item: ScratchpadStatusItem) -> Seq<char> {
    if scope == Scope::Tab && item.is_focused && c.tab_item_focused_format is Some {
        c.tab_item_focused_format->Some_0@
    } else if scope == Scope::Tab && item.is_mru && c.tab_item_mru_format is Some {
        c.tab_item_mru_format->Some_0@
    } else if scope == Scope::Current && item.is_focused && c.current_item_focused_format is Some {
        c.current_item_focused_format->Some_0@
    } else if scope == Scope::Current && item.is_mru && c.current_item_mru_format is Some {
        c.current_item_mru_format->Some_0@
    } else {
        match (scope, item.state) {
            (Scope::Tab, ScratchpadDisplayState::Visible) =>
                first_set(c.tab_item_visible_format, c.item_visible_format, c.tab_item_format, c.item_format),
            (Scope::Tab, ScratchpadDisplayState::Hidden) =>
                first_set(c.tab_item_hidden_format, c.item_hidden_format, c.tab_item_format, c.item_format),
            (Scope::Tab, ScratchpadDisplayState::Closed) =>
                first_set(c.tab_item_closed_format, c.item_closed_format, c.tab_item_format, c.item_format),
            (Scope::Current, ScratchpadDisplayState::Visible) =>
                first_set(c.current_item_visible_format, c.item_visible_format, c.current_item_format, c.item_format),
            (Scope::Current, ScratchpadDisplayState::Hidden) =>
                first_set(c.current_item_hidden_format, c.item_hidden_format, c.current_item_format, c.item_format),
            (Scope::Current, ScratchpadDisplayState::Closed) =>
                first_set(c.current_item_closed_format, c.item_closed_format, c.current_item_format, c.item_format),
            (Scope::Global, ScratchpadDisplayState::Visible) =>
                first_set(c.global_item_visible_format, c.item_visible_format, c.global_item_format, c.item_format),
            (Scope::Global, ScratchpadDisplayState::Hidden) =>
                first_set(c.global_item_hidden_format, c.item_hidden_format, c.global_item_format, c.item_format),
            (Scope::Global, ScratchpadDisplayState::Closed) =>
                first_set(c.global_item_closed_format, c.item_closed_format, c.global_item_format, c.item_format),
        }
    }
}

/// The separator between the rendered items of a scope.
pub open spec fn item_separator(c: OutputConfig, scope: Scope) -> Seq<char> {
    match scope {
        Scope::Tab => match c.tab_item_separator { Some(s) => s@, None => c.item_separator@ },
        Scope::Current => match c.current_item_separator { Some(s) => s@, None => c.item_separator@ },
        Scope::Global => match c.global_item_separator { Some(s) => s@, None => c.item_separator@ },
    }
}

pub open spec fn icon_text(s: ScratchpadDisplayState) -> Seq<char> {
    match s {
        ScratchpadDisplayState::Visible => "●"@,
        ScratchpadDisplayState::Hidden => "○"@,
        ScratchpadDisplayState::Closed => "×"@,
    }
}

pub open spec fn opt_decimal(n: Option<nat>) -> Seq<char> {
    match n {
        Some(v) => decimal(v),
        None => Seq::empty(),
    }
}

pub open spec fn bool_word(b: bool) -> Seq<char> {
    if b { "true"@ } else { "false"@ }
}

/// The directives an item template can use.
pub open spec fn item_values(item: ScratchpadStatusItem) -> Seq<(Seq<char>, Seq<char>)> {
    seq![
        ("{name}"@, escape_value(item.name@)),
        ("{title}"@, escape_value(item.title@)),
        ("{state}"@, display_state_text(item.state)),
        ("{icon}"@, icon_text(item.state)),
        ("{pane_id}"@, opt_decimal(match item.pane_id { Some(v) => Some(v as nat), None => None })),
        ("{tab_id}"@, opt_decimal(match item.tab_id { Some(v) => Some(v as nat), None => None })),
        ("{tab_position}"@, opt_decimal(match item.tab_position { Some(v) => Some(v as nat), None => None })),
        ("{is_focused}"@, bool_word(item.is_focused)),
    ]
}

/// One item rendered with its template.
pub open spec fn item_text(c: OutputConfig, scope: Scope, item: ScratchpadStatusItem) -> Seq<char> {
    substitute(item_template(c, scope, item), item_values(item))
}

pub open spec fn names(v: Seq<String>) -> Seq<Seq<char>> {
    v.map_values(|s: String| s@)
}

/// Whether the selection and exclusion lists let an item through.
pub open spec fn passes_filter(c: OutputConfig, item: ScratchpadStatusItem) -> bool {
    (c.selected@.len() == 0 || names(c.selected@).contains(item.name@)) && !names(c.exclude@).contains(item.name@)
}

pub open spec fn filter_items(c: OutputConfig, items: Seq<ScratchpadStatusItem>) -> Seq<ScratchpadStatusItem>
    decreases items.len(),
{
    if items.len() == 0 {
        Seq::empty()
    } else if passes_filter(c, items.last()) {
        filter_items(c, items.drop_last()).push(items.last())
    } else {
        filter_items(c, items.drop_last())
    }
}

/// Lexicographic order of texts by code point, which is the byte order of
/// their UTF-8 encodings.
pub open spec fn text_lt(a: Seq<char>, b: Seq<char>) -> bool
    decreases a.len(),
{
    if a.len() == 0 {
        b.len() > 0
    } else if b.len() == 0 {
        false
    } else if a[0] != b[0] {
        (a[0] as u32) < (b[0] as u32)
    } else {
        text_lt(a.subrange(1, a.len() as int), b.subrange(1, b.len() as int))
    }
}

/// Insert an item into a list sorted by name, after every item whose name
/// is not greater.
pub open spec fn insert_by_name(s: Seq<ScratchpadStatusItem>, x: ScratchpadStatusItem) -> Seq<ScratchpadStatusItem>
    decreases s.len(),
{
    if s.len() == 0 {
        seq![x]
    } else if text_lt(x.name@, s.last().name@) {
        insert_by_name(s.drop_last(), x).push(s.last())
    } else {
        s.push(x)
    }
}

/// The items sorted by name; items with equal names keep their order.
pub open spec fn sort_by_name(s: Seq<ScratchpadStatusItem>) -> Seq<ScratchpadStatusItem>
    decreases s.len(),
{
    if s.len() == 0 {
        Seq::empty()
    } else {
        insert_by_name(sort_by_name(s.drop_last()), s.last())
    }
}

/// The non-empty renderings of the items, in order.
pub open spec fn rendered_items(c: OutputConfig, scope: Scope, items: Seq<ScratchpadStatusItem>) -> Seq<Seq<char>>
    decreases items.len(),
{
    if items.len() == 0 {
        Seq::empty()
    } else if item_text(c, scope, items.last()).len() > 0 {
        rendered_items(c, scope, items.drop_last()).push(item_text(c, scope, items.last()))
    } else {
        rendered_items(c, scope, items.drop_last())
    }
}

pub open spec fn join(parts: Seq<Seq<char>>, sep: Seq<char>) -> Seq<char>
    decreases parts.len(),
{
    if parts.len() == 0 {
        Seq::empty()
    } else if parts.len() == 1 {
        parts[0]
    } else {
        join(parts.drop_last(), sep) + sep + parts.last()
    }
}

pub open spec fn count_where(items: Seq<ScratchpadStatusItem>, p: spec_fn(ScratchpadStatusItem) -> bool) -> nat
    decreases items.len(),
{
    if items.len() == 0 {
        0
    } else {
        count_where(items.drop_last(), p) + if p(items.last()) { 1nat } else { 0nat }
    }
}

pub open spec fn first_focused(items: Seq<ScratchpadStatusItem>) -> Option<ScratchpadStatusItem>
    decreases items.len(),
{
    if items.len() == 0 {
        None
    } else if items[0].is_focused {
        Some(items[0])
    } else {
        first_focused(items.subrange(1, items.len() as int))
    }
}

pub open spec fn renders_in(c: OutputConfig, scope: Scope) -> spec_fn(ScratchpadStatusItem) -> bool {
    |i: ScratchpadStatusItem| item_text(c, scope, i).len() > 0
}

pub open spec fn is_live() -> spec_fn(ScratchpadStatusItem) -> bool {
    |i: ScratchpadStatusItem| i.state != ScratchpadDisplayState::Closed
}

pub open spec fn in_state(st: ScratchpadDisplayState) -> spec_fn(ScratchpadStatusItem) -> bool {
    |i: ScratchpadStatusItem| i.state == st
}

/// What a scope contributes to an output.
pub struct ScopeView {
    pub configured: nat,
    pub rendered: nat,
    pub live: nat,
    pub visible: nat,
    pub hidden: nat,
    pub closed: nat,
    pub items_text: Seq<char>,
    pub focused: Option<ScratchpadStatusItem>,
}

/// A scope: its items filtered (and, for a tab, sorted by name) render the
/// item list; its count items, filtered, give the counts.
pub open spec fn scope_view(
    c: OutputConfig,
    scope: Scope,
    render_items: Seq<ScratchpadStatusItem>,
    count_items: Seq<ScratchpadStatusItem>,
) -> ScopeView {
    let shown = if scope == Scope::Tab {
        sort_by_name(filter_items(c, render_items))
    } else {
        filter_items(c, render_items)
    };
    let counted = filter_items(c, count_items);
    ScopeView {
        configured: counted.len(),
        rendered: count_where(counted, renders_in(c, scope)),
        live: count_where(counted, is_live()),
        visible: count_where(counted, in_state(ScratchpadDisplayState::Visible)),
        hidden: count_where(counted, in_state(ScratchpadDisplayState::Hidden)),
        closed: count_where(counted, in_state(ScratchpadDisplayState::Closed)),
        items_text: join(rendered_items(c, scope, shown), item_separator(c, scope)),
        focused: first_focused(shown),
    }
}

/// The directives of a scope, named with its prefix.
pub open spec fn scope_table(prefix: Seq<char>, v: ScopeView) -> Seq<(Seq<char>, Seq<char>)> {
    seq![
        ("{"@ + prefix + "_items}"@, v.items_text),
        ("{"@ + prefix + "_configured_count}"@, decimal(v.configured)),
        ("{"@ + prefix + "_rendered_count}"@, decimal(v.rendered)),
        ("{"@ + prefix + "_live_count}"@, decimal(v.live)),
        ("{"@ + prefix + "_visible_count}"@, decimal(v.visible)),
        ("{"@ + prefix + "_hidden_count}"@, decimal(v.hidden)),
        ("{"@ + prefix + "_closed_count}"@, decimal(v.closed)),
        ("{"@ + prefix + "_focused_name}"@, match v.focused { Some(i) => escape_value(i.name@), None => Seq::empty() }),
        ("{"@ + prefix + "_focused_title}"@, match v.focused { Some(i) => escape_value(i.title@), None => Seq::empty() }),
    ]
}

pub open spec fn minus(a: nat, b: nat) -> nat {
    if a >= b { (a - b) as nat } else { 0 }
}

/// The counts of the other tabs: global minus current, never below zero.
pub open spec fn other_table(current: ScopeView, global: ScopeView) -> Seq<(Seq<char>, Seq<char>)> {
    seq![
        ("{other_configured_count}"@, decimal(minus(global.configured, current.configured))),
        ("{other_rendered_count}"@, decimal(minus(global.rendered, current.rendered))),
        ("{other_live_count}"@, decimal(minus(global.live, current.live))),
        ("{other_visible_count}"@, decimal(minus(global.visible, current.visible))),
        ("{other_hidden_count}"@, decimal(minus(global.hidden, current.hidden))),
        ("{other_closed_count}"@, decimal(minus(global.closed, current.closed))),
    ]
}

pub open spec fn render_table(
    c: OutputConfig,
    snapshot: ScratchpadStatusSnapshot,
    tab_items: Option<Seq<ScratchpadStatusItem>>,
) -> Seq<(Seq<char>, Seq<char>)> {
    let global = scope_view(c, Scope::Global, snapshot.global_items@, snapshot.global_count_items@);
    if c.tab_scoped {
        let items = match tab_items { Some(v) => v, None => Seq::empty() };
        scope_table("tab"@, scope_view(c, Scope::Tab, items, items)) + scope_table("global"@, global)
    } else {
        let current = scope_view(c, Scope::Current, snapshot.current_items@, snapshot.current_items@);
        scope_table("current"@, current) + other_table(current, global) + scope_table("global"@, global)
    }
}

/// The payload sanitizer of the output's destination.
pub open spec fn sanitize_for(c: OutputConfig, s: Seq<char>) -> Seq<char> {
    if c.tab_scoped { sanitize_tab(s) } else { sanitize_pipe(s) }
}

/// A rendered output: the format with its directives substituted, or the
/// empty format when that comes out empty, sanitized for its destination.
pub open spec fn render_spec(
    c: OutputConfig,
    snapshot: ScratchpadStatusSnapshot,
    tab_items: Option<Seq<ScratchpadStatusItem>>,
) -> Seq<char> {
    let out = sanitize_for(c, substitute(c.format@, render_table(c, snapshot, tab_items)));
    if out.len() == 0 { sanitize_for(c, c.empty_format@) } else { out }
}


fn pick<'a>(a: &'a Option<String>, b: &'a Option<String>, c: &'a Option<String>, fallback: &'a String) -> (r: &'a str)
    ensures
        r@ == first_set(*a, *b, *c, *fallback),
{
    match a {
        Some(x) => x.as_str(),
        None => match b {
            Some(x) => x.as_str(),
            None => match c {
                Some(x) => x.as_str(),
                None => fallback.as_str(),
            },
        },
    }
}

impl OutputConfig {
    fn template(&self, scope: Scope, item: &ScratchpadStatusItem) -> (t: &str)
        ensures
            t@ == item_template(*self, scope, *item),
    {
        if scope == Scope::Tab && item.is_focused {
            if let Some(f) = &self.tab_item_focused_format {
                return f.as_str();
            }
        }
        if scope == Scope::Tab && item.is_mru {
            if let Some(f) = &self.tab_item_mru_format {
                return f.as_str();
            }
        }
        if scope == Scope::Current && item.is_focused {
            if let Some(f) = &self.current_item_focused_format {
                return f.as_str();
            }
        }
        if scope == Scope::Current && item.is_mru {
            if let Some(f) = &self.current_item_mru_format {
                return f.as_str();
            }
        }
        match (scope, item.state) {
            (Scope::Tab, ScratchpadDisplayState::Visible) =>
                pick(&self.tab_item_visible_format, &self.item_visible_format, &self.tab_item_format, &self.item_format),
            (Scope::Tab, ScratchpadDisplayState::Hidden) =>
                pick(&self.tab_item_hidden_format, &self.item_hidden_format, &self.tab_item_format, &self.item_format),
            (Scope::Tab, ScratchpadDisplayState::Closed) =>
                pick(&self.tab_item_closed_format, &self.item_closed_format, &self.tab_item_format, &self.item_format),
            (Scope::Current, ScratchpadDisplayState::Visible) =>
                pick(&self.current_item_visible_format, &self.item_visible_format, &self.current_item_format, &self.item_format),
            (Scope::Current, ScratchpadDisplayState::Hidden) =>
                pick(&self.current_item_hidden_format, &self.item_hidden_format, &self.current_item_format, &self.item_format),
            (Scope::Current, ScratchpadDisplayState::Closed) =>
                pick(&self.current_item_closed_format, &self.item_closed_format, &self.current_item_format, &self.item_format),
            (Scope::Global, ScratchpadDisplayState::Visible) =>
                pick(&self.global_item_visible_format, &self.item_visible_format, &self.global_item_format, &self.item_format),
            (Scope::Global, ScratchpadDisplayState::Hidden) =>
                pick(&self.global_item_hidden_format, &self.item_hidden_format, &self.global_item_format, &self.item_format),
            (Scope::Global, ScratchpadDisplayState::Closed) =>
                pick(&self.global_item_closed_format, &self.item_closed_format, &self.global_item_format, &self.item_format),
        }
    }

    pub(crate) fn separator(&self, scope: Scope) -> (t: &str)
        ensures
            t@ == item_separator(*self, scope),
    {
        match scope {
            Scope::Tab => match &self.tab_item_separator { Some(x) => x.as_str(), None => self.item_separator.as_str() },
            Scope::Current => match &self.current_item_separator { Some(x) => x.as_str(), None => self.item_separator.as_str() },
            Scope::Global => match &self.global_item_separator { Some(x) => x.as_str(), None => self.item_separator.as_str() },
        }
    }
}

fn pair(key: &str, value: Vec<char>) -> (r: (Vec<char>, Vec<char>))
    ensures
        r.0@ == key@,
        r.1@ == value@,
{
    (chars_of(key), value)
}

fn opt_number(n: Option<u64>) -> (r: Vec<char>)
    ensures
        r@ == opt_decimal(match n { Some(v) => Some(v as nat), None => None }),
{
    let mut r: Vec<char> = Vec::new();
    match n {
        Some(v) => push_decimal(&mut r, v),
        None => {},
    }
    r
}

fn number(n: u64) -> (r: Vec<char>)
    ensures
        r@ == decimal(n as nat),
{
    let mut r: Vec<char> = Vec::new();
    push_decimal(&mut r, n);
    r
}

fn item_table(item: &ScratchpadStatusItem) -> (r: Vec<(Vec<char>, Vec<char>)>)
    ensures
        table_view(r@) == item_values(*item),
{
    let mut r: Vec<(Vec<char>, Vec<char>)> = Vec::new();
    r.push(pair("{name}", escape_chars(&chars_of(item.name.as_str()))));
    r.push(pair("{title}", escape_chars(&chars_of(item.title.as_str()))));
    r.push(pair("{state}", chars_of(item.state.as_str())));
    let icon = match item.state {
        ScratchpadDisplayState::Visible => "●",
        ScratchpadDisplayState::Hidden => "○",
        ScratchpadDisplayState::Closed => "×",
    };
    r.push(pair("{icon}", chars_of(icon)));
    r.push(pair("{pane_id}", opt_number(match item.pane_id { Some(v) => Some(v as u64), None => None })));
    r.push(pair("{tab_id}", opt_number(match item.tab_id { Some(v) => Some(v as u64), None => None })));
    r.push(pair("{tab_position}", opt_number(match item.tab_position { Some(v) => Some(v as u64), None => None })));
    r.push(pair("{is_focused}", chars_of(if item.is_focused { "true" } else { "false" })));
    assert(table_view(r@) =~= item_values(*item));
    r
}

fn render_item_chars(c: &OutputConfig, scope: Scope, item: &ScratchpadStatusItem) -> (r: Vec<char>)
    ensures
        r@ == item_text(*c, scope, *item),
{
    let t = chars_of(c.template(scope, item));
    substitute_chars(&t, &item_table(item))
}

fn copy_item(item: &ScratchpadStatusItem) -> (r: ScratchpadStatusItem)
    ensures
        r == *item,
{
    ScratchpadStatusItem {
        name: item.name.clone(),
        title: item.title.clone(),
        state: item.state,
        pane_id: item.pane_id,
        tab_id: item.tab_id,
        tab_position: item.tab_position,
        is_focused: item.is_focused,
        is_mru: item.is_mru,
    }
}

pub(crate) fn has_name(v: &Vec<String>, name: &str) -> (b: bool)
    ensures
        b == names(v@).contains(name@),
{
    let mut i: usize = 0;
    while i < v.len()
        invariant
            i <= v@.len(),
            forall|j: int| 0 <= j < i ==> v@[j]@ != name@,
        decreases v.len() - i,
    {
        if crate::text::str_equals(v[i].as_str(), name) {
            assert(names(v@)[i as int] == name@);
            return true;
        }
        i = i + 1;
    }
    assert forall|j: int| 0 <= j < names(v@).len() implies names(v@)[j] != name@ by {
        assert(names(v@)[j] == v@[j]@);
    }
    false
}

fn passes(c: &OutputConfig, item: &ScratchpadStatusItem) -> (b: bool)
    ensures
        b == passes_filter(*c, *item),
{
    (c.selected.len() == 0 || has_name(&c.selected, item.name.as_str())) && !has_name(&c.exclude, item.name.as_str())
}

fn filtered(c: &OutputConfig, items: &[ScratchpadStatusItem]) -> (r: Vec<ScratchpadStatusItem>)
    ensures
        r@ == filter_items(*c, items@),
{
    let mut r: Vec<ScratchpadStatusItem> = Vec::new();
    let mut i: usize = 0;
    while i < items.len()
        invariant
            i <= items@.len(),
            r@ == filter_items(*c, items@.subrange(0, i as int)),
        decreases items.len() - i,
    {
        assert(items@.subrange(0, i + 1).drop_last() =~= items@.subrange(0, i as int));
        assert(items@.subrange(0, i + 1).last() == items@[i as int]);
        if passes(c, &items[i]) {
            r.push(copy_item(&items[i]));
        }
        i = i + 1;
    }
    assert(items@.subrange(0, items@.len() as int) =~= items@);
    r
}

pub fn name_less(a: &str, b: &str) -> (r: bool)
    ensures
        r == text_lt(a@, b@),
{
    let x = chars_of(a);
    let y = chars_of(b);
    let mut i: usize = 0;
    assert(x@.subrange(0, x@.len() as int) =~= x@);
    assert(y@.subrange(0, y@.len() as int) =~= y@);
    while i < x.len() && i < y.len()
        invariant
            i <= x@.len(),
            i <= y@.len(),
            x@ == a@,
            y@ == b@,
            text_lt(x@, y@) == text_lt(x@.subrange(i as int, x@.len() as int), y@.subrange(i as int, y@.len() as int)),
        decreases x.len() - i,
    {
        let ghost xs = x@.subrange(i as int, x@.len() as int);
        let ghost ys = y@.subrange(i as int, y@.len() as int);
        assert(xs[0] == x@[i as int]);
        assert(ys[0] == y@[i as int]);
        if x[i] != y[i] {
            assert(xs.len() > 0 && ys.len() > 0 && xs[0] != ys[0]);
            assert(text_lt(xs, ys) == ((xs[0] as u32) < (ys[0] as u32)));
            let cx: u32 = x[i] as u32;
            let cy: u32 = y[i] as u32;
            assert(cx == (xs[0] as u32));
            assert(cy == (ys[0] as u32));
            return cx < cy;
        }
        assert(xs.subrange(1, xs.len() as int) =~= x@.subrange(i + 1, x@.len() as int));
        assert(ys.subrange(1, ys.len() as int) =~= y@.subrange(i + 1, y@.len() as int));
        i = i + 1;
    }
    i == x.len() && i < y.len()
}

fn insert_sorted(v: &mut Vec<ScratchpadStatusItem>, x: ScratchpadStatusItem)
    ensures
        final(v)@ == insert_by_name(old(v)@, x),
    decreases old(v)@.len(),
{
    if v.len() == 0 {
        v.push(x);
        return;
    }
    let n = v.len();
    if name_less(x.name.as_str(), v[n - 1].name.as_str()) {
        let last = v.pop().unwrap();
        assert(v@ == old(v)@.drop_last());
        insert_sorted(v, x);
        v.push(last);
    } else {
        v.push(x);
    }
}

fn sorted_by_name(items: Vec<ScratchpadStatusItem>) -> (r: Vec<ScratchpadStatusItem>)
    ensures
        r@ == sort_by_name(items@),
{
    let mut r: Vec<ScratchpadStatusItem> = Vec::new();
    let mut rest = items;
    let ghost all = rest@;
    let mut k: usize = 0;
    let total = rest.len();
    while rest.len() > 0
        invariant
            k + rest@.len() == all.len(),
            all.len() == total,
            rest@ == all.subrange(k as int, all.len() as int),
            r@ == sort_by_name(all.subrange(0, k as int)),
        decreases rest.len(),
    {
        let x = rest.remove(0);
        assert(all.subrange(0, k + 1).drop_last() =~= all.subrange(0, k as int));
        assert(all.subrange(0, k + 1).last() == x);
        insert_sorted(&mut r, x);
        k = k + 1;
    }
    assert(all.subrange(0, k as int) =~= all);
    r
}

/// What a scope contributes, computed.
struct ScopeRender {
    configured: usize,
    rendered: usize,
    live: usize,
    visible: usize,
    hidden: usize,
    closed: usize,
    items_text: Vec<char>,
    focused: Option<ScratchpadStatusItem>,
}

spec fn scope_render_view(r: ScopeRender) -> ScopeView {
    ScopeView {
        configured: r.configured as nat,
        rendered: r.rendered as nat,
        live: r.live as nat,
        visible: r.visible as nat,
        hidden: r.hidden as nat,
        closed: r.closed as nat,
        items_text: r.items_text@,
        focused: r.focused,
    }
}

fn count_rendered(c: &OutputConfig, scope: Scope, items: &Vec<ScratchpadStatusItem>) -> (n: usize)
    ensures
        n as nat == count_where(items@, renders_in(*c, scope)),
{
    let ghost p = renders_in(*c, scope);
    let mut n: usize = 0;
    let mut i: usize = 0;
    while i < items.len()
        invariant
            i <= items@.len(),
            n <= i,
            p == renders_in(*c, scope),
            n as nat == count_where(items@.subrange(0, i as int), p),
        decreases items.len() - i,
    {
        assert(items@.subrange(0, i + 1).drop_last() =~= items@.subrange(0, i as int));
        assert(items@.subrange(0, i + 1).last() == items@[i as int]);
        if render_item_chars(c, scope, &items[i]).len() > 0 {
            n = n + 1;
        }
        i = i + 1;
    }
    assert(items@.subrange(0, items@.len() as int) =~= items@);
    n
}

fn count_live(items: &Vec<ScratchpadStatusItem>) -> (n: usize)
    ensures
        n as nat == count_where(items@, is_live()),
{
    let ghost p = is_live();
    let mut n: usize = 0;
    let mut i: usize = 0;
    while i < items.len()
        invariant
            i <= items@.len(),
            n <= i,
            p == is_live(),
            n as nat == count_where(items@.subrange(0, i as int), p),
        decreases items.len() - i,
    {
        assert(items@.subrange(0, i + 1).drop_last() =~= items@.subrange(0, i as int));
        assert(items@.subrange(0, i + 1).last() == items@[i as int]);
        if items[i].state != ScratchpadDisplayState::Closed {
            n = n + 1;
        }
        i = i + 1;
    }
    assert(items@.subrange(0, items@.len() as int) =~= items@);
    n
}

fn count_state(items: &Vec<ScratchpadStatusItem>, st: ScratchpadDisplayState) -> (n: usize)
    ensures
        n as nat == count_where(items@, in_state(st)),
{
    let ghost p = in_state(st);
    let mut n: usize = 0;
    let mut i: usize = 0;
    while i < items.len()
        invariant
            i <= items@.len(),
            n <= i,
            p == in_state(st),
            n as nat == count_where(items@.subrange(0, i as int), p),
        decreases items.len() - i,
    {
        assert(items@.subrange(0, i + 1).drop_last() =~= items@.subrange(0, i as int));
        assert(items@.subrange(0, i + 1).last() == items@[i as int]);
        if items[i].state == st {
            n = n + 1;
        }
        i = i + 1;
    }
    assert(items@.subrange(0, items@.len() as int) =~= items@);
    n
}

fn rendered_list(c: &OutputConfig, scope: Scope, items: &Vec<ScratchpadStatusItem>) -> (r: Vec<Vec<char>>)
    ensures
        r@.len() == rendered_items(*c, scope, items@).len(),
        forall|k: int| 0 <= k < r@.len() ==> #[trigger] r@[k]@ == rendered_items(*c, scope, items@)[k],
{
    let mut r: Vec<Vec<char>> = Vec::new();
    let mut i: usize = 0;
    while i < items.len()
        invariant
            i <= items@.len(),
            r@.len() == rendered_items(*c, scope, items@.subrange(0, i as int)).len(),
            forall|k: int| 0 <= k < r@.len() ==> #[trigger] r@[k]@ == rendered_items(*c, scope, items@.subrange(0, i as int))[k],
        decreases items.len() - i,
    {
        assert(items@.subrange(0, i + 1).drop_last() =~= items@.subrange(0, i as int));
        assert(items@.subrange(0, i + 1).last() == items@[i as int]);
        let text = render_item_chars(c, scope, &items[i]);
        if text.len() > 0 {
            r.push(text);
        }
        i = i + 1;
    }
    assert(items@.subrange(0, items@.len() as int) =~= items@);
    r
}

fn join_parts(parts: &Vec<Vec<char>>, sep: &str, ghost_parts: Ghost<Seq<Seq<char>>>) -> (r: Vec<char>)
    requires
        parts@.len() == ghost_parts@.len(),
        forall|k: int| 0 <= k < parts@.len() ==> #[trigger] parts@[k]@ == ghost_parts@[k],
    ensures
        r@ == join(ghost_parts@, sep@),
{
    let ghost ps = ghost_parts@;
    let mut r: Vec<char> = Vec::new();
    let mut i: usize = 0;
    while i < parts.len()
        invariant
            i <= parts@.len(),
            parts@.len() == ps.len(),
            forall|k: int| 0 <= k < parts@.len() ==> #[trigger] parts@[k]@ == ps[k],
            r@ == join(ps.subrange(0, i as int), sep@),
        decreases parts.len() - i,
    {
        assert(ps.subrange(0, i + 1).drop_last() =~= ps.subrange(0, i as int));
        assert(ps.subrange(0, i + 1).last() == parts@[i as int]@);
        if i > 0 {
            push_str(&mut r, sep);
        }
        crate::text::push_chars(&mut r, parts[i].as_slice());
        if i == 0 {
            assert(ps.subrange(0, 1)[0] == parts@[0]@);
            assert(r@ =~= join(ps.subrange(0, 1), sep@));
        }
        i = i + 1;
    }
    assert(ps.subrange(0, ps.len() as int) =~= ps);
    r
}

fn first_focused_item(items: &Vec<ScratchpadStatusItem>) -> (r: Option<ScratchpadStatusItem>)
    ensures
        r == first_focused(items@),
{
    let mut i: usize = 0;
    assert(items@.subrange(0, items@.len() as int) =~= items@);
    while i < items.len()
        invariant
            i <= items@.len(),
            first_focused(items@) == first_focused(items@.subrange(i as int, items@.len() as int)),
        decreases items.len() - i,
    {
        let ghost rest = items@.subrange(i as int, items@.len() as int);
        assert(rest[0] == items@[i as int]);
        if items[i].is_focused {
            return Some(copy_item(&items[i]));
        }
        assert(rest.subrange(1, rest.len() as int) =~= items@.subrange(i + 1, items@.len() as int));
        i = i + 1;
    }
    None
}

fn render_scope(c: &OutputConfig, scope: Scope, render_items: &[ScratchpadStatusItem], count_items: &[ScratchpadStatusItem]) -> (r: ScopeRender)
    ensures
        scope_render_view(r) == scope_view(*c, scope, render_items@, count_items@),
{
    let mut shown = filtered(c, render_items);
    if scope == Scope::Tab {
        shown = sorted_by_name(shown);
    }
    let counted = filtered(c, count_items);
    let parts = rendered_list(c, scope, &shown);
    let items_text = join_parts(&parts, c.separator(scope), Ghost(rendered_items(*c, scope, shown@)));
    let r = ScopeRender {
        configured: counted.len(),
        rendered: count_rendered(c, scope, &counted),
        live: count_live(&counted),
        visible: count_state(&counted, ScratchpadDisplayState::Visible),
        hidden: count_state(&counted, ScratchpadDisplayState::Hidden),
        closed: count_state(&counted, ScratchpadDisplayState::Closed),
        items_text,
        focused: first_focused_item(&shown),
    };
    r
}

fn directive_key(prefix: &str, suffix: &str) -> (r: Vec<char>)
    ensures
        r@ == "{"@ + prefix@ + suffix@,
{
    let mut r: Vec<char> = Vec::new();
    push_str(&mut r, "{");
    push_str(&mut r, prefix);
    push_str(&mut r, suffix);
    r
}

fn push_entry(out: &mut Vec<(Vec<char>, Vec<char>)>, key: Vec<char>, value: Vec<char>)
    ensures
        table_view(final(out)@) == table_view(old(out)@).push((key@, value@)),
{
    out.push((key, value));
    assert(table_view(out@) =~= table_view(old(out)@).push((key@, value@)));
}

fn focused_text(f: &Option<ScratchpadStatusItem>, title: bool) -> (r: Vec<char>)
    ensures
        r@ == match *f { Some(i) => escape_value(if title { i.title@ } else { i.name@ }), None => Seq::empty() },
{
    match f {
        Some(i) => escape_chars(&chars_of(if title { i.title.as_str() } else { i.name.as_str() })),
        None => Vec::new(),
    }
}

fn scope_entries(out: &mut Vec<(Vec<char>, Vec<char>)>, prefix: &str, r: &ScopeRender)
    ensures
        table_view(final(out)@) == table_view(old(out)@) + scope_table(prefix@, scope_render_view(*r)),
{
    push_entry(out, directive_key(prefix, "_items}"), r.items_text.clone());
    push_entry(out, directive_key(prefix, "_configured_count}"), number(r.configured as u64));
    push_entry(out, directive_key(prefix, "_rendered_count}"), number(r.rendered as u64));
    push_entry(out, directive_key(prefix, "_live_count}"), number(r.live as u64));
    push_entry(out, directive_key(prefix, "_visible_count}"), number(r.visible as u64));
    push_entry(out, directive_key(prefix, "_hidden_count}"), number(r.hidden as u64));
    push_entry(out, directive_key(prefix, "_closed_count}"), number(r.closed as u64));
    push_entry(out, directive_key(prefix, "_focused_name}"), focused_text(&r.focused, false));
    push_entry(out, directive_key(prefix, "_focused_title}"), focused_text(&r.focused, true));
    assert(table_view(out@) =~= table_view(old(out)@) + scope_table(prefix@, scope_render_view(*r)));
}

fn other_entries(out: &mut Vec<(Vec<char>, Vec<char>)>, current: &ScopeRender, global: &ScopeRender)
    ensures
        table_view(final(out)@) == table_view(old(out)@) + other_table(scope_render_view(*current), scope_render_view(*global)),
{
    push_entry(out, chars_of("{other_configured_count}"), number(global.configured.saturating_sub(current.configured) as u64));
    push_entry(out, chars_of("{other_rendered_count}"), number(global.rendered.saturating_sub(current.rendered) as u64));
    push_entry(out, chars_of("{other_live_count}"), number(global.live.saturating_sub(current.live) as u64));
    push_entry(out, chars_of("{other_visible_count}"), number(global.visible.saturating_sub(current.visible) as u64));
    push_entry(out, chars_of("{other_hidden_count}"), number(global.hidden.saturating_sub(current.hidden) as u64));
    push_entry(out, chars_of("{other_closed_count}"), number(global.closed.saturating_sub(current.closed) as u64));
    assert(table_view(out@) =~= table_view(old(out)@) + other_table(scope_render_view(*current), scope_render_view(*global)));
}

pub(crate) fn sanitize_output(c: &OutputConfig, s: &Vec<char>) -> (r: Vec<char>)
    ensures
        r@ == sanitize_for(*c, s@),
{
    if c.tab_scoped { sanitize_tab_chars(s) } else { sanitize_pipe_chars(s) }
}

/// Render a global output, or a tab output from the items of its tab;
/// missing tab items render as none, never as the current tab's.
pub fn render(config: &OutputConfig, snapshot: &ScratchpadStatusSnapshot, tab_items: Option<&[ScratchpadStatusItem]>) -> (r: String)
    ensures
        r@ == render_spec(*config, *snapshot, match tab_items { Some(v) => Some(v@), None => None }),
{
    let global = render_scope(config, Scope::Global, snapshot.global_items.as_slice(), snapshot.global_count_items.as_slice());
    let mut table: Vec<(Vec<char>, Vec<char>)> = Vec::new();
    assert(table_view(table@) =~= Seq::<(Seq<char>, Seq<char>)>::empty());
    if config.tab_scoped {
        let no_items: Vec<ScratchpadStatusItem> = Vec::new();
        let items: &[ScratchpadStatusItem] = match tab_items { Some(v) => v, None => no_items.as_slice() };
        assert(items@ == match tab_items { Some(v) => v@, None => Seq::<ScratchpadStatusItem>::empty() });
        let tab = render_scope(config, Scope::Tab, items, items);
        scope_entries(&mut table, "tab", &tab);
    } else {
        let current = render_scope(config, Scope::Current, snapshot.current_items.as_slice(), snapshot.current_items.as_slice());
        scope_entries(&mut table, "current", &current);
        other_entries(&mut table, &current, &global);
    }
    scope_entries(&mut table, "global", &global);
    let format = chars_of(config.format.as_str());
    let substituted = substitute_chars(&format, &table);
    let out = sanitize_output(config, &substituted);
    if out.len() == 0 {
        let empty = chars_of(config.empty_format.as_str());
        string_of(&sanitize_output(config, &empty))
    } else {
        string_of(&out)
    }
}

/// Whether a global pipe publishes when it renders empty: pane-status outputs
/// always do (to clear), scratchpad outputs only with a non-empty empty format.
pub fn should_publish_empty(config: &OutputConfig) -> (b: bool)
    ensures
        b == (config.source == OutputSource::PaneStatus || sanitize_pipe(config.empty_format@).len() > 0),
{
    if config.source == OutputSource::PaneStatus {
        return true;
    }
    sanitize_pipe_chars(&chars_of(config.empty_format.as_str())).len() > 0
}

/// The zjstatus pipe command for a global output.
pub fn zjstatus_payload(pipe: &str, rendered_output: &str) -> (r: String)
    ensures
        r@ == "zjstatus::pipe::pipe_"@ + pipe@ + "::"@ + rendered_output@,
{
    let mut m: Vec<char> = Vec::new();
    push_str(&mut m, "zjstatus::pipe::pipe_");
    push_str(&mut m, pipe);
    push_str(&mut m, "::");
    push_str(&mut m, rendered_output);
    string_of(&m)
}

/// The zjstatus command for a tab field; separators inside the output are
/// kept, line breaks become spaces, and an empty output clears the field.
pub fn zjstatus_tab_payload(tab_id: usize, field: &str, rendered_output: &str) -> (r: String)
    ensures
        r@ == "zjstatus::tab_pipe::"@ + decimal(tab_id as nat) + "::"@ + field@ + "::"@ + sanitize_tab(rendered_output@),
{
    let mut m: Vec<char> = Vec::new();
    push_str(&mut m, "zjstatus::tab_pipe::");
    push_decimal(&mut m, tab_id as u64);
    push_str(&mut m, "::");
    push_str(&mut m, field);
    push_str(&mut m, "::");
    let t = sanitize_tab_chars(&chars_of(rendered_output));
    crate::text::push_chars(&mut m, t.as_slice());
    string_of(&m)
}

/// Render one item with its template for a scope.
pub fn render_item(config: &OutputConfig, scope: Scope, item: &ScratchpadStatusItem) -> (r: String)
    ensures
        r@ == item_text(*config, scope, *item),
{
    string_of(&render_item_chars(config, scope, item))
}
} // verus!
