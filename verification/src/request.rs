//! Routing of pipe messages: which request a payload asks the plugin for, and
//! the small decisions the plugin makes around requests (heartbeats, the
//! targeted tab, tabs that vanished from the manifest).

use vstd::prelude::*;
use crate::client::{names_suffix, scratchpad_list_text, scratchpad_request_text, typed_pane_text, ScratchpadRequest};
use crate::config::{is_whitespace, whitespace};
use crate::events::TypedPaneId;
use crate::focus::{focus_tab_target_spec, parse_focus_tab_target, FocusTabTarget};
use crate::message::{message_args, message_parts, parse_message, plugin_name, ParseError};
use crate::scratchpad::config::{
    action_matches, parse_scratchpad_action, scratchpad_action_spec, valid_scratchpad_name, ScratchpadAction,
};
use crate::scratchpad::list::ScratchpadListQuery;
use crate::stable_tabs::aget;
use crate::stream::SubscribeMode;
use crate::text::{
    chars_of, decimal, int_error_text, is_prefix, join_sep, lemma_decimal_no_colon, lemma_join_push,
    lemma_parse_decimal, lemma_split_join, lemma_split_none, lemma_split_sep, no_colon, parse_unsigned,
    parse_unsigned_chars, push_decimal, push_str, slice_chars, split_on, str_equals, string_of, to_string,
};

verus! {

// ---------------------------------------------------------------------------
// Pane IDs

/// What parsing a pane ID gives: `terminal_N`, `plugin_N`, or a bare `N` for a
/// terminal pane, each `N` read as a `u32`.
pub open spec fn pane_id_spec(s: Seq<char>) -> Result<TypedPaneId, crate::text::IntErrorKind> {
    if is_prefix("terminal_"@, s) {
        match parse_unsigned(s.subrange(9, s.len() as int), u32::MAX as nat) {
            Ok(v) => Ok(TypedPaneId::Terminal(v as u32)),
            Err(k) => Err(k),
        }
    } else if is_prefix("plugin_"@, s) {
        match parse_unsigned(s.subrange(7, s.len() as int), u32::MAX as nat) {
            Ok(v) => Ok(TypedPaneId::Plugin(v as u32)),
            Err(k) => Err(k),
        }
    } else {
        match parse_unsigned(s, u32::MAX as nat) {
            Ok(v) => Ok(TypedPaneId::Terminal(v as u32)),
            Err(k) => Err(k),
        }
    }
}

/// Parses a pane ID with the host's `PaneId::from_str`, which strips a
/// `terminal_` or `plugin_` prefix (none means a terminal pane) and reads the
/// rest with `u32::from_str_radix(_, 10)`; its error is that integer error,
/// rendered with `to_string`.
#[verifier::external_body]
fn host_pane_id(s: &str) -> (r: Result<TypedPaneId, String>)
    ensures
        match r {
            Ok(id) => pane_id_spec(s@) == Ok::<TypedPaneId, crate::text::IntErrorKind>(id),
            Err(e) => pane_id_spec(s@) is Err && e@ == int_error_text(pane_id_spec(s@)->Err_0),
        },
{
    match s.parse::<zellij_tile::prelude::PaneId>() {
        Ok(zellij_tile::prelude::PaneId::Terminal(id)) => Ok(TypedPaneId::Terminal(id)),
        Ok(zellij_tile::prelude::PaneId::Plugin(id)) => Ok(TypedPaneId::Plugin(id)),
        Err(e) => Err(e.to_string()),
    }
}

// ---------------------------------------------------------------------------
// Requests

/// What the plugin is asked to do.
pub enum PluginRequest {
    /// Focus a pane (through the scratchpad manager when it owns the pane).
    FocusPane(TypedPaneId),
    /// Focus a tab.
    FocusTab(FocusTabTarget),
    /// Answer on the CLI pipe with the scratchpad list.
    ScratchpadList { pipe: String, query: ScratchpadListQuery },
    /// A scratchpad action.
    Scratchpad(ScratchpadAction),
    /// Register the CLI pipe as a pending subscriber and acknowledge it.
    Subscribe { pipe: String, mode: SubscribeMode },
    /// Drop a subscriber.
    Unsubscribe(String),
    /// Answer on the CLI pipe with the session tree.
    Tree { pipe: String },
}

/// A list query as plain values: names, tab ID, full.
pub type QueryView = (Seq<Seq<char>>, Option<nat>, bool);

/// The options of `scratchpad::list::...`, read left to right: `full`,
/// `tab=<id>` (an unreadable ID clears the filter), else a name.
pub open spec fn list_query_spec(args: Seq<Seq<char>>) -> QueryView
    decreases args.len(),
{
    if args.len() == 0 {
        (Seq::empty(), None, false)
    } else {
        let (names, tab, full) = list_query_spec(args.drop_last());
        let a = args.last();
        if a == "full"@ {
            (names, tab, true)
        } else if is_prefix("tab="@, a) {
            match parse_unsigned(a.subrange(4, a.len() as int), usize::MAX as nat) {
                Ok(v) => (names, Some(v), full),
                Err(_) => (names, None, full),
            }
        } else {
            (names.push(a), tab, full)
        }
    }
}

pub open spec fn query_view(q: ScratchpadListQuery) -> QueryView {
    (
        q.names@.map_values(|n: String| n@),
        match q.tab_id { Some(t) => Some(t as nat), None => None },
        q.full,
    )
}

/// Whether an error carries the given argument text.
pub open spec fn invalid_args(r: Result<PluginRequest, ParseError>, text: Seq<char>) -> bool {
    r matches Err(ParseError::InvalidArgs(m)) && m@ == text
}

/// What a well-addressed message with this event and these arguments asks
/// for, given the CLI pipe it came on, if any.
pub open spec fn request_matches(
    r: Result<PluginRequest, ParseError>,
    event: Seq<char>,
    args: Seq<Seq<char>>,
    cli_pipe: Option<Seq<char>>,
) -> bool {
    if event == "focus-pane"@ {
        if args.len() != 1 {
            invalid_args(r, "focus-pane requires 1 argument, got "@ + decimal(args.len()))
        } else {
            match pane_id_spec(args[0]) {
                Ok(id) => r matches Ok(PluginRequest::FocusPane(p)) && p == id,
                Err(k) => invalid_args(r, "Invalid pane ID: "@ + int_error_text(k)),
            }
        }
    } else if event == "focus-tab"@ {
        match focus_tab_target_spec(args) {
            Ok(FocusTabTarget::Position(p)) => r matches Ok(PluginRequest::FocusTab(FocusTabTarget::Position(q))) && p == q,
            Ok(FocusTabTarget::TabId(p)) => r matches Ok(PluginRequest::FocusTab(FocusTabTarget::TabId(q))) && p == q,
            Err(m) => invalid_args(r, m),
        }
    } else if event == "scratchpad"@ && args.len() > 0 && args[0] == "list"@ {
        match cli_pipe {
            None => invalid_args(r, "scratchpad list only works from CLI pipes"@),
            Some(pipe) => r matches Ok(PluginRequest::ScratchpadList { pipe: p, query: q })
                && p@ == pipe && query_view(q) == list_query_spec(args.drop_first()),
        }
    } else if event == "scratchpad"@ {
        match scratchpad_action_spec(args) {
            Ok((verb, name)) => r matches Ok(PluginRequest::Scratchpad(a)) && action_matches(a, verb, name),
            Err(Ok(text)) => invalid_args(r, text),
            Err(Err(name)) => r matches Err(ParseError::InvalidScratchpadName(m)) && m@ == name,
        }
    } else if event == "subscribe"@ {
        match cli_pipe {
            None => invalid_args(r, "subscribe only works from CLI pipes"@),
            Some(pipe) => r matches Ok(PluginRequest::Subscribe { pipe: p, mode }) && p@ == pipe
                && mode == if args.len() > 0 && args[0] == "full"@ { SubscribeMode::Full } else { SubscribeMode::Compact },
        }
    } else if event == "unsubscribe"@ {
        if args.len() == 0 {
            invalid_args(r, "unsubscribe requires pipe_id argument"@)
        } else {
            r matches Ok(PluginRequest::Unsubscribe(p)) && p@ == args[0]
        }
    } else if event == "tree"@ {
        match cli_pipe {
            None => invalid_args(r, "tree only works from CLI pipes"@),
            Some(pipe) => r matches Ok(PluginRequest::Tree { pipe: p }) && p@ == pipe,
        }
    } else {
        r matches Err(ParseError::UnknownEvent(e)) && e@ == event
    }
}

fn arg_strs(args: &Vec<String>) -> (v: Vec<&str>)
    ensures
        v@.map_values(|a: &str| a@) == args@.map_values(|a: String| a@),
{
    let mut v: Vec<&str> = Vec::new();
    let mut i: usize = 0;
    while i < args.len()
        invariant
            i <= args@.len(),
            v@.len() == i,
            forall|j: int| 0 <= j < i ==> #[trigger] v@[j]@ == args@[j]@,
        decreases args.len() - i,
    {
        v.push(args[i].as_str());
        i = i + 1;
    }
    assert(v@.map_values(|a: &str| a@) =~= args@.map_values(|a: String| a@));
    v
}

fn invalid(text: &str) -> (e: ParseError)
    ensures
        e matches ParseError::InvalidArgs(m) && m@ == text@,
{
    ParseError::InvalidArgs(to_string(text))
}

fn parse_list_query(args: &Vec<String>) -> (q: ScratchpadListQuery)
    requires
        args@.len() > 0,
    ensures
        query_view(q) == list_query_spec(args@.map_values(|a: String| a@).drop_first()),
{
    let ghost all = args@.map_values(|a: String| a@);
    let ghost rest = all.drop_first();
    let mut names: Vec<String> = Vec::new();
    let mut tab_id: Option<u64> = None;
    let mut full = false;
    proof {
        reveal_strlit("full");
        reveal_strlit("tab=");
    }
    let mut i: usize = 1;
    while i < args.len()
        invariant
            1 <= i <= args@.len(),
            all == args@.map_values(|a: String| a@),
            rest == all.drop_first(),
            query_view(ScratchpadListQuery { names, tab_id, full }) == list_query_spec(rest.take(i - 1)),
        decreases args.len() - i,
    {
        proof {
            reveal_strlit("full");
            reveal_strlit("tab=");
        }
        assert(rest.take(i as int).drop_last() =~= rest.take(i - 1));
        assert(rest.take(i as int).last() == args@[i as int]@);
        let a = args[i].as_str();
        if str_equals(a, "full") {
            full = true;
        } else {
            let cs = chars_of(a);
            if cs.len() >= 4 && cs[0] == 't' && cs[1] == 'a' && cs[2] == 'b' && cs[3] == '=' {
                assert(cs@.subrange(0, 4) =~= "tab="@);
                let digits = slice_chars(&cs, 4, cs.len());
                tab_id = match parse_unsigned_chars(&digits, usize::MAX as u64) {
                    Ok(v) => Some(v),
                    Err(_) => None,
                };
            } else {
                assert(!is_prefix("tab="@, a@)) by {
                    if cs@.len() >= 4 {
                        if cs@.subrange(0, 4) == "tab="@ {
                            assert(cs@.subrange(0, 4)[0] == 't');
                            assert(cs@.subrange(0, 4)[1] == 'a');
                            assert(cs@.subrange(0, 4)[2] == 'b');
                            assert(cs@.subrange(0, 4)[3] == '=');
                        }
                    }
                }
                let ghost old_names = names@;
                names.push(args[i].clone());
                assert(names@.map_values(|n: String| n@) =~= old_names.map_values(|n: String| n@).push(a@));
            }
        }
        i = i + 1;
    }
    assert(rest.take(args@.len() - 1) =~= rest);
    ScratchpadListQuery { names, tab_id, full }
}

/// Parse a pipe payload into the request it makes. `cli_pipe` is the ID of
/// the CLI pipe the message came on, if it came on one: listing, subscribing
/// and the tree answer on that pipe and need it.
pub fn parse_request(payload: &str, cli_pipe: Option<&str>) -> (r: Result<PluginRequest, ParseError>)
    ensures
        match message_parts(payload@) {
            None => r matches Err(ParseError::InvalidFormat),
            Some((plugin, event, args)) => if plugin != plugin_name() {
                r matches Err(ParseError::WrongPlugin)
            } else {
                request_matches(r, event, message_args(args), match cli_pipe { Some(p) => Some(p@), None => None })
            },
        },
{
    let message = match parse_message(payload) {
        Ok(m) => m,
        Err(e) => return Err(e),
    };
    let ghost args = message.args@.map_values(|a: String| a@);
    proof {
        match message_parts(payload@) {
            Some((plugin, event, a)) => {
                assert(args =~= message_args(a));
            },
            None => {},
        }
        reveal_strlit("focus-pane");
        reveal_strlit("focus-tab");
        reveal_strlit("scratchpad");
        reveal_strlit("list");
        reveal_strlit("subscribe");
        reveal_strlit("unsubscribe");
        reveal_strlit("tree");
        reveal_strlit("full");
    }
    let event = message.event.as_str();
    let n = message.args.len();
    if str_equals(event, "focus-pane") {
        if n != 1 {
            let mut out: Vec<char> = Vec::new();
            push_str(&mut out, "focus-pane requires 1 argument, got ");
            push_decimal(&mut out, n as u64);
            return Err(ParseError::InvalidArgs(string_of(&out)));
        }
        assert(args[0] == message.args@[0]@);
        return match host_pane_id(message.args[0].as_str()) {
            Ok(id) => Ok(PluginRequest::FocusPane(id)),
            Err(e) => {
                let mut out: Vec<char> = Vec::new();
                push_str(&mut out, "Invalid pane ID: ");
                push_str(&mut out, e.as_str());
                Err(ParseError::InvalidArgs(string_of(&out)))
            },
        };
    }
    if str_equals(event, "focus-tab") {
        let strs = arg_strs(&message.args);
        return match parse_focus_tab_target(&strs) {
            Ok(t) => Ok(PluginRequest::FocusTab(t)),
            Err(e) => Err(e),
        };
    }
    if str_equals(event, "scratchpad") {
        if n > 0 && str_equals(message.args[0].as_str(), "list") {
            assert(args[0] == message.args@[0]@);
            return match cli_pipe {
                None => Err(invalid("scratchpad list only works from CLI pipes")),
                Some(pipe) => {
                    let query = parse_list_query(&message.args);
                    Ok(PluginRequest::ScratchpadList { pipe: to_string(pipe), query })
                },
            };
        }
        proof {
            if n > 0 { assert(args[0] == message.args@[0]@); }
        }
        let strs = arg_strs(&message.args);
        return match parse_scratchpad_action(&strs) {
            Ok(a) => Ok(PluginRequest::Scratchpad(a)),
            Err(e) => Err(e),
        };
    }
    if str_equals(event, "subscribe") {
        return match cli_pipe {
            None => Err(invalid("subscribe only works from CLI pipes")),
            Some(pipe) => {
                let full = n > 0 && str_equals(message.args[0].as_str(), "full");
                proof { if n > 0 { assert(args[0] == message.args@[0]@); } }
                let mode = if full { SubscribeMode::Full } else { SubscribeMode::Compact };
                Ok(PluginRequest::Subscribe { pipe: to_string(pipe), mode })
            },
        };
    }
    if str_equals(event, "unsubscribe") {
        if n == 0 {
            return Err(invalid("unsubscribe requires pipe_id argument"));
        }
        assert(args[0] == message.args@[0]@);
        return Ok(PluginRequest::Unsubscribe(message.args[0].clone()));
    }
    if str_equals(event, "tree") {
        return match cli_pipe {
            None => Err(invalid("tree only works from CLI pipes")),
            Some(pipe) => Ok(PluginRequest::Tree { pipe: to_string(pipe) }),
        };
    }
    Err(ParseError::UnknownEvent(message.event.clone()))
}


// ---------------------------------------------------------------------------
// Decisions around requests

/// Whether a payload is a heartbeat: empty or only whitespace.
pub open spec fn is_blank(s: Seq<char>) -> bool {
    forall|i: int| 0 <= i < s.len() ==> is_whitespace(#[trigger] s[i])
}

/// Whether a payload is a CLI subscriber's heartbeat rather than a message.
pub fn is_heartbeat(payload: &str) -> (b: bool)
    ensures
        b == is_blank(payload@),
{
    let cs = chars_of(payload);
    let mut i: usize = 0;
    while i < cs.len()
        invariant
            i <= cs@.len(),
            cs@ == payload@,
            forall|j: int| 0 <= j < i ==> is_whitespace(#[trigger] cs@[j]),
        decreases cs.len() - i,
    {
        if !whitespace(cs[i]) {
            return false;
        }
        i = i + 1;
    }
    true
}

/// Heartbeat ticks between prunings, and the number of ticks a subscriber
/// may stay silent.
pub const HEARTBEAT_PRUNE_TICKS: u64 = 20;

/// Whether stale subscribers are pruned at this heartbeat count.
pub fn prune_due(heartbeat_counter: u64) -> (b: bool)
    ensures
        b == (heartbeat_counter % HEARTBEAT_PRUNE_TICKS == 0),
{
    heartbeat_counter % HEARTBEAT_PRUNE_TICKS == 0
}

/// Pairs with their two sides swapped.
pub open spec fn swapped(s: Seq<(usize, usize)>) -> Seq<(usize, usize)> {
    s.map_values(|e: (usize, usize)| (e.1, e.0))
}

/// The value of the first pair with this key.
fn first_value(pairs: &[(usize, usize)], key: usize) -> (r: Option<usize>)
    ensures
        r == aget(pairs@, key),
{
    proof { crate::stable_tabs::lemma_aindex(pairs@, key); }
    let mut i: usize = 0;
    while i < pairs.len()
        invariant
            i <= pairs@.len(),
            forall|j: int| 0 <= j < i ==> #[trigger] pairs@[j].0 != key,
            match crate::stable_tabs::aindex(pairs@, key) {
                Some(k) => 0 <= k < pairs@.len() && pairs@[k].0 == key && forall|j: int| 0 <= j < k ==> #[trigger] pairs@[j].0 != key,
                None => forall|j: int| 0 <= j < pairs@.len() ==> #[trigger] pairs@[j].0 != key,
            },
        decreases pairs.len() - i,
    {
        if pairs[i].0 == key {
            proof {
                match crate::stable_tabs::aindex(pairs@, key) {
                    Some(k) => {
                        if k < i { assert(pairs@[k].0 != key); }
                        if k > i { assert(pairs@[i as int].0 != key); }
                    },
                    None => { assert(pairs@[i as int].0 != key); },
                }
            }
            return Some(pairs[i].1);
        }
        i = i + 1;
    }
    None
}

fn swap_pairs(pairs: &[(usize, usize)]) -> (r: Vec<(usize, usize)>)
    ensures
        r@ == swapped(pairs@),
{
    let mut r: Vec<(usize, usize)> = Vec::new();
    let mut i: usize = 0;
    while i < pairs.len()
        invariant
            i <= pairs@.len(),
            r@ == swapped(pairs@.take(i as int)),
        decreases pairs.len() - i,
    {
        r.push((pairs[i].1, pairs[i].0));
        assert(swapped(pairs@.take(i + 1)) =~= swapped(pairs@.take(i as int)).push((pairs@[i as int].1, pairs@[i as int].0)));
        i = i + 1;
    }
    assert(pairs@.take(pairs@.len() as int) =~= pairs@);
    r
}

/// The tab a focus-tab request goes to, as the host's tab index: a position
/// as given, or the position of the tab with that native ID. `tabs` holds
/// `(tab ID, position)` for the known tabs.
pub open spec fn focus_tab_index_spec(target: FocusTabTarget, tabs: Seq<(usize, usize)>) -> Result<u32, Seq<char>> {
    match target {
        FocusTabTarget::Position(p) => Ok(p),
        FocusTabTarget::TabId(id) => match aget(tabs, id) {
            None => Err("No tab found for tab ID "@ + decimal(id as nat)),
            Some(pos) => if pos <= u32::MAX {
                Ok(pos as u32)
            } else {
                Err("Tab position "@ + decimal(pos as nat) + " does not fit in u32"@)
            },
        },
    }
}

/// Resolve a focus-tab target to the host's tab index.
pub fn focus_tab_index(target: FocusTabTarget, tabs: &[(usize, usize)]) -> (r: Result<u32, ParseError>)
    ensures
        match focus_tab_index_spec(target, tabs@) {
            Ok(p) => r == Ok::<u32, ParseError>(p),
            Err(m) => r matches Err(ParseError::InvalidArgs(e)) && e@ == m,
        },
{
    match target {
        FocusTabTarget::Position(p) => Ok(p),
        FocusTabTarget::TabId(id) => match first_value(tabs, id) {
            None => {
                let mut out: Vec<char> = Vec::new();
                push_str(&mut out, "No tab found for tab ID ");
                push_decimal(&mut out, id as u64);
                Err(ParseError::InvalidArgs(string_of(&out)))
            },
            Some(pos) => if pos <= u32::MAX as usize {
                Ok(pos as u32)
            } else {
                let mut out: Vec<char> = Vec::new();
                push_str(&mut out, "Tab position ");
                push_decimal(&mut out, pos as u64);
                push_str(&mut out, " does not fit in u32");
                Err(ParseError::InvalidArgs(string_of(&out)))
            },
        },
    }
}

/// The tab a scratchpad decision is about: the requested tab, else the tab
/// at the current position; and that tab's position, else the current one.
/// `tabs` holds `(tab ID, position)` for the known tabs.
pub open spec fn context_tab_spec(target: Option<usize>, current_position: usize, tabs: Seq<(usize, usize)>) -> (Option<usize>, usize) {
    let id = match target {
        Some(t) => Some(t),
        None => aget(swapped(tabs), current_position),
    };
    let position = match id {
        Some(t) => match aget(tabs, t) {
            Some(p) => p,
            None => current_position,
        },
        None => current_position,
    };
    (id, position)
}

/// Resolve the tab ID and position a scratchpad decision is about.
pub fn context_tab(target: Option<usize>, current_position: usize, tabs: &[(usize, usize)]) -> (r: (Option<usize>, usize))
    ensures
        r == context_tab_spec(target, current_position, tabs@),
{
    let id = match target {
        Some(t) => Some(t),
        None => {
            let by_position = swap_pairs(tabs);
            first_value(&by_position, current_position)
        },
    };
    let position = match id {
        Some(t) => match first_value(tabs, t) {
            Some(p) => p,
            None => current_position,
        },
        None => current_position,
    };
    (id, position)
}

/// The known tabs whose position no longer appears in the pane manifest, in
/// the order of `tabs` (`(tab ID, position)` pairs).
pub open spec fn orphaned_tabs_spec(tabs: Seq<(usize, usize)>, positions: Seq<usize>) -> Seq<usize>
    decreases tabs.len(),
{
    if tabs.len() == 0 {
        Seq::empty()
    } else {
        let rest = orphaned_tabs_spec(tabs.drop_last(), positions);
        if positions.contains(tabs.last().1) { rest } else { rest.push(tabs.last().0) }
    }
}

fn contains_usize(v: &[usize], x: usize) -> (b: bool)
    ensures
        b == v@.contains(x),
{
    let mut i: usize = 0;
    while i < v.len()
        invariant
            i <= v@.len(),
            forall|j: int| 0 <= j < i ==> v@[j] != x,
        decreases v.len() - i,
    {
        if v[i] == x {
            assert(v@[i as int] == x);
            return true;
        }
        i = i + 1;
    }
    false
}

/// The IDs of the known tabs that vanished from the pane manifest, given the
/// manifest's tab positions.
pub fn orphaned_tab_ids(tabs: &[(usize, usize)], manifest_positions: &[usize]) -> (r: Vec<usize>)
    ensures
        r@ == orphaned_tabs_spec(tabs@, manifest_positions@),
{
    let mut r: Vec<usize> = Vec::new();
    let mut i: usize = 0;
    while i < tabs.len()
        invariant
            i <= tabs@.len(),
            r@ == orphaned_tabs_spec(tabs@.take(i as int), manifest_positions@),
        decreases tabs.len() - i,
    {
        assert(tabs@.take(i + 1).drop_last() =~= tabs@.take(i as int));
        if !contains_usize(manifest_positions, tabs[i].1) {
            r.push(tabs[i].0);
        }
        i = i + 1;
    }
    assert(tabs@.take(tabs@.len() as int) =~= tabs@);
    r
}

/// The default interval, in milliseconds, between checks of the included
/// configuration file.
pub const DEFAULT_WATCH_MS: u64 = 2000;

/// The polling interval a `watch_ms` option asks for: `"false"` and `"0"`
/// turn polling off; a number is used as is; anything else, or no option,
/// gives the default.
pub open spec fn watch_interval_spec(value: Option<Seq<char>>) -> Option<u64> {
    match value {
        None => Some(DEFAULT_WATCH_MS),
        Some(v) => if v == "false"@ || v == "0"@ {
            None
        } else {
            match parse_unsigned(v, u64::MAX as nat) {
                Ok(n) => Some(n as u64),
                Err(_) => Some(DEFAULT_WATCH_MS),
            }
        },
    }
}

/// Read the `watch_ms` option.
pub fn parse_watch_interval(value: Option<&str>) -> (r: Option<u64>)
    ensures
        r == watch_interval_spec(match value { Some(v) => Some(v@), None => None }),
{
    match value {
        None => Some(DEFAULT_WATCH_MS),
        Some(v) => if str_equals(v, "false") || str_equals(v, "0") {
            None
        } else {
            let cs = chars_of(v);
            match parse_unsigned_chars(&cs, u64::MAX) {
                Ok(n) => Some(n),
                Err(_) => Some(DEFAULT_WATCH_MS),
            }
        },
    }
}


// ---------------------------------------------------------------------------
// The client's messages, as the plugin reads them

/// The verb and scratchpad name a client request carries.
pub open spec fn request_action(r: ScratchpadRequest) -> (Seq<char>, Option<Seq<char>>) {
    match r {
        ScratchpadRequest::Toggle { name } => ("toggle"@, match name { Some(n) => Some(n@), None => None }),
        ScratchpadRequest::Show { name } => ("show"@, Some(name@)),
        ScratchpadRequest::Hide { name } => ("hide"@, Some(name@)),
        ScratchpadRequest::Close { name } => ("close"@, Some(name@)),
    }
}

proof fn lemma_name_no_colon(n: Seq<char>)
    requires
        valid_scratchpad_name(n),
    ensures
        no_colon(n),
{
    assert forall|i: int| 0 <= i < n.len() implies #[trigger] n[i] != ':' by {
        assert(crate::scratchpad::config::is_name_char(n[i]));
    }
}

proof fn lemma_literals_no_colon()
    ensures
        no_colon("zellij-tools"@),
        no_colon("scratchpad"@),
        no_colon("toggle"@),
        no_colon("show"@),
        no_colon("hide"@),
        no_colon("close"@),
        no_colon("subscribe"@),
        no_colon("unsubscribe"@),
        no_colon("full"@),
{
    reveal_strlit("zellij-tools");
    reveal_strlit("scratchpad");
    reveal_strlit("toggle");
    reveal_strlit("show");
    reveal_strlit("hide");
    reveal_strlit("close");
    reveal_strlit("subscribe");
    reveal_strlit("unsubscribe");
    reveal_strlit("full");
}

/// `zellij-tools::<event>::<args>` read back: the plugin name, the event and
/// the argument text.
proof fn lemma_message_parts(event: Seq<char>, args: Seq<char>)
    requires
        no_colon(event),
    ensures
        message_parts("zellij-tools"@ + "::"@ + (event + "::"@ + args)) == Some((plugin_name(), event, args)),
{
    lemma_literals_no_colon();
    lemma_split_sep("zellij-tools"@, event + "::"@ + args);
    lemma_split_sep(event, args);
}

/// A scratchpad request the client sends reaches the plugin as the same
/// action on the same scratchpad: the plugin reads the `scratchpad` event,
/// not a listing, and its arguments parse to the request's verb and name.
pub proof fn law_scratchpad_message_round_trip(req: ScratchpadRequest)
    requires
        match request_action(req).1 {
            Some(n) => valid_scratchpad_name(n),
            None => true,
        },
    ensures
        match message_parts(scratchpad_request_text(req)) {
            Some((plugin, event, args)) => plugin == plugin_name() && event == "scratchpad"@
                && message_args(args).len() > 0 && message_args(args)[0] != "list"@
                && scratchpad_action_spec(message_args(args)) == Ok::<(Seq<char>, Option<Seq<char>>), Result<Seq<char>, Seq<char>>>(request_action(req)),
            None => false,
        },
{
    lemma_literals_no_colon();
    reveal_strlit("zellij-tools::scratchpad::toggle::");
    reveal_strlit("zellij-tools::scratchpad::toggle");
    reveal_strlit("zellij-tools::scratchpad::show::");
    reveal_strlit("zellij-tools::scratchpad::hide::");
    reveal_strlit("zellij-tools::scratchpad::close::");
    reveal_strlit("zellij-tools");
    reveal_strlit("scratchpad");
    reveal_strlit("toggle");
    reveal_strlit("show");
    reveal_strlit("hide");
    reveal_strlit("close");
    reveal_strlit("list");
    reveal_strlit("::");
    let (verb, name) = request_action(req);
    let text = scratchpad_request_text(req);
    match name {
        Some(n) => {
            lemma_name_no_colon(n);
            let args = verb + "::"@ + n;
            assert(text =~= "zellij-tools"@ + "::"@ + ("scratchpad"@ + "::"@ + args));
            lemma_message_parts("scratchpad"@, args);
            lemma_split_sep(verb, n);
            lemma_split_none(n);
            assert(message_args(args) =~= seq![verb, n]);
            assert(verb[0] != "list"@[0]);
        },
        None => {
            assert(verb == "toggle"@);
            assert(text =~= "zellij-tools"@ + "::"@ + "scratchpad"@ + "::"@ + verb);
            lemma_split_sep("zellij-tools"@, "scratchpad"@ + "::"@ + verb);
            assert("zellij-tools"@ + "::"@ + ("scratchpad"@ + "::"@ + verb) =~= text);
            lemma_split_sep("scratchpad"@, verb);
            lemma_split_none(verb);
            assert(message_args(verb) =~= seq![verb]);
            assert(verb != "list"@);
        },
    }
}

/// The subscribe message reaches the plugin as a subscription whose mode is
/// full exactly when the client asked for full events.
pub proof fn law_subscribe_message_round_trip(full: bool)
    ensures ({
        let text = if full { "zellij-tools::subscribe::full"@ } else { "zellij-tools::subscribe"@ };
        match message_parts(text) {
            Some((plugin, event, args)) => plugin == plugin_name() && event == "subscribe"@
                && (message_args(args).len() > 0 && message_args(args)[0] == "full"@) == full,
            None => false,
        }
    }),
{
    lemma_literals_no_colon();
    reveal_strlit("zellij-tools::subscribe::full");
    reveal_strlit("zellij-tools::subscribe");
    reveal_strlit("zellij-tools");
    reveal_strlit("subscribe");
    reveal_strlit("full");
    reveal_strlit("::");
    if full {
        assert("zellij-tools::subscribe::full"@ =~= "zellij-tools"@ + "::"@ + ("subscribe"@ + "::"@ + "full"@));
        lemma_message_parts("subscribe"@, "full"@);
        lemma_split_none("full"@);
    } else {
        assert("zellij-tools::subscribe"@ =~= "zellij-tools"@ + "::"@ + "subscribe"@);
        lemma_split_sep("zellij-tools"@, "subscribe"@);
        lemma_split_none("subscribe"@);
        assert(message_args(Seq::<char>::empty()) =~= Seq::<Seq<char>>::empty());
    }
}

/// The unsubscribe message names the pipe the plugin drops, for a pipe name
/// that is not empty and has no `:`.
pub proof fn law_unsubscribe_message_round_trip(pipe: Seq<char>)
    requires
        pipe.len() > 0,
        no_colon(pipe),
    ensures
        match message_parts("zellij-tools::unsubscribe::"@ + pipe) {
            Some((plugin, event, args)) => plugin == plugin_name() && event == "unsubscribe"@
                && message_args(args) == seq![pipe],
            None => false,
        },
{
    lemma_literals_no_colon();
    reveal_strlit("zellij-tools::unsubscribe::");
    reveal_strlit("zellij-tools");
    reveal_strlit("unsubscribe");
    reveal_strlit("::");
    assert("zellij-tools::unsubscribe::"@ + pipe =~= "zellij-tools"@ + "::"@ + ("unsubscribe"@ + "::"@ + pipe));
    lemma_message_parts("unsubscribe"@, pipe);
    lemma_split_none(pipe);
}


/// The message that focuses a pane reaches the plugin as a request to focus
/// that pane, terminal or plugin.
pub proof fn law_focus_pane_message_round_trip(pane_id: u32, plugin: bool)
    ensures
        match message_parts("zellij-tools::focus-pane::"@ + typed_pane_text(pane_id, plugin)) {
            Some((p, event, args)) => p == plugin_name() && event == "focus-pane"@
                && message_args(args) == seq![typed_pane_text(pane_id, plugin)]
                && pane_id_spec(typed_pane_text(pane_id, plugin)) == Ok::<TypedPaneId, crate::text::IntErrorKind>(
                    if plugin { TypedPaneId::Plugin(pane_id) } else { TypedPaneId::Terminal(pane_id) }),
            None => false,
        },
{
    lemma_literals_no_colon();
    reveal_strlit("zellij-tools::focus-pane::");
    reveal_strlit("zellij-tools");
    reveal_strlit("focus-pane");
    reveal_strlit("terminal_");
    reveal_strlit("plugin_");
    reveal_strlit("::");
    let prefix = if plugin { "plugin_"@ } else { "terminal_"@ };
    let digits = decimal(pane_id as nat);
    let typed = typed_pane_text(pane_id, plugin);
    assert(typed == prefix + digits);
    lemma_decimal_no_colon(pane_id as nat);
    assert(no_colon("focus-pane"@));
    assert forall|i: int| 0 <= i < typed.len() implies #[trigger] typed[i] != ':' by {
        if i < prefix.len() { assert(typed[i] == prefix[i]); } else { assert(typed[i] == digits[i - prefix.len()]); }
    }
    assert("zellij-tools::focus-pane::"@ + typed =~= "zellij-tools"@ + "::"@ + ("focus-pane"@ + "::"@ + typed));
    lemma_message_parts("focus-pane"@, typed);
    lemma_split_none(typed);
    lemma_parse_decimal(pane_id as nat, u32::MAX as nat);
    if plugin {
        assert(!is_prefix("terminal_"@, typed)) by {
            if typed.len() >= 9 { assert(typed.subrange(0, 9)[0] == 'p'); }
        }
        assert(typed.subrange(0, 7) =~= "plugin_"@);
        assert(typed.subrange(7, typed.len() as int) =~= digits);
    } else {
        assert(typed.subrange(0, 9) =~= "terminal_"@);
        assert(typed.subrange(9, typed.len() as int) =~= digits);
    }
}

/// The message that focuses a tab reaches the plugin as the same target: a
/// native tab ID, or a position that fits the host's tab index.
pub proof fn law_focus_tab_message_round_trip(tab: usize, by_id: bool)
    requires
        by_id || tab <= u32::MAX,
    ensures ({
        let text = "zellij-tools::focus-tab::"@ + (if by_id { "id::"@ } else { "position::"@ }) + decimal(tab as nat);
        match message_parts(text) {
            Some((p, event, args)) => p == plugin_name() && event == "focus-tab"@
                && match focus_tab_target_spec(message_args(args)) {
                    Ok(FocusTabTarget::TabId(id)) => by_id && id == tab,
                    Ok(FocusTabTarget::Position(pos)) => !by_id && pos == tab,
                    Err(_) => false,
                },
            None => false,
        }
    }),
{
    reveal_strlit("zellij-tools::focus-tab::");
    reveal_strlit("zellij-tools");
    reveal_strlit("focus-tab");
    reveal_strlit("id::");
    reveal_strlit("position::");
    reveal_strlit("id");
    reveal_strlit("position");
    reveal_strlit("::");
    lemma_literals_no_colon();
    let verb = if by_id { "id"@ } else { "position"@ };
    let digits = decimal(tab as nat);
    lemma_decimal_no_colon(tab as nat);
    assert(no_colon("focus-tab"@));
    assert(no_colon(verb));
    let args = verb + "::"@ + digits;
    let text = "zellij-tools::focus-tab::"@ + (if by_id { "id::"@ } else { "position::"@ }) + digits;
    assert(text =~= "zellij-tools"@ + "::"@ + ("focus-tab"@ + "::"@ + args));
    lemma_message_parts("focus-tab"@, args);
    lemma_split_sep(verb, digits);
    lemma_split_none(digits);
    assert(message_args(args) =~= seq![verb, digits]);
    if by_id {
        lemma_parse_decimal(tab as nat, usize::MAX as nat);
    } else {
        lemma_parse_decimal(tab as nat, u32::MAX as nat);
    }
}


pub open spec fn name_views(ns: Seq<String>) -> Seq<Seq<char>> {
    ns.map_values(|n: String| n@)
}

proof fn lemma_join_names(ps: Seq<Seq<char>>, ns: Seq<String>)
    requires
        ps.len() > 0,
    ensures
        join_sep(ps + name_views(ns)) == join_sep(ps) + names_suffix(ns),
    decreases ns.len(),
{
    if ns.len() == 0 {
        assert(ps + name_views(ns) =~= ps);
        assert(join_sep(ps) + names_suffix(ns) =~= join_sep(ps));
    } else {
        let dl = ns.drop_last();
        lemma_join_names(ps, dl);
        assert(ps + name_views(ns) =~= (ps + name_views(dl)).push(ns.last()@));
        lemma_join_push(ps + name_views(dl), ns.last()@);
        assert(join_sep(ps + name_views(ns)) =~= join_sep(ps) + names_suffix(ns));
    }
}

/// A name a list request may carry without being read as an option.
pub open spec fn plain_list_name(n: Seq<char>) -> bool {
    valid_scratchpad_name(n) && n != "full"@
}

proof fn lemma_query_names(pre: Seq<Seq<char>>, ns: Seq<String>)
    requires
        forall|i: int| 0 <= i < ns.len() ==> plain_list_name(#[trigger] ns[i]@),
    ensures ({
        let q = list_query_spec(pre);
        list_query_spec(pre + name_views(ns)) == (q.0 + name_views(ns), q.1, q.2)
    }),
    decreases ns.len(),
{
    reveal_strlit("tab=");
    let q = list_query_spec(pre);
    if ns.len() == 0 {
        assert(pre + name_views(ns) =~= pre);
        assert(q.0 + name_views(ns) =~= q.0);
    } else {
        let dl = ns.drop_last();
        assert forall|i: int| 0 <= i < dl.len() implies plain_list_name(#[trigger] dl[i]@) by {
            assert(dl[i] == ns[i]);
        }
        lemma_query_names(pre, dl);
        let a = ns.last()@;
        assert(plain_list_name(ns[ns.len() - 1]@));
        let all = pre + name_views(ns);
        assert(all.drop_last() =~= pre + name_views(dl));
        assert(all.last() == a);
        assert(!is_prefix("tab="@, a)) by {
            if a.len() >= 4 && a.subrange(0, 4) == "tab="@ {
                assert(a.subrange(0, 4)[3] == '=');
                assert(crate::scratchpad::config::is_name_char(a[3]));
            }
        }
        assert(q.0 + name_views(dl) + seq![a] =~= q.0 + name_views(ns));
    }
}

/// A scratchpad list request the client sends reaches the plugin as the
/// listing it asks for: the same names in order, the same tab filter and the
/// same detail. Holds for valid names other than `full`, which the plugin
/// reads as the detail option.
pub proof fn law_scratchpad_list_message_round_trip(names: Seq<String>, tab_id: Option<usize>, full: bool)
    requires
        forall|i: int| 0 <= i < names.len() ==> plain_list_name(#[trigger] names[i]@),
    ensures
        match message_parts(scratchpad_list_text(names, tab_id, full)) {
            Some((p, event, args)) => p == plugin_name() && event == "scratchpad"@
                && message_args(args).len() > 0 && message_args(args)[0] == "list"@
                && list_query_spec(message_args(args).drop_first())
                    == (name_views(names), match tab_id { Some(t) => Some(t as nat), None => None }, full),
            None => false,
        },
{
    lemma_literals_no_colon();
    reveal_strlit("zellij-tools::scratchpad::list");
    reveal_strlit("zellij-tools");
    reveal_strlit("scratchpad");
    reveal_strlit("list");
    reveal_strlit("full");
    reveal_strlit("::full");
    reveal_strlit("::tab=");
    reveal_strlit("tab=");
    reveal_strlit("::");
    let f = if full { "::full"@ } else { Seq::<char>::empty() };
    let tb = match tab_id { Some(t) => "::tab="@ + decimal(t as nat), None => Seq::<char>::empty() };
    let base = seq!["list"@];
    let p1 = if full { base.push("full"@) } else { base };
    let p2 = match tab_id { Some(t) => p1.push("tab="@ + decimal(t as nat)), None => p1 };
    let p = p2 + name_views(names);
    // The argument text is the pieces joined with `::`.
    assert(join_sep(base) == "list"@);
    if full {
        lemma_join_push(base, "full"@);
        assert(join_sep(p1) =~= "list"@ + f);
    }
    assert(join_sep(p1) =~= "list"@ + f);
    match tab_id {
        Some(t) => {
            lemma_join_push(p1, "tab="@ + decimal(t as nat));
            assert(join_sep(p2) =~= "list"@ + f + tb);
        },
        None => {},
    }
    assert(join_sep(p2) =~= "list"@ + f + tb);
    lemma_join_names(p2, names);
    let args = join_sep(p);
    assert(args =~= "list"@ + f + tb + names_suffix(names));
    let text = scratchpad_list_text(names, tab_id, full);
    assert(text =~= "zellij-tools"@ + "::"@ + ("scratchpad"@ + "::"@ + args));
    lemma_message_parts("scratchpad"@, args);
    // Every piece is free of `:`.
    assert forall|i: int| 0 <= i < p.len() implies no_colon(#[trigger] p[i]) by {
        if i >= p2.len() {
            let n = names[i - p2.len()]@;
            assert(p[i] == n);
            assert(plain_list_name(names[i - p2.len()]@));
            assert forall|j: int| 0 <= j < n.len() implies #[trigger] n[j] != ':' by {
                assert(crate::scratchpad::config::is_name_char(n[j]));
            }
        } else {
            assert(p[i] == p2[i]);
            match tab_id {
                Some(t) => {
                    if i == p2.len() - 1 {
                        let d = decimal(t as nat);
                        lemma_decimal_no_colon(t as nat);
                        let piece = "tab="@ + d;
                        assert forall|j: int| 0 <= j < piece.len() implies #[trigger] piece[j] != ':' by {
                            if j >= 4 { assert(piece[j] == d[j - 4]); }
                        }
                    } else {
                        assert(p2[i] == p1[i]);
                    }
                },
                None => {},
            }
        }
    }
    lemma_split_join(p);
    assert(args.len() > 0);
    assert(message_args(args) == p);
    assert(p[0] == "list"@);
    // The options before the names.
    let opts = p2.drop_first();
    assert(p.drop_first() =~= opts + name_views(names));
    lemma_query_names(opts, names);
    let expected_tab = match tab_id { Some(t) => Some(t as nat), None => None };
    let e = Seq::<Seq<char>>::empty();
    assert(list_query_spec(e) == (e, None::<nat>, false));
    assert(seq!["full"@].drop_last() =~= e);
    assert(list_query_spec(seq!["full"@]) == (e, None::<nat>, true));
    match tab_id {
        Some(t) => {
            lemma_parse_decimal(t as nat, usize::MAX as nat);
            let piece = "tab="@ + decimal(t as nat);
            assert(piece.subrange(0, 4) =~= "tab="@);
            assert(piece.subrange(4, piece.len() as int) =~= decimal(t as nat));
            assert(piece != "full"@) by { assert(piece[0] != "full"@[0]); }
            if full {
                assert(p1 =~= seq!["list"@, "full"@]);
                assert(opts =~= seq!["full"@, piece]);
                assert(opts.drop_last() =~= seq!["full"@]);
            } else {
                assert(opts =~= seq![piece]);
                assert(opts.drop_last() =~= e);
            }
            assert(list_query_spec(opts) == (e, expected_tab, full));
        },
        None => {
            if full {
                assert(opts =~= seq!["full"@]);
            } else {
                assert(opts =~= e);
            }
            assert(list_query_spec(opts) == (e, expected_tab, full));
        },
    }
    assert(Seq::<Seq<char>>::empty() + name_views(names) =~= name_views(names));
}

} // verus!
