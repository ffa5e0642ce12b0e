//! Event stream: detects pane and tab changes between manifest updates and
//! renders them as JSON lines for subscribers.

use vstd::prelude::*;
use crate::pipe_claim::hex_digit;
pub use crate::stream::{EventStream, InitError, SubscribeMode};
use crate::text::{
    chars_of, decimal, find_chars, lemma_find_from_bounds, parse_unsigned, parse_unsigned_chars,
    push_chars, push_decimal, push_str, slice_chars, split_once, str_equals, string_of,
};

verus! {

/// The type of a pane. Terminal and plugin panes have separate ID spaces.
#[derive(Debug, Clone, Copy, PartialEq, Eq, Structural)]
pub enum PaneType {
    Terminal,
    Plugin,
}

/// The kinds of stream events a subscriber can filter on.
#[derive(Debug, Clone, Copy, PartialEq, Eq, Structural)]
pub enum EventKind {
    PaneFocused,
    PaneUnfocused,
    PaneOpened,
    PaneClosed,
    TabFocused,
    TabUnfocused,
    TabCreated,
    TabClosed,
    TabMoved,
}

/// The canonical name of an event kind, as subscribers and filters write it.
pub open spec fn kind_name(k: EventKind) -> Seq<char> {
    match k {
        EventKind::PaneFocused => "PaneFocused"@,
        EventKind::PaneUnfocused => "PaneUnfocused"@,
        EventKind::PaneOpened => "PaneOpened"@,
        EventKind::PaneClosed => "PaneClosed"@,
        EventKind::TabFocused => "TabFocused"@,
        EventKind::TabUnfocused => "TabUnfocused"@,
        EventKind::TabCreated => "TabCreated"@,
        EventKind::TabClosed => "TabClosed"@,
        EventKind::TabMoved => "TabMoved"@,
    }
}

impl EventKind {
    /// The canonical name of this kind.
    pub fn as_str(&self) -> (s: &'static str)
        ensures
            s@ == kind_name(*self),
    {
        match self {
            EventKind::PaneFocused => "PaneFocused",
            EventKind::PaneUnfocused => "PaneUnfocused",
            EventKind::PaneOpened => "PaneOpened",
            EventKind::PaneClosed => "PaneClosed",
            EventKind::TabFocused => "TabFocused",
            EventKind::TabUnfocused => "TabUnfocused",
            EventKind::TabCreated => "TabCreated",
            EventKind::TabClosed => "TabClosed",
            EventKind::TabMoved => "TabMoved",
        }
    }
}

/// A pane ID qualified by its type, written `terminal_N` or `plugin_N`.
#[derive(Debug, Clone, Copy, PartialEq, Eq, Structural)]
pub enum TypedPaneId {
    Terminal(u32),
    Plugin(u32),
}

/// What parsing a typed pane ID gives: `terminal_N` or `plugin_N` with `N` a `u32`.
pub open spec fn typed_pane_id_spec(s: Seq<char>) -> Result<TypedPaneId, Seq<char>> {
    match split_once(s, "_"@) {
        None => Err("invalid typed pane id: "@ + s),
        Some((prefix, id)) => match parse_unsigned(id, u32::MAX as nat) {
            Err(_) => Err("invalid typed pane numeric id: "@ + s),
            Ok(v) => if prefix == "terminal"@ {
                Ok(TypedPaneId::Terminal(v as u32))
            } else if prefix == "plugin"@ {
                Ok(TypedPaneId::Plugin(v as u32))
            } else {
                Err("invalid pane type prefix: "@ + prefix)
            },
        },
    }
}

impl TypedPaneId {
    /// Parse `terminal_N` or `plugin_N`.
    pub fn parse_typed(s: &str) -> (r: Result<TypedPaneId, String>)
        ensures
            match r {
                Ok(id) => typed_pane_id_spec(s@) == Ok::<TypedPaneId, Seq<char>>(id),
                Err(e) => typed_pane_id_spec(s@) == Err::<TypedPaneId, Seq<char>>(e@),
            },
    {
        proof {
            reveal_strlit("_");
            reveal_strlit("terminal");
            reveal_strlit("plugin");
        }
        let cs = chars_of(s);
        let mut us: Vec<char> = Vec::new();
        us.push('_');
        assert(us@ == "_"@);
        let i = match find_chars(&cs, &us) {
            Some(i) => i,
            None => {
                let mut out: Vec<char> = Vec::new();
                push_str(&mut out, "invalid typed pane id: ");
                push_chars(&mut out, &cs);
                return Err(string_of(&out));
            },
        };
        proof { lemma_find_from_bounds(cs@, us@, 0); }
        let n = cs.len();
        assert(i + 1 <= n);
        let prefix = slice_chars(&cs, 0, i);
        let id = slice_chars(&cs, i + 1, n);
        let value = match parse_unsigned_chars(&id, u32::MAX as u64) {
            Ok(v) => v as u32,
            Err(_) => {
                let mut out: Vec<char> = Vec::new();
                push_str(&mut out, "invalid typed pane numeric id: ");
                push_chars(&mut out, &cs);
                return Err(string_of(&out));
            },
        };
        let p = string_of(&prefix);
        if str_equals(p.as_str(), "terminal") {
            Ok(TypedPaneId::Terminal(value))
        } else if str_equals(p.as_str(), "plugin") {
            Ok(TypedPaneId::Plugin(value))
        } else {
            let mut out: Vec<char> = Vec::new();
            push_str(&mut out, "invalid pane type prefix: ");
            push_chars(&mut out, &prefix);
            Err(string_of(&out))
        }
    }

    fn from_event(pane_id: u32, pane_type: PaneType) -> (r: Self)
        ensures
            r == typed_of(pane_id, pane_type),
    {
        match pane_type {
            PaneType::Terminal => TypedPaneId::Terminal(pane_id),
            PaneType::Plugin => TypedPaneId::Plugin(pane_id),
        }
    }
}

impl std::str::FromStr for TypedPaneId {
    type Err = String;

    fn from_str(s: &str) -> Result<Self, Self::Err> {
        TypedPaneId::parse_typed(s)
    }
}

pub open spec fn typed_of(pane_id: u32, pane_type: PaneType) -> TypedPaneId {
    match pane_type {
        PaneType::Terminal => TypedPaneId::Terminal(pane_id),
        PaneType::Plugin => TypedPaneId::Plugin(pane_id),
    }
}

/// The initialization payload of a subscriber: mode and filters.
#[derive(Debug, Clone, Default)]
pub struct SubscribeSpec {
    pub full: Option<bool>,
    pub events: Option<Vec<EventKind>>,
    pub pane_ids: Option<Vec<TypedPaneId>>,
    pub tab_ids: Option<Vec<u64>>,
}

/// Which events a subscriber receives; an absent dimension is unconstrained
/// and an empty list matches nothing on that dimension.
#[derive(Debug, Clone, Default)]
pub struct EventFilter {
    pub event_kinds: Option<Vec<EventKind>>,
    pub pane_ids: Option<Vec<TypedPaneId>>,
    pub tab_ids: Option<Vec<u64>>,
}

fn copy_kinds(v: &Vec<EventKind>) -> (r: Vec<EventKind>)
    ensures
        r@ == v@,
{
    let mut r: Vec<EventKind> = Vec::new();
    let mut i: usize = 0;
    while i < v.len()
        invariant
            i <= v@.len(),
            r@ == v@.subrange(0, i as int),
        decreases v.len() - i,
    {
        r.push(v[i]);
        assert(v@.subrange(0, i + 1) == v@.subrange(0, i as int).push(v@[i as int]));
        i = i + 1;
    }
    assert(v@.subrange(0, v@.len() as int) == v@);
    r
}

fn copy_ids(v: &Vec<TypedPaneId>) -> (r: Vec<TypedPaneId>)
    ensures
        r@ == v@,
{
    let mut r: Vec<TypedPaneId> = Vec::new();
    let mut i: usize = 0;
    while i < v.len()
        invariant
            i <= v@.len(),
            r@ == v@.subrange(0, i as int),
        decreases v.len() - i,
    {
        r.push(v[i]);
        assert(v@.subrange(0, i + 1) == v@.subrange(0, i as int).push(v@[i as int]));
        i = i + 1;
    }
    assert(v@.subrange(0, v@.len() as int) == v@);
    r
}

fn copy_u64s(v: &Vec<u64>) -> (r: Vec<u64>)
    ensures
        r@ == v@,
{
    let mut r: Vec<u64> = Vec::new();
    let mut i: usize = 0;
    while i < v.len()
        invariant
            i <= v@.len(),
            r@ == v@.subrange(0, i as int),
        decreases v.len() - i,
    {
        r.push(v[i]);
        assert(v@.subrange(0, i + 1) == v@.subrange(0, i as int).push(v@[i as int]));
        i = i + 1;
    }
    assert(v@.subrange(0, v@.len() as int) == v@);
    r
}

pub open spec fn opt_seq<T>(o: Option<Vec<T>>) -> Option<Seq<T>> {
    match o {
        Some(v) => Some(v@),
        None => None,
    }
}

/// An event emitted to subscribers.
#[derive(Debug, Clone, PartialEq)]
pub enum Event {
    PaneFocused { pane_id: u32, pane_type: PaneType },
    PaneUnfocused { pane_id: u32, pane_type: PaneType },
    PaneOpened { pane_id: u32, pane_type: PaneType, is_floating: bool },
    PaneClosed { pane_id: u32, pane_type: PaneType },
    TabFocused { stable_id: u64, position: usize, name: String },
    TabUnfocused { stable_id: u64, position: usize, name: String },
    TabCreated { stable_id: u64, position: usize, name: String },
    TabClosed { stable_id: u64, position: usize, name: String },
    TabMoved { stable_id: u64, old_position: usize, new_position: usize, name: String },
    /// Acknowledgment sent to the CLI after a successful subscribe.
    Ack {},
    /// Acknowledgment sent after successful init payload parsing.
    InitAck {},
    /// Error response sent when an init payload is rejected.
    InitError { message: String },
}

/// The content of an event, with texts as character sequences.
pub enum EventView {
    PaneFocused { pane_id: u32, pane_type: PaneType },
    PaneUnfocused { pane_id: u32, pane_type: PaneType },
    PaneOpened { pane_id: u32, pane_type: PaneType, is_floating: bool },
    PaneClosed { pane_id: u32, pane_type: PaneType },
    TabFocused { stable_id: u64, position: usize, name: Seq<char> },
    TabUnfocused { stable_id: u64, position: usize, name: Seq<char> },
    TabCreated { stable_id: u64, position: usize, name: Seq<char> },
    TabClosed { stable_id: u64, position: usize, name: Seq<char> },
    TabMoved { stable_id: u64, old_position: usize, new_position: usize, name: Seq<char> },
    Ack,
    InitAck,
    InitError { message: Seq<char> },
}

impl View for Event {
    type V = EventView;

    open spec fn view(&self) -> EventView {
        match self {
            Event::PaneFocused { pane_id, pane_type } => EventView::PaneFocused { pane_id: *pane_id, pane_type: *pane_type },
            Event::PaneUnfocused { pane_id, pane_type } => EventView::PaneUnfocused { pane_id: *pane_id, pane_type: *pane_type },
            Event::PaneOpened { pane_id, pane_type, is_floating } => EventView::PaneOpened {
                pane_id: *pane_id, pane_type: *pane_type, is_floating: *is_floating },
            Event::PaneClosed { pane_id, pane_type } => EventView::PaneClosed { pane_id: *pane_id, pane_type: *pane_type },
            Event::TabFocused { stable_id, position, name } => EventView::TabFocused {
                stable_id: *stable_id, position: *position, name: name@ },
            Event::TabUnfocused { stable_id, position, name } => EventView::TabUnfocused {
                stable_id: *stable_id, position: *position, name: name@ },
            Event::TabCreated { stable_id, position, name } => EventView::TabCreated {
                stable_id: *stable_id, position: *position, name: name@ },
            Event::TabClosed { stable_id, position, name } => EventView::TabClosed {
                stable_id: *stable_id, position: *position, name: name@ },
            Event::TabMoved { stable_id, old_position, new_position, name } => EventView::TabMoved {
                stable_id: *stable_id, old_position: *old_position, new_position: *new_position, name: name@ },
            Event::Ack {} => EventView::Ack,
            Event::InitAck {} => EventView::InitAck,
            Event::InitError { message } => EventView::InitError { message: message@ },
        }
    }
}

pub open spec fn events_view(v: Seq<Event>) -> Seq<EventView> {
    v.map_values(|e: Event| e@)
}

pub open spec fn event_kind(e: EventView) -> Option<EventKind> {
    match e {
        EventView::PaneFocused { .. } => Some(EventKind::PaneFocused),
        EventView::PaneUnfocused { .. } => Some(EventKind::PaneUnfocused),
        EventView::PaneOpened { .. } => Some(EventKind::PaneOpened),
        EventView::PaneClosed { .. } => Some(EventKind::PaneClosed),
        EventView::TabFocused { .. } => Some(EventKind::TabFocused),
        EventView::TabUnfocused { .. } => Some(EventKind::TabUnfocused),
        EventView::TabCreated { .. } => Some(EventKind::TabCreated),
        EventView::TabClosed { .. } => Some(EventKind::TabClosed),
        EventView::TabMoved { .. } => Some(EventKind::TabMoved),
        _ => None,
    }
}

pub open spec fn event_pane_key(e: EventView) -> Option<TypedPaneId> {
    match e {
        EventView::PaneFocused { pane_id, pane_type } => Some(typed_of(pane_id, pane_type)),
        EventView::PaneUnfocused { pane_id, pane_type } => Some(typed_of(pane_id, pane_type)),
        EventView::PaneOpened { pane_id, pane_type, .. } => Some(typed_of(pane_id, pane_type)),
        EventView::PaneClosed { pane_id, pane_type } => Some(typed_of(pane_id, pane_type)),
        _ => None,
    }
}

pub open spec fn event_tab_id(e: EventView) -> Option<u64> {
    match e {
        EventView::TabFocused { stable_id, .. } => Some(stable_id),
        EventView::TabUnfocused { stable_id, .. } => Some(stable_id),
        EventView::TabCreated { stable_id, .. } => Some(stable_id),
        EventView::TabClosed { stable_id, .. } => Some(stable_id),
        EventView::TabMoved { stable_id, .. } => Some(stable_id),
        _ => None,
    }
}

impl Event {
    /// The filterable kind of the event; acknowledgements have none.
    pub fn kind(&self) -> (k: Option<EventKind>)
        ensures
            k == event_kind(self@),
    {
        match self {
            Event::PaneFocused { .. } => Some(EventKind::PaneFocused),
            Event::PaneUnfocused { .. } => Some(EventKind::PaneUnfocused),
            Event::PaneOpened { .. } => Some(EventKind::PaneOpened),
            Event::PaneClosed { .. } => Some(EventKind::PaneClosed),
            Event::TabFocused { .. } => Some(EventKind::TabFocused),
            Event::TabUnfocused { .. } => Some(EventKind::TabUnfocused),
            Event::TabCreated { .. } => Some(EventKind::TabCreated),
            Event::TabClosed { .. } => Some(EventKind::TabClosed),
            Event::TabMoved { .. } => Some(EventKind::TabMoved),
            _ => None,
        }
    }

    /// The typed pane a pane event is about.
    pub fn pane_key(&self) -> (k: Option<TypedPaneId>)
        ensures
            k == event_pane_key(self@),
    {
        match self {
            Event::PaneFocused { pane_id, pane_type } => Some(TypedPaneId::from_event(*pane_id, *pane_type)),
            Event::PaneUnfocused { pane_id, pane_type } => Some(TypedPaneId::from_event(*pane_id, *pane_type)),
            Event::PaneOpened { pane_id, pane_type, .. } => Some(TypedPaneId::from_event(*pane_id, *pane_type)),
            Event::PaneClosed { pane_id, pane_type } => Some(TypedPaneId::from_event(*pane_id, *pane_type)),
            _ => None,
        }
    }

    /// The stable ID of the tab a tab event is about.
    pub fn tab_stable_id(&self) -> (k: Option<u64>)
        ensures
            k == event_tab_id(self@),
    {
        match self {
            Event::TabFocused { stable_id, .. } => Some(*stable_id),
            Event::TabUnfocused { stable_id, .. } => Some(*stable_id),
            Event::TabCreated { stable_id, .. } => Some(*stable_id),
            Event::TabClosed { stable_id, .. } => Some(*stable_id),
            Event::TabMoved { stable_id, .. } => Some(*stable_id),
            _ => None,
        }
    }

    /// A copy with the same content.
    pub fn duplicate(&self) -> (r: Event)
        ensures
            r@ == self@,
    {
        match self {
            Event::PaneFocused { pane_id, pane_type } => Event::PaneFocused { pane_id: *pane_id, pane_type: *pane_type },
            Event::PaneUnfocused { pane_id, pane_type } => Event::PaneUnfocused { pane_id: *pane_id, pane_type: *pane_type },
            Event::PaneOpened { pane_id, pane_type, is_floating } => Event::PaneOpened {
                pane_id: *pane_id, pane_type: *pane_type, is_floating: *is_floating },
            Event::PaneClosed { pane_id, pane_type } => Event::PaneClosed { pane_id: *pane_id, pane_type: *pane_type },
            Event::TabFocused { stable_id, position, name } => Event::TabFocused {
                stable_id: *stable_id, position: *position, name: name.clone() },
            Event::TabUnfocused { stable_id, position, name } => Event::TabUnfocused {
                stable_id: *stable_id, position: *position, name: name.clone() },
            Event::TabCreated { stable_id, position, name } => Event::TabCreated {
                stable_id: *stable_id, position: *position, name: name.clone() },
            Event::TabClosed { stable_id, position, name } => Event::TabClosed {
                stable_id: *stable_id, position: *position, name: name.clone() },
            Event::TabMoved { stable_id, old_position, new_position, name } => Event::TabMoved {
                stable_id: *stable_id, old_position: *old_position, new_position: *new_position, name: name.clone() },
            Event::Ack {} => Event::Ack {},
            Event::InitAck {} => Event::InitAck {},
            Event::InitError { message } => Event::InitError { message: message.clone() },
        }
    }
}

fn contains_kind(v: &Vec<EventKind>, k: EventKind) -> (r: bool)
    ensures
        r == v@.contains(k),
{
    let mut i: usize = 0;
    while i < v.len()
        invariant
            i <= v@.len(),
            forall|j: int| 0 <= j < i ==> v@[j] != k,
        decreases v.len() - i,
    {
        if v[i] == k {
            return true;
        }
        i = i + 1;
    }
    false
}

fn contains_id(v: &Vec<TypedPaneId>, k: TypedPaneId) -> (r: bool)
    ensures
        r == v@.contains(k),
{
    let mut i: usize = 0;
    while i < v.len()
        invariant
            i <= v@.len(),
            forall|j: int| 0 <= j < i ==> v@[j] != k,
        decreases v.len() - i,
    {
        if v[i] == k {
            return true;
        }
        i = i + 1;
    }
    false
}

fn contains_u64(v: &Vec<u64>, k: u64) -> (r: bool)
    ensures
        r == v@.contains(k),
{
    let mut i: usize = 0;
    while i < v.len()
        invariant
            i <= v@.len(),
            forall|j: int| 0 <= j < i ==> v@[j] != k,
        decreases v.len() - i,
    {
        if v[i] == k {
            return true;
        }
        i = i + 1;
    }
    false
}

/// Whether a filter lets an event through.
pub open spec fn filter_matches(
    kinds: Option<Seq<EventKind>>,
    panes: Option<Seq<TypedPaneId>>,
    tabs: Option<Seq<u64>>,
    e: EventView,
) -> bool {
    &&& (kinds matches Some(ks) ==> (event_kind(e) matches Some(k) && ks.contains(k)))
    &&& (panes matches Some(ps) ==> (event_pane_key(e) matches Some(p) && ps.contains(p)))
    &&& (tabs matches Some(ts) ==> (event_tab_id(e) matches Some(t) && ts.contains(t)))
}

/// The lists of a filter as sequences.
pub struct FilterView {
    pub kinds: Option<Seq<EventKind>>,
    pub panes: Option<Seq<TypedPaneId>>,
    pub tabs: Option<Seq<u64>>,
}

impl View for EventFilter {
    type V = FilterView;

    open spec fn view(&self) -> FilterView {
        FilterView { kinds: opt_seq(self.event_kinds), panes: opt_seq(self.pane_ids), tabs: opt_seq(self.tab_ids) }
    }
}

pub open spec fn filter_admits(f: FilterView, e: EventView) -> bool {
    filter_matches(f.kinds, f.panes, f.tabs, e)
}

impl EventFilter {
    pub open spec fn admits(&self, e: EventView) -> bool {
        filter_admits(self@, e)
    }

    /// The filter that lets every event through.
    pub fn unconstrained() -> (f: EventFilter)
        ensures
            f@ == (FilterView { kinds: None, panes: None, tabs: None }),
    {
        EventFilter { event_kinds: None, pane_ids: None, tab_ids: None }
    }

    /// The filter a subscribe specification describes.
    pub fn from_spec(spec: &SubscribeSpec) -> (f: EventFilter)
        ensures
            opt_seq(f.event_kinds) == opt_seq(spec.events),
            opt_seq(f.pane_ids) == opt_seq(spec.pane_ids),
            opt_seq(f.tab_ids) == opt_seq(spec.tab_ids),
    {
        EventFilter {
            event_kinds: match &spec.events { Some(v) => Some(copy_kinds(v)), None => None },
            pane_ids: match &spec.pane_ids { Some(v) => Some(copy_ids(v)), None => None },
            tab_ids: match &spec.tab_ids { Some(v) => Some(copy_u64s(v)), None => None },
        }
    }

    /// Whether the filter lets the event through.
    pub fn matches(&self, event: &Event) -> (b: bool)
        ensures
            b == self.admits(event@),
    {
        match &self.event_kinds {
            Some(kinds) => match event.kind() {
                Some(k) => if !contains_kind(kinds, k) { return false; },
                None => return false,
            },
            None => {},
        }
        match &self.pane_ids {
            Some(ids) => match event.pane_key() {
                Some(k) => if !contains_id(ids, k) { return false; },
                None => return false,
            },
            None => {},
        }
        match &self.tab_ids {
            Some(ids) => match event.tab_stable_id() {
                Some(k) => if !contains_u64(ids, k) { return false; },
                None => return false,
            },
            None => {},
        }
        true
    }
}


/// How JSON writes one character of a string: a quote, a backslash and the
/// control characters with a short escape take it, the other control
/// characters become `\u00XX` with lower-case hex, every other character
/// stands as it is.
pub open spec fn json_escaped(c: char) -> Seq<char> {
    if c == '"' {
        seq!['\\', '"']
    } else if c == '\\' {
        seq!['\\', '\\']
    } else if c == '\u{8}' {
        seq!['\\', 'b']
    } else if c == '\t' {
        seq!['\\', 't']
    } else if c == '\n' {
        seq!['\\', 'n']
    } else if c == '\u{c}' {
        seq!['\\', 'f']
    } else if c == '\r' {
        seq!['\\', 'r']
    } else if (c as nat) < 32 {
        seq!['\\', 'u', '0', '0', hex_digit((c as nat) / 16), hex_digit((c as nat) % 16)]
    } else {
        seq![c]
    }
}

/// The escaped characters of a string, in order.
pub open spec fn json_body(s: Seq<char>) -> Seq<char>
    decreases s.len(),
{
    if s.len() == 0 {
        Seq::empty()
    } else {
        json_body(s.drop_last()) + json_escaped(s.last())
    }
}

/// A string written as JSON: quoted, each character escaped as needed.
pub open spec fn json_string(s: Seq<char>) -> Seq<char> {
    seq!['"'] + json_body(s) + seq!['"']
}

/// Renders a string slice as a JSON string with `serde_json::to_string`,
/// which quotes it and escapes each character as `json_escaped` says (the
/// escape table and `write_char_escape` of serde_json's serializer).
/// Serializing a `&str` does not fail.
#[verifier::external_body]
fn json_quote(s: &str) -> (r: String)
    ensures
        r@ == json_string(s@),
{
    match serde_json::to_string(s) {
        Ok(text) => text,
        Err(_) => String::new(),
    }
}

pub open spec fn pane_type_text(t: PaneType) -> Seq<char> {
    match t {
        PaneType::Terminal => "terminal"@,
        PaneType::Plugin => "plugin"@,
    }
}

pub open spec fn bool_text(b: bool) -> Seq<char> {
    if b { "true"@ } else { "false"@ }
}

/// `{"Name":{"pane_id":N,"pane_type":"T"}}`
pub open spec fn pane_json(variant: Seq<char>, pane_id: u32, t: PaneType) -> Seq<char> {
    "{\""@ + variant + "\":{\"pane_id\":"@ + decimal(pane_id as nat) + ",\"pane_type\":\""@
        + pane_type_text(t) + "\"}}"@
}

/// `{"Name":{"stable_id":S,"position":P,"name":N}}`
pub open spec fn tab_json(variant: Seq<char>, stable_id: u64, position: usize, name: Seq<char>) -> Seq<char> {
    "{\""@ + variant + "\":{\"stable_id\":"@ + decimal(stable_id as nat) + ",\"position\":"@
        + decimal(position as nat) + ",\"name\":"@ + json_string(name) + "}}"@
}

/// `{"Name":{"name":N,"position":P,"stable_id":S}}`, the key order of a JSON value.
pub open spec fn tab_json_sorted(variant: Seq<char>, stable_id: u64, position: usize, name: Seq<char>) -> Seq<char> {
    "{\""@ + variant + "\":{\"name\":"@ + json_string(name) + ",\"position\":"@
        + decimal(position as nat) + ",\"stable_id\":"@ + decimal(stable_id as nat) + "}}"@
}

pub open spec fn variant_name(e: EventView) -> Seq<char> {
    match e {
        EventView::PaneFocused { .. } => "PaneFocused"@,
        EventView::PaneUnfocused { .. } => "PaneUnfocused"@,
        EventView::PaneOpened { .. } => "PaneOpened"@,
        EventView::PaneClosed { .. } => "PaneClosed"@,
        EventView::TabFocused { .. } => "TabFocused"@,
        EventView::TabUnfocused { .. } => "TabUnfocused"@,
        EventView::TabCreated { .. } => "TabCreated"@,
        EventView::TabClosed { .. } => "TabClosed"@,
        EventView::TabMoved { .. } => "TabMoved"@,
        EventView::Ack => "Ack"@,
        EventView::InitAck => "InitAck"@,
        EventView::InitError { .. } => "InitError"@,
    }
}

/// The compact JSON of an event: fields in declaration order.
pub open spec fn compact_json(e: EventView) -> Seq<char> {
    match e {
        EventView::PaneOpened { pane_id, pane_type, is_floating } =>
            "{\"PaneOpened\":{\"pane_id\":"@ + decimal(pane_id as nat) + ",\"pane_type\":\""@
                + pane_type_text(pane_type) + "\",\"is_floating\":"@ + bool_text(is_floating) + "}}"@,
        EventView::PaneFocused { pane_id, pane_type } => pane_json(variant_name(e), pane_id, pane_type),
        EventView::PaneUnfocused { pane_id, pane_type } => pane_json(variant_name(e), pane_id, pane_type),
        EventView::PaneClosed { pane_id, pane_type } => pane_json(variant_name(e), pane_id, pane_type),
        EventView::TabFocused { stable_id, position, name } => tab_json(variant_name(e), stable_id, position, name),
        EventView::TabUnfocused { stable_id, position, name } => tab_json(variant_name(e), stable_id, position, name),
        EventView::TabCreated { stable_id, position, name } => tab_json(variant_name(e), stable_id, position, name),
        EventView::TabClosed { stable_id, position, name } => tab_json(variant_name(e), stable_id, position, name),
        EventView::TabMoved { stable_id, old_position, new_position, name } =>
            "{\"TabMoved\":{\"stable_id\":"@ + decimal(stable_id as nat) + ",\"old_position\":"@
                + decimal(old_position as nat) + ",\"new_position\":"@ + decimal(new_position as nat)
                + ",\"name\":"@ + json_string(name) + "}}"@,
        EventView::Ack => "{\"Ack\":{}}"@,
        EventView::InitAck => "{\"InitAck\":{}}"@,
        EventView::InitError { message } => "{\"InitError\":{\"message\":"@ + json_string(message) + "}}"@,
    }
}

/// Information about a tab, used for diffing.
pub struct TabInfo {
    pub stable_id: u64,
    pub position: usize,
    pub name: String,
    pub active: bool,
}

/// Information about a pane from the manifest, used for diffing and detail.
#[derive(Debug, Clone)]
pub struct PaneInfo {
    pub id: u32,
    pub is_focused: bool,
    pub is_floating: bool,
    pub is_suppressed: bool,
    pub is_plugin: bool,
    /// Which tab this pane belongs to (tab position index).
    pub tab_position: usize,
    pub title: String,
    pub terminal_command: Option<String>,
    pub plugin_url: Option<String>,
}

pub open spec fn pane_type_of(is_plugin: bool) -> PaneType {
    if is_plugin { PaneType::Plugin } else { PaneType::Terminal }
}

impl PaneInfo {
    /// Get the pane type (terminal or plugin) for this pane.
    pub fn pane_type(&self) -> (t: PaneType)
        ensures
            t == pane_type_of(self.is_plugin),
    {
        if self.is_plugin { PaneType::Plugin } else { PaneType::Terminal }
    }
}

/// Index of the first pane with this ID and kind.
pub open spec fn find_pane(panes: Seq<PaneInfo>, id: u32, is_plugin: bool) -> Option<int>
    decreases panes.len(),
{
    if panes.len() == 0 {
        None
    } else {
        match find_pane(panes.drop_last(), id, is_plugin) {
            Some(i) => Some(i),
            None => if panes.last().id == id && panes.last().is_plugin == is_plugin { Some(panes.len() - 1) } else { None },
        }
    }
}

/// The detailed JSON of a pane event for a pane found in the manifest: every
/// key in sorted order, optional texts only when present.
pub open spec fn pane_detail_json(variant: Seq<char>, p: PaneInfo, pane_id: u32, t: PaneType) -> Seq<char> {
    pane_detail_head(variant, p.is_floating, p.is_suppressed, pane_id, t) + pane_detail_tail(p)
}

pub open spec fn pane_detail_head(variant: Seq<char>, is_floating: bool, is_suppressed: bool, pane_id: u32, t: PaneType) -> Seq<char> {
    "{\""@ + variant + "\":{\"is_floating\":"@ + bool_text(is_floating) + ",\"is_suppressed\":"@
        + bool_text(is_suppressed) + ",\"pane_id\":"@ + decimal(pane_id as nat) + ",\"pane_type\":\""@
        + pane_type_text(t) + "\""@
}

pub open spec fn opt_field(key: Seq<char>, value: Option<String>) -> Seq<char> {
    match value {
        Some(u) => key + json_string(u@),
        None => Seq::empty(),
    }
}

pub open spec fn pane_detail_tail(p: PaneInfo) -> Seq<char> {
    opt_field(",\"plugin_url\":"@, p.plugin_url) + opt_field(",\"terminal_command\":"@, p.terminal_command)
        + ",\"title\":"@ + json_string(p.title@) + "}}"@
}

/// The full-mode JSON of an event whose pane (if any) is not in the manifest:
/// the event as a JSON value, keys in sorted order.
pub open spec fn sorted_json(e: EventView) -> Seq<char> {
    match e {
        EventView::PaneOpened { pane_id, pane_type, is_floating } =>
            "{\"PaneOpened\":{\"is_floating\":"@ + bool_text(is_floating) + ",\"pane_id\":"@
                + decimal(pane_id as nat) + ",\"pane_type\":\""@ + pane_type_text(pane_type) + "\"}}"@,
        EventView::TabFocused { stable_id, position, name } => tab_json_sorted(variant_name(e), stable_id, position, name),
        EventView::TabUnfocused { stable_id, position, name } => tab_json_sorted(variant_name(e), stable_id, position, name),
        EventView::TabCreated { stable_id, position, name } => tab_json_sorted(variant_name(e), stable_id, position, name),
        EventView::TabClosed { stable_id, position, name } => tab_json_sorted(variant_name(e), stable_id, position, name),
        EventView::TabMoved { stable_id, old_position, new_position, name } =>
            "{\"TabMoved\":{\"name\":"@ + json_string(name) + ",\"new_position\":"@
                + decimal(new_position as nat) + ",\"old_position\":"@ + decimal(old_position as nat)
                + ",\"stable_id\":"@ + decimal(stable_id as nat) + "}}"@,
        _ => compact_json(e),
    }
}

pub open spec fn key_parts(k: TypedPaneId) -> (u32, PaneType) {
    match k {
        TypedPaneId::Terminal(i) => (i, PaneType::Terminal),
        TypedPaneId::Plugin(i) => (i, PaneType::Plugin),
    }
}

/// The full-mode JSON of an event: a JSON value with sorted keys, with pane
/// details merged in when the pane is in the manifest.
pub open spec fn full_json(e: EventView, panes: Seq<PaneInfo>) -> Seq<char> {
    match event_pane_key(e) {
        Some(k) => match find_pane(panes, key_parts(k).0, key_parts(k).1 == PaneType::Plugin) {
            Some(i) => pane_detail_json(variant_name(e), panes[i], key_parts(k).0, key_parts(k).1),
            None => sorted_json(e),
        },
        None => sorted_json(e),
    }
}

fn push_json(out: &mut Vec<char>, s: &str)
    ensures
        final(out)@ == old(out)@ + json_string(s@),
{
    let q = json_quote(s);
    push_str(out, q.as_str());
}

fn push_bool(out: &mut Vec<char>, b: bool)
    ensures
        final(out)@ == old(out)@ + bool_text(b),
{
    if b { push_str(out, "true"); } else { push_str(out, "false"); }
}

fn push_pane_type(out: &mut Vec<char>, t: PaneType)
    ensures
        final(out)@ == old(out)@ + pane_type_text(t),
{
    match t {
        PaneType::Terminal => push_str(out, "terminal"),
        PaneType::Plugin => push_str(out, "plugin"),
    }
}

fn variant_text(e: &Event) -> (s: &'static str)
    ensures
        s@ == variant_name(e@),
{
    match e {
        Event::PaneFocused { .. } => "PaneFocused",
        Event::PaneUnfocused { .. } => "PaneUnfocused",
        Event::PaneOpened { .. } => "PaneOpened",
        Event::PaneClosed { .. } => "PaneClosed",
        Event::TabFocused { .. } => "TabFocused",
        Event::TabUnfocused { .. } => "TabUnfocused",
        Event::TabCreated { .. } => "TabCreated",
        Event::TabClosed { .. } => "TabClosed",
        Event::TabMoved { .. } => "TabMoved",
        Event::Ack {} => "Ack",
        Event::InitAck {} => "InitAck",
        Event::InitError { .. } => "InitError",
    }
}

fn push_pane_json(out: &mut Vec<char>, variant: &str, pane_id: u32, t: PaneType)
    ensures
        final(out)@ == old(out)@ + pane_json(variant@, pane_id, t),
{
    push_str(out, "{\"");
    push_str(out, variant);
    push_str(out, "\":{\"pane_id\":");
    push_decimal(out, pane_id as u64);
    push_str(out, ",\"pane_type\":\"");
    push_pane_type(out, t);
    push_str(out, "\"}}");
}

fn push_tab_json(out: &mut Vec<char>, variant: &str, stable_id: u64, position: usize, name: &str, sorted: bool)
    ensures
        final(out)@ == old(out)@ + if sorted {
            tab_json_sorted(variant@, stable_id, position, name@)
        } else {
            tab_json(variant@, stable_id, position, name@)
        },
{
    push_str(out, "{\"");
    push_str(out, variant);
    if sorted {
        push_str(out, "\":{\"name\":");
        push_json(out, name);
        push_str(out, ",\"position\":");
        push_decimal(out, position as u64);
        push_str(out, ",\"stable_id\":");
        push_decimal(out, stable_id);
    } else {
        push_str(out, "\":{\"stable_id\":");
        push_decimal(out, stable_id);
        push_str(out, ",\"position\":");
        push_decimal(out, position as u64);
        push_str(out, ",\"name\":");
        push_json(out, name);
    }
    push_str(out, "}}");
}

impl Event {
    /// Serialize compactly, with fields in declaration order.
    pub fn to_json(&self) -> (s: String)
        ensures
            s@ == compact_json(self@),
    {
        let mut out: Vec<char> = Vec::new();
        let v = variant_text(self);
        match self {
            Event::PaneOpened { pane_id, pane_type, is_floating } => {
                push_str(&mut out, "{\"PaneOpened\":{\"pane_id\":");
                push_decimal(&mut out, *pane_id as u64);
                push_str(&mut out, ",\"pane_type\":\"");
                push_pane_type(&mut out, *pane_type);
                push_str(&mut out, "\",\"is_floating\":");
                push_bool(&mut out, *is_floating);
                push_str(&mut out, "}}");
            },
            Event::PaneFocused { pane_id, pane_type } => push_pane_json(&mut out, v, *pane_id, *pane_type),
            Event::PaneUnfocused { pane_id, pane_type } => push_pane_json(&mut out, v, *pane_id, *pane_type),
            Event::PaneClosed { pane_id, pane_type } => push_pane_json(&mut out, v, *pane_id, *pane_type),
            Event::TabFocused { stable_id, position, name } => push_tab_json(&mut out, v, *stable_id, *position, name.as_str(), false),
            Event::TabUnfocused { stable_id, position, name } => push_tab_json(&mut out, v, *stable_id, *position, name.as_str(), false),
            Event::TabCreated { stable_id, position, name } => push_tab_json(&mut out, v, *stable_id, *position, name.as_str(), false),
            Event::TabClosed { stable_id, position, name } => push_tab_json(&mut out, v, *stable_id, *position, name.as_str(), false),
            Event::TabMoved { stable_id, old_position, new_position, name } => {
                push_str(&mut out, "{\"TabMoved\":{\"stable_id\":");
                push_decimal(&mut out, *stable_id);
                push_str(&mut out, ",\"old_position\":");
                push_decimal(&mut out, *old_position as u64);
                push_str(&mut out, ",\"new_position\":");
                push_decimal(&mut out, *new_position as u64);
                push_str(&mut out, ",\"name\":");
                push_json(&mut out, name.as_str());
                push_str(&mut out, "}}");
            },
            Event::Ack {} => push_str(&mut out, "{\"Ack\":{}}"),
            Event::InitAck {} => push_str(&mut out, "{\"InitAck\":{}}"),
            Event::InitError { message } => {
                push_str(&mut out, "{\"InitError\":{\"message\":");
                push_json(&mut out, message.as_str());
                push_str(&mut out, "}}");
            },
        }
        string_of(&out)
    }

    /// Serialize with full detail: pane events carry the manifest's fields for
    /// their pane; every object lists its keys in sorted order.
    pub fn to_full_json(&self, panes: &[PaneInfo], tabs: &[TabInfo]) -> (s: String)
        ensures
            s@ == full_json(self@, panes@),
    {
        match self.pane_key() {
            Some(k) => {
                let (id, t) = match k {
                    TypedPaneId::Terminal(i) => (i, PaneType::Terminal),
                    TypedPaneId::Plugin(i) => (i, PaneType::Plugin),
                };
                match find_pane_index(panes, id, t == PaneType::Plugin) {
                    Some(i) => {
                        let mut out: Vec<char> = Vec::new();
                        push_pane_detail(&mut out, variant_text(self), &panes[i], id, t);
                        string_of(&out)
                    },
                    None => self.to_sorted_json(),
                }
            },
            None => self.to_sorted_json(),
        }
    }

    fn to_sorted_json(&self) -> (s: String)
        ensures
            s@ == sorted_json(self@),
    {
        let v = variant_text(self);
        let mut out: Vec<char> = Vec::new();
        match self {
            Event::PaneOpened { pane_id, pane_type, is_floating } => {
                push_str(&mut out, "{\"PaneOpened\":{\"is_floating\":");
                push_bool(&mut out, *is_floating);
                push_str(&mut out, ",\"pane_id\":");
                push_decimal(&mut out, *pane_id as u64);
                push_str(&mut out, ",\"pane_type\":\"");
                push_pane_type(&mut out, *pane_type);
                push_str(&mut out, "\"}}");
            },
            Event::TabFocused { stable_id, position, name } => push_tab_json(&mut out, v, *stable_id, *position, name.as_str(), true),
            Event::TabUnfocused { stable_id, position, name } => push_tab_json(&mut out, v, *stable_id, *position, name.as_str(), true),
            Event::TabCreated { stable_id, position, name } => push_tab_json(&mut out, v, *stable_id, *position, name.as_str(), true),
            Event::TabClosed { stable_id, position, name } => push_tab_json(&mut out, v, *stable_id, *position, name.as_str(), true),
            Event::TabMoved { stable_id, old_position, new_position, name } => {
                push_str(&mut out, "{\"TabMoved\":{\"name\":");
                push_json(&mut out, name.as_str());
                push_str(&mut out, ",\"new_position\":");
                push_decimal(&mut out, *new_position as u64);
                push_str(&mut out, ",\"old_position\":");
                push_decimal(&mut out, *old_position as u64);
                push_str(&mut out, ",\"stable_id\":");
                push_decimal(&mut out, *stable_id);
                push_str(&mut out, "}}");
            },
            _ => return self.to_json(),
        }
        string_of(&out)
    }
}

fn push_opt_field(out: &mut Vec<char>, key: &str, value: &Option<String>)
    ensures
        final(out)@ == old(out)@ + opt_field(key@, *value),
{
    match value {
        Some(u) => {
            push_str(out, key);
            push_json(out, u.as_str());
        },
        None => {
            assert(old(out)@ + Seq::<char>::empty() == old(out)@);
        },
    }
}

fn push_pane_detail_head(out: &mut Vec<char>, variant: &str, is_floating: bool, is_suppressed: bool, pane_id: u32, t: PaneType)
    ensures
        final(out)@ == old(out)@ + pane_detail_head(variant@, is_floating, is_suppressed, pane_id, t),
{
    push_str(out, "{\"");
    push_str(out, variant);
    push_str(out, "\":{\"is_floating\":");
    push_bool(out, is_floating);
    push_str(out, ",\"is_suppressed\":");
    push_bool(out, is_suppressed);
    push_str(out, ",\"pane_id\":");
    push_decimal(out, pane_id as u64);
    push_str(out, ",\"pane_type\":\"");
    push_pane_type(out, t);
    push_str(out, "\"");
}

fn push_pane_detail_tail(out: &mut Vec<char>, p: &PaneInfo)
    ensures
        final(out)@ == old(out)@ + pane_detail_tail(*p),
{
    push_opt_field(out, ",\"plugin_url\":", &p.plugin_url);
    push_opt_field(out, ",\"terminal_command\":", &p.terminal_command);
    push_str(out, ",\"title\":");
    push_json(out, p.title.as_str());
    push_str(out, "}}");
}

fn push_pane_detail(out: &mut Vec<char>, variant: &str, p: &PaneInfo, pane_id: u32, t: PaneType)
    ensures
        final(out)@ == old(out)@ + pane_detail_json(variant@, *p, pane_id, t),
{
    push_pane_detail_head(out, variant, p.is_floating, p.is_suppressed, pane_id, t);
    push_pane_detail_tail(out, p);
}

fn find_pane_index(panes: &[PaneInfo], id: u32, is_plugin: bool) -> (r: Option<usize>)
    ensures
        match r {
            Some(i) => find_pane(panes@, id, is_plugin) == Some(i as int) && i < panes@.len(),
            None => find_pane(panes@, id, is_plugin).is_none(),
        },
{
    let mut i: usize = 0;
    while i < panes.len()
        invariant
            i <= panes@.len(),
            find_pane(panes@.subrange(0, i as int), id, is_plugin).is_none(),
        decreases panes.len() - i,
    {
        assert(panes@.subrange(0, i + 1).drop_last() == panes@.subrange(0, i as int));
        if panes[i].id == id && panes[i].is_plugin == is_plugin {
            proof { lemma_find_pane_prefix(panes@, i as int + 1, id, is_plugin); }
            return Some(i);
        }
        i = i + 1;
    }
    assert(panes@.subrange(0, panes@.len() as int) == panes@);
    None
}

proof fn lemma_find_pane_prefix(s: Seq<PaneInfo>, k: int, id: u32, is_plugin: bool)
    requires
        0 < k <= s.len(),
        find_pane(s.subrange(0, k - 1), id, is_plugin).is_none(),
        s[k - 1].id == id && s[k - 1].is_plugin == is_plugin,
    ensures
        find_pane(s, id, is_plugin) == Some(k - 1),
    decreases s.len() - k,
{
    if k < s.len() {
        assert(s.drop_last().subrange(0, k - 1) == s.subrange(0, k - 1));
        lemma_find_pane_prefix(s.drop_last(), k, id, is_plugin);
    } else {
        assert(s.subrange(0, k - 1) == s.drop_last());
    }
}

} // verus!
