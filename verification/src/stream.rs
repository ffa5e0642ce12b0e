//! The subscriber registry of the event stream and the state it diffs
//! manifest updates against.

use vstd::prelude::*;
use crate::events::{
    compact_json, events_view, filter_admits, full_json, Event, EventFilter, EventView, FilterView,
    pane_type_of, PaneInfo, PaneType, SubscribeSpec, TabInfo,
};
use crate::text::{push_str, string_of};

verus! {

/// How much detail a subscriber's events carry.
#[derive(Debug, Clone, Copy, PartialEq, Eq, Structural)]
pub enum SubscribeMode {
    /// Minimal events with just IDs.
    Compact,
    /// Events with every known field of their object.
    Full,
}

/// Why an init payload was refused.
#[derive(Debug, Clone)]
pub enum InitError {
    InvalidJson { message: String },
    SubscriberNotFound { pipe_id: String },
    SubscriberAlreadyActive { pipe_id: String },
}

pub open spec fn init_error_text(e: InitError) -> Seq<char> {
    match e {
        InitError::InvalidJson { message } => "invalid init json: "@ + message@,
        InitError::SubscriberNotFound { pipe_id } => "subscriber not found: "@ + pipe_id@,
        InitError::SubscriberAlreadyActive { pipe_id } => "subscriber already active: "@ + pipe_id@,
    }
}

impl InitError {
    /// The message sent back to the subscriber.
    pub fn message(&self) -> (s: String)
        ensures
            s@ == init_error_text(*self),
    {
        let mut out: Vec<char> = Vec::new();
        match self {
            InitError::InvalidJson { message } => {
                push_str(&mut out, "invalid init json: ");
                push_str(&mut out, message.as_str());
            },
            InitError::SubscriberNotFound { pipe_id } => {
                push_str(&mut out, "subscriber not found: ");
                push_str(&mut out, pipe_id.as_str());
            },
            InitError::SubscriberAlreadyActive { pipe_id } => {
                push_str(&mut out, "subscriber already active: ");
                push_str(&mut out, pipe_id.as_str());
            },
        }
        string_of(&out)
    }
}

/// A subscriber; one without a filter still waits for its init payload.
struct Subscriber {
    pipe_id: String,
    mode: SubscribeMode,
    /// The heartbeat counter at this subscriber's last heartbeat.
    last_heartbeat: u64,
    filter: Option<EventFilter>,
}

pub struct SubscriberView {
    pub pipe_id: Seq<char>,
    pub mode: SubscribeMode,
    pub last_heartbeat: u64,
    pub filter: Option<FilterView>,
}

impl View for Subscriber {
    type V = SubscriberView;

    closed spec fn view(&self) -> SubscriberView {
        SubscriberView {
            pipe_id: self.pipe_id@,
            mode: self.mode,
            last_heartbeat: self.last_heartbeat,
            filter: match self.filter {
                Some(f) => Some(f@),
                None => None,
            },
        }
    }
}

/// The focus-relevant fields of a pane, kept to recompute focus on a tab switch.
#[derive(Debug, Clone, Copy)]
pub struct PaneFocusSnapshot {
    pub id: u32,
    pub pane_type: PaneType,
    pub is_focused: bool,
    pub is_floating: bool,
    pub is_suppressed: bool,
    pub tab_position: usize,
}

/// A tab as last seen: stable ID, position and name.
struct KnownTab {
    stable_id: u64,
    position: usize,
    name: String,
}

/// Tracks subscribers and the last seen panes and tabs, and turns each
/// manifest update into the events it implies.
pub struct EventStream {
    subscribers: Vec<Subscriber>,
    heartbeat_counter: u64,
    last_focused_pane: Option<(u32, PaneType)>,
    known_panes: Vec<(u32, PaneType)>,
    last_active_tab: Option<u64>,
    known_tabs: Vec<KnownTab>,
    pane_focus_snapshot: Vec<PaneFocusSnapshot>,
    active_tab_position: Option<usize>,
}

/// The state of an event stream.
pub struct StreamView {
    /// Subscribers in the order they first subscribed.
    pub subscribers: Seq<SubscriberView>,
    pub heartbeat_counter: u64,
    pub last_focused_pane: Option<(u32, PaneType)>,
    /// The distinct pane keys of the last pane update, first occurrence first.
    pub known_panes: Seq<(u32, PaneType)>,
    pub last_active_tab: Option<u64>,
    /// One entry per distinct stable ID of the last tab update.
    pub known_tabs: Seq<(u64, usize, Seq<char>)>,
    pub snapshot: Seq<PaneFocusSnapshot>,
    pub active_tab_position: Option<usize>,
}

spec fn subs_view(s: Seq<Subscriber>) -> Seq<SubscriberView> {
    s.map_values(|x: Subscriber| x@)
}

spec fn known_tab_view(t: KnownTab) -> (u64, usize, Seq<char>) {
    (t.stable_id, t.position, t.name@)
}

spec fn tabs_table_view(s: Seq<KnownTab>) -> Seq<(u64, usize, Seq<char>)> {
    s.map_values(|t: KnownTab| known_tab_view(t))
}

impl View for EventStream {
    type V = StreamView;

    closed spec fn view(&self) -> StreamView {
        StreamView {
            subscribers: subs_view(self.subscribers@),
            heartbeat_counter: self.heartbeat_counter,
            last_focused_pane: self.last_focused_pane,
            known_panes: self.known_panes@,
            last_active_tab: self.last_active_tab,
            known_tabs: tabs_table_view(self.known_tabs@),
            snapshot: self.pane_focus_snapshot@,
            active_tab_position: self.active_tab_position,
        }
    }
}

/// Index of the subscriber with this pipe ID (the first, were there several).
pub open spec fn sub_index(subs: Seq<SubscriberView>, pipe: Seq<char>) -> Option<int>
    decreases subs.len(),
{
    if subs.len() == 0 {
        None
    } else {
        match sub_index(subs.drop_last(), pipe) {
            Some(i) => Some(i),
            None => if subs.last().pipe_id == pipe { Some(subs.len() - 1) } else { None },
        }
    }
}

pub proof fn lemma_sub_index(subs: Seq<SubscriberView>, pipe: Seq<char>)
    ensures
        match sub_index(subs, pipe) {
            Some(i) => 0 <= i < subs.len() && subs[i].pipe_id == pipe
                && forall|j: int| 0 <= j < i ==> #[trigger] subs[j].pipe_id != pipe,
            None => forall|j: int| 0 <= j < subs.len() ==> #[trigger] subs[j].pipe_id != pipe,
        },
    decreases subs.len(),
{
    if subs.len() > 0 {
        lemma_sub_index(subs.drop_last(), pipe);
        assert forall|j: int| 0 <= j < subs.len() - 1 implies #[trigger] subs[j] == subs.drop_last()[j] by {}
    }
}

/// Insert a subscriber, replacing one with the same pipe ID in place.
pub open spec fn upsert(subs: Seq<SubscriberView>, s: SubscriberView) -> Seq<SubscriberView> {
    match sub_index(subs, s.pipe_id) {
        Some(i) => subs.update(i, s),
        None => subs.push(s),
    }
}

pub open spec fn remove_pipe(subs: Seq<SubscriberView>, pipe: Seq<char>) -> Seq<SubscriberView> {
    match sub_index(subs, pipe) {
        Some(i) => subs.remove(i),
        None => subs,
    }
}

/// Index of the known tab with this stable ID.
pub open spec fn tab_index(t: Seq<(u64, usize, Seq<char>)>, id: u64) -> Option<int>
    decreases t.len(),
{
    if t.len() == 0 {
        None
    } else {
        match tab_index(t.drop_last(), id) {
            Some(i) => Some(i),
            None => if t.last().0 == id { Some(t.len() - 1) } else { None },
        }
    }
}

pub proof fn lemma_tab_index(t: Seq<(u64, usize, Seq<char>)>, id: u64)
    ensures
        match tab_index(t, id) {
            Some(i) => 0 <= i < t.len() && t[i].0 == id
                && forall|j: int| 0 <= j < i ==> #[trigger] t[j].0 != id,
            None => forall|j: int| 0 <= j < t.len() ==> #[trigger] t[j].0 != id,
        },
    decreases t.len(),
{
    if t.len() > 0 {
        lemma_tab_index(t.drop_last(), id);
        assert forall|j: int| 0 <= j < t.len() - 1 implies #[trigger] t[j] == t.drop_last()[j] by {}
    }
}

pub open spec fn initial_stream() -> StreamView {
    StreamView {
        subscribers: Seq::empty(),
        heartbeat_counter: 0,
        last_focused_pane: None,
        known_panes: Seq::empty(),
        last_active_tab: None,
        known_tabs: Seq::empty(),
        snapshot: Seq::empty(),
        active_tab_position: None,
    }
}

pub open spec fn with_subscribers(v: StreamView, subs: Seq<SubscriberView>) -> StreamView {
    StreamView { subscribers: subs, ..v }
}

/// The snapshot a new subscriber receives: the focused tab, then the focused pane.
pub open spec fn initial_events(v: StreamView) -> Seq<EventView> {
    (match v.last_active_tab {
        Some(id) => match tab_index(v.known_tabs, id) {
            Some(i) => seq![EventView::TabFocused { stable_id: id, position: v.known_tabs[i].1, name: v.known_tabs[i].2 }],
            None => Seq::empty(),
        },
        None => Seq::empty(),
    }) + (match v.last_focused_pane {
        Some((p, t)) => seq![EventView::PaneFocused { pane_id: p, pane_type: t }],
        None => Seq::empty(),
    })
}

pub open spec fn is_active_in(v: StreamView, pipe: Seq<char>) -> bool {
    match sub_index(v.subscribers, pipe) {
        Some(i) => v.subscribers[i].filter is Some,
        None => false,
    }
}

pub open spec fn is_pending_in(v: StreamView, pipe: Seq<char>) -> bool {
    match sub_index(v.subscribers, pipe) {
        Some(i) => v.subscribers[i].filter is None,
        None => false,
    }
}

pub open spec fn spec_filter_view(spec: SubscribeSpec) -> FilterView {
    FilterView {
        kinds: match spec.events { Some(v) => Some(v@), None => None },
        panes: match spec.pane_ids { Some(v) => Some(v@), None => None },
        tabs: match spec.tab_ids { Some(v) => Some(v@), None => None },
    }
}

/// The subscriber once its init payload is accepted.
pub open spec fn initialized(s: SubscriberView, spec: SubscribeSpec) -> SubscriberView {
    SubscriberView {
        mode: match spec.full {
            Some(true) => SubscribeMode::Full,
            Some(false) => SubscribeMode::Compact,
            None => s.mode,
        },
        filter: Some(spec_filter_view(spec)),
        ..s
    }
}

/// The subscribers that keep a heartbeat at or above the threshold.
pub open spec fn kept_subscribers(subs: Seq<SubscriberView>, threshold: u64) -> Seq<SubscriberView>
    decreases subs.len(),
{
    if subs.len() == 0 {
        Seq::empty()
    } else {
        kept_subscribers(subs.drop_last(), threshold) + if subs.last().last_heartbeat < threshold {
            Seq::empty()
        } else {
            seq![subs.last()]
        }
    }
}

/// The pipe IDs of the subscribers whose heartbeat is below the threshold.
pub open spec fn stale_pipes(subs: Seq<SubscriberView>, threshold: u64) -> Seq<Seq<char>>
    decreases subs.len(),
{
    if subs.len() == 0 {
        Seq::empty()
    } else {
        stale_pipes(subs.drop_last(), threshold) + if subs.last().last_heartbeat < threshold {
            seq![subs.last().pipe_id]
        } else {
            Seq::empty()
        }
    }
}

pub open spec fn saturating_sub(a: u64, b: u64) -> u64 {
    if a >= b { (a - b) as u64 } else { 0 }
}

pub open spec fn strings_view(v: Seq<String>) -> Seq<Seq<char>> {
    v.map_values(|s: String| s@)
}

impl Subscriber {
    fn pending(pipe_id: String, mode: SubscribeMode, heartbeat_counter: u64) -> (s: Subscriber)
        ensures
            s@ == (SubscriberView { pipe_id: pipe_id@, mode, last_heartbeat: heartbeat_counter, filter: None }),
    {
        Subscriber { pipe_id, mode, last_heartbeat: heartbeat_counter, filter: None }
    }

    fn active(pipe_id: String, mode: SubscribeMode, heartbeat_counter: u64, filter: EventFilter) -> (s: Subscriber)
        ensures
            s@ == (SubscriberView { pipe_id: pipe_id@, mode, last_heartbeat: heartbeat_counter, filter: Some(filter@) }),
    {
        Subscriber { pipe_id, mode, last_heartbeat: heartbeat_counter, filter: Some(filter) }
    }

    fn is_active(&self) -> (b: bool)
        ensures
            b == (self@.filter is Some),
    {
        self.filter.is_some()
    }
}

fn table_find(table: &Vec<KnownTab>, stable_id: u64) -> (r: Option<usize>)
    ensures
        match r {
            Some(i) => tab_index(tabs_table_view(table@), stable_id) == Some(i as int) && i < table@.len()
                && tabs_table_view(table@)[i as int] == known_tab_view(table@[i as int]),
            None => tab_index(tabs_table_view(table@), stable_id) is None,
        },
{
    let ghost t = tabs_table_view(table@);
    proof { lemma_tab_index(t, stable_id); }
    let mut i: usize = 0;
    while i < table.len()
        invariant
            i <= table@.len(),
            t == tabs_table_view(table@),
            t.len() == table@.len(),
            forall|j: int| 0 <= j < i ==> #[trigger] t[j].0 != stable_id,
            match tab_index(t, stable_id) {
                Some(k) => 0 <= k < t.len() && t[k].0 == stable_id
                    && forall|j: int| 0 <= j < k ==> #[trigger] t[j].0 != stable_id,
                None => forall|j: int| 0 <= j < t.len() ==> #[trigger] t[j].0 != stable_id,
            },
        decreases table.len() - i,
    {
        assert(t[i as int] == known_tab_view(table@[i as int]));
        if table[i].stable_id == stable_id {
            assert(t[i as int].0 == stable_id);
            return Some(i);
        }
        i = i + 1;
    }
    None
}

impl EventStream {
    pub fn new() -> (s: EventStream)
        ensures
            s@ == initial_stream(),
    {
        let s = EventStream {
            subscribers: Vec::new(),
            heartbeat_counter: 0,
            last_focused_pane: None,
            known_panes: Vec::new(),
            last_active_tab: None,
            known_tabs: Vec::new(),
            pane_focus_snapshot: Vec::new(),
            active_tab_position: None,
        };
        assert(s@.subscribers =~= Seq::<SubscriberView>::empty());
        assert(s@.known_tabs =~= Seq::<(u64, usize, Seq<char>)>::empty());
        s
    }

    fn find_subscriber(&self, pipe_id: &str) -> (r: Option<usize>)
        ensures
            match r {
                Some(i) => sub_index(self@.subscribers, pipe_id@) == Some(i as int) && i < self.subscribers@.len()
                    && self@.subscribers[i as int] == self.subscribers@[i as int]@,
                None => sub_index(self@.subscribers, pipe_id@) is None,
            },
    {
        proof { lemma_sub_index(self@.subscribers, pipe_id@); }
        let mut i: usize = 0;
        while i < self.subscribers.len()
            invariant
                i <= self.subscribers@.len(),
                self@.subscribers.len() == self.subscribers@.len(),
                forall|j: int| 0 <= j < i ==> #[trigger] self@.subscribers[j].pipe_id != pipe_id@,
                match sub_index(self@.subscribers, pipe_id@) {
                    Some(k) => 0 <= k < self@.subscribers.len() && self@.subscribers[k].pipe_id == pipe_id@
                        && forall|j: int| 0 <= j < k ==> #[trigger] self@.subscribers[j].pipe_id != pipe_id@,
                    None => forall|j: int| 0 <= j < self@.subscribers.len() ==> #[trigger] self@.subscribers[j].pipe_id != pipe_id@,
                },
            decreases self.subscribers.len() - i,
        {
            assert(self@.subscribers[i as int] == self.subscribers@[i as int]@);
            if crate::text::str_equals(self.subscribers[i].pipe_id.as_str(), pipe_id) {
                assert(self@.subscribers[i as int].pipe_id == pipe_id@);
                return Some(i);
            }
            i = i + 1;
        }
        None
    }

    fn put_subscriber(&mut self, s: Subscriber)
        ensures
            final(self)@ == with_subscribers(old(self)@, upsert(old(self)@.subscribers, s@)),
    {
        let ghost sv = s@;
        match self.find_subscriber(s.pipe_id.as_str()) {
            Some(i) => {
                self.subscribers.set(i, s);
                assert(self@.subscribers =~= upsert(old(self)@.subscribers, sv));
            },
            None => {
                self.subscribers.push(s);
                assert(self@.subscribers =~= upsert(old(self)@.subscribers, sv));
            },
        }
    }

    /// Add an active subscriber that receives every event, replacing one with
    /// the same pipe ID. Returns the current state as events: the focused
    /// tab, then the focused pane.
    pub fn subscribe(&mut self, pipe_id: String, mode: SubscribeMode) -> (r: Vec<Event>)
        ensures
            final(self)@ == with_subscribers(old(self)@, upsert(old(self)@.subscribers,
                SubscriberView { pipe_id: pipe_id@, mode, last_heartbeat: old(self)@.heartbeat_counter,
                    filter: Some(FilterView { kinds: None, panes: None, tabs: None }) })),
            events_view(r@) == initial_events(old(self)@),
    {
        let sub = Subscriber::active(pipe_id, mode, self.heartbeat_counter, EventFilter::unconstrained());
        self.put_subscriber(sub);
        let mut events: Vec<Event> = Vec::new();
        match self.last_active_tab {
            Some(stable_id) => match self.find_tab(stable_id) {
                Some(i) => {
                    events.push(Event::TabFocused {
                        stable_id,
                        position: self.known_tabs[i].position,
                        name: self.known_tabs[i].name.clone(),
                    });
                },
                None => {},
            },
            None => {},
        }
        match self.last_focused_pane {
            Some((pane_id, pane_type)) => events.push(Event::PaneFocused { pane_id, pane_type }),
            None => {},
        }
        assert(events_view(events@) =~= initial_events(old(self)@));
        events
    }

    fn find_tab(&self, stable_id: u64) -> (r: Option<usize>)
        ensures
            match r {
                Some(i) => tab_index(self@.known_tabs, stable_id) == Some(i as int) && i < self.known_tabs@.len()
                    && self@.known_tabs[i as int] == known_tab_view(self.known_tabs@[i as int]),
                None => tab_index(self@.known_tabs, stable_id) is None,
            },
    {
        table_find(&self.known_tabs, stable_id)
    }

    /// Add a subscriber that receives no stream events until it is initialized.
    pub fn subscribe_pending(&mut self, pipe_id: String, mode: SubscribeMode)
        ensures
            final(self)@ == with_subscribers(old(self)@, upsert(old(self)@.subscribers,
                SubscriberView { pipe_id: pipe_id@, mode, last_heartbeat: old(self)@.heartbeat_counter, filter: None })),
    {
        let sub = Subscriber::pending(pipe_id, mode, self.heartbeat_counter);
        self.put_subscriber(sub);
    }

    /// Activate a pending subscriber with its parsed init payload: the payload
    /// may switch the mode and sets the filter.
    pub fn initialize_subscriber(&mut self, pipe_id: &str, spec: &SubscribeSpec) -> (r: Result<(), InitError>)
        ensures
            match sub_index(old(self)@.subscribers, pipe_id@) {
                None => r matches Err(InitError::SubscriberNotFound { pipe_id: p }) && p@ == pipe_id@
                    && final(self)@ == old(self)@,
                Some(i) => if old(self)@.subscribers[i].filter is Some {
                    r matches Err(InitError::SubscriberAlreadyActive { pipe_id: p }) && p@ == pipe_id@
                        && final(self)@ == old(self)@
                } else {
                    r is Ok && final(self)@ == with_subscribers(old(self)@,
                        old(self)@.subscribers.update(i, initialized(old(self)@.subscribers[i], *spec)))
                },
            },
    {
        let i = match self.find_subscriber(pipe_id) {
            Some(i) => i,
            None => {
                return Err(InitError::SubscriberNotFound { pipe_id: crate::text::to_string(pipe_id) });
            },
        };
        assert(self@.subscribers[i as int] == self.subscribers@[i as int]@);
        if self.subscribers[i].is_active() {
            return Err(InitError::SubscriberAlreadyActive { pipe_id: crate::text::to_string(pipe_id) });
        }
        let old_sub = self.subscribers.remove(i);
        let mode = match spec.full {
            Some(true) => SubscribeMode::Full,
            Some(false) => SubscribeMode::Compact,
            None => old_sub.mode,
        };
        let sub = Subscriber {
            pipe_id: old_sub.pipe_id,
            mode,
            last_heartbeat: old_sub.last_heartbeat,
            filter: Some(EventFilter::from_spec(spec)),
        };
        self.subscribers.insert(i, sub);
        assert(self@.subscribers =~= old(self)@.subscribers.update(i as int, initialized(old(self)@.subscribers[i as int], *spec)));
        Ok(())
    }

    /// Whether the pipe has an initialized subscriber.
    pub fn is_active(&self, pipe_id: &str) -> (b: bool)
        ensures
            b == is_active_in(self@, pipe_id@),
    {
        match self.find_subscriber(pipe_id) {
            Some(i) => {
                assert(self@.subscribers[i as int] == self.subscribers@[i as int]@);
                self.subscribers[i].is_active()
            },
            None => false,
        }
    }

    /// Whether the pipe has a subscriber that still waits for its init payload.
    pub fn is_pending(&self, pipe_id: &str) -> (b: bool)
        ensures
            b == is_pending_in(self@, pipe_id@),
    {
        match self.find_subscriber(pipe_id) {
            Some(i) => {
                assert(self@.subscribers[i as int] == self.subscribers@[i as int]@);
                !self.subscribers[i].is_active()
            },
            None => false,
        }
    }

    /// Record a heartbeat from a subscriber: the counter advances, and the
    /// subscriber (if any) takes its new value.
    pub fn record_heartbeat(&mut self, pipe_id: &str)
        requires
            old(self)@.heartbeat_counter < u64::MAX,
        ensures
            final(self)@.heartbeat_counter == old(self)@.heartbeat_counter + 1,
            final(self)@ == (StreamView {
                heartbeat_counter: (old(self)@.heartbeat_counter + 1) as u64,
                subscribers: match sub_index(old(self)@.subscribers, pipe_id@) {
                    Some(i) => old(self)@.subscribers.update(i, SubscriberView {
                        last_heartbeat: (old(self)@.heartbeat_counter + 1) as u64, ..old(self)@.subscribers[i] }),
                    None => old(self)@.subscribers,
                },
                ..old(self)@
            }),
    {
        self.heartbeat_counter = self.heartbeat_counter + 1;
        match self.find_subscriber(pipe_id) {
            Some(i) => {
                let old_sub = self.subscribers.remove(i);
                let sub = Subscriber {
                    pipe_id: old_sub.pipe_id,
                    mode: old_sub.mode,
                    last_heartbeat: self.heartbeat_counter,
                    filter: old_sub.filter,
                };
                self.subscribers.insert(i, sub);
                assert(self@.subscribers =~= old(self)@.subscribers.update(i as int, SubscriberView {
                    last_heartbeat: (old(self)@.heartbeat_counter + 1) as u64, ..old(self)@.subscribers[i as int] }));
            },
            None => {},
        }
    }

    /// Remove the subscribers whose last heartbeat lies more than `max_missed`
    /// ticks back; returns their pipe IDs.
    pub fn prune_stale_subscribers(&mut self, max_missed: u64) -> (r: Vec<String>)
        ensures
            final(self)@ == with_subscribers(old(self)@, kept_subscribers(old(self)@.subscribers,
                saturating_sub(old(self)@.heartbeat_counter, max_missed))),
            strings_view(r@) == stale_pipes(old(self)@.subscribers, saturating_sub(old(self)@.heartbeat_counter, max_missed)),
    {
        let threshold = self.heartbeat_counter.saturating_sub(max_missed);
        let ghost orig = old(self)@.subscribers;
        let mut pending: Vec<Subscriber> = Vec::new();
        std::mem::swap(&mut pending, &mut self.subscribers);
        let total = pending.len();
        let ghost all = pending@;
        let mut stale: Vec<String> = Vec::new();
        let mut k: usize = 0;
        while pending.len() > 0
            invariant
                subs_view(all) == orig,
                k + pending@.len() == all.len(),
                all.len() == total,
                pending@ == all.subrange(k as int, all.len() as int),
                subs_view(self.subscribers@) == kept_subscribers(orig.subrange(0, k as int), threshold),
                strings_view(stale@) == stale_pipes(orig.subrange(0, k as int), threshold),
                self.heartbeat_counter == old(self).heartbeat_counter,
                self.last_focused_pane == old(self).last_focused_pane,
                self.known_panes == old(self).known_panes,
                self.last_active_tab == old(self).last_active_tab,
                self.known_tabs == old(self).known_tabs,
                self.pane_focus_snapshot == old(self).pane_focus_snapshot,
                self.active_tab_position == old(self).active_tab_position,
            decreases pending.len(),
        {
            let sub = pending.remove(0);
            assert(orig.subrange(0, k + 1).drop_last() =~= orig.subrange(0, k as int));
            assert(orig[k as int] == sub@);
            if sub.last_heartbeat < threshold {
                stale.push(sub.pipe_id);
                assert(strings_view(stale@) =~= stale_pipes(orig.subrange(0, k + 1), threshold));
                assert(subs_view(self.subscribers@) =~= kept_subscribers(orig.subrange(0, k + 1), threshold));
            } else {
                self.subscribers.push(sub);
                assert(strings_view(stale@) =~= stale_pipes(orig.subrange(0, k + 1), threshold));
                assert(subs_view(self.subscribers@) =~= kept_subscribers(orig.subrange(0, k + 1), threshold));
            }
            k = k + 1;
        }
        assert(orig.subrange(0, k as int) =~= orig);
        stale
    }

    /// The current heartbeat counter.
    pub fn heartbeat_counter(&self) -> (c: u64)
        ensures
            c == self@.heartbeat_counter,
    {
        self.heartbeat_counter
    }

    /// Remove the subscriber of a pipe, if any.
    pub fn unsubscribe(&mut self, pipe_id: &str)
        ensures
            final(self)@ == with_subscribers(old(self)@, remove_pipe(old(self)@.subscribers, pipe_id@)),
    {
        match self.find_subscriber(pipe_id) {
            Some(i) => {
                self.subscribers.remove(i);
                assert(self@.subscribers =~= remove_pipe(old(self)@.subscribers, pipe_id@));
            },
            None => {},
        }
    }

    /// Whether any subscriber, pending or active, is registered.
    pub fn has_subscribers(&self) -> (b: bool)
        ensures
            b == (self@.subscribers.len() > 0),
    {
        self.subscribers.len() > 0
    }
}


// ---------------------------------------------------------------------------
// Pane updates

pub open spec fn pane_key(p: PaneInfo) -> (u32, PaneType) {
    (p.id, pane_type_of(p.is_plugin))
}

pub open spec fn pane_keys(panes: Seq<PaneInfo>) -> Seq<(u32, PaneType)> {
    panes.map_values(|p: PaneInfo| pane_key(p))
}

pub open spec fn snapshot_of(p: PaneInfo) -> PaneFocusSnapshot {
    PaneFocusSnapshot {
        id: p.id,
        pane_type: pane_type_of(p.is_plugin),
        is_focused: p.is_focused,
        is_floating: p.is_floating,
        is_suppressed: p.is_suppressed,
        tab_position: p.tab_position,
    }
}

pub open spec fn snapshots(panes: Seq<PaneInfo>) -> Seq<PaneFocusSnapshot> {
    panes.map_values(|p: PaneInfo| snapshot_of(p))
}

/// A pane that can hold the focus of a tab: on it, focused and not suppressed.
pub open spec fn focus_candidate(p: PaneFocusSnapshot, tab: usize) -> bool {
    p.tab_position == tab && p.is_focused && !p.is_suppressed
}

/// The last focus candidate of the tab that is (or is not) floating.
pub open spec fn last_candidate(s: Seq<PaneFocusSnapshot>, tab: usize, floating: bool) -> Option<(u32, PaneType)>
    decreases s.len(),
{
    if s.len() == 0 {
        None
    } else if focus_candidate(s.last(), tab) && s.last().is_floating == floating {
        Some((s.last().id, s.last().pane_type))
    } else {
        last_candidate(s.drop_last(), tab, floating)
    }
}

/// The focused pane of a tab: a floating candidate takes precedence over a tiled one.
pub open spec fn focused_pane(s: Seq<PaneFocusSnapshot>, tab: usize) -> Option<(u32, PaneType)> {
    match last_candidate(s, tab, true) {
        Some(k) => Some(k),
        None => last_candidate(s, tab, false),
    }
}

/// The events a change of the focused pane implies.
pub open spec fn focus_change(old: Option<(u32, PaneType)>, new: Option<(u32, PaneType)>) -> Seq<EventView> {
    match (old, new) {
        (Some((oi, ot)), Some((ni, nt))) => if oi != ni || ot != nt {
            seq![EventView::PaneUnfocused { pane_id: oi, pane_type: ot }, EventView::PaneFocused { pane_id: ni, pane_type: nt }]
        } else {
            Seq::empty()
        },
        (Some((oi, ot)), None) => seq![EventView::PaneUnfocused { pane_id: oi, pane_type: ot }],
        (None, Some((ni, nt))) => seq![EventView::PaneFocused { pane_id: ni, pane_type: nt }],
        (None, None) => Seq::empty(),
    }
}

/// The keys in order of first occurrence, each once.
pub open spec fn distinct_keys(ks: Seq<(u32, PaneType)>) -> Seq<(u32, PaneType)>
    decreases ks.len(),
{
    if ks.len() == 0 {
        Seq::empty()
    } else if distinct_keys(ks.drop_last()).contains(ks.last()) {
        distinct_keys(ks.drop_last())
    } else {
        distinct_keys(ks.drop_last()).push(ks.last())
    }
}

/// An opened event for each pane whose key was not known.
pub open spec fn opened_events(known: Seq<(u32, PaneType)>, panes: Seq<PaneInfo>) -> Seq<EventView>
    decreases panes.len(),
{
    if panes.len() == 0 {
        Seq::empty()
    } else {
        opened_events(known, panes.drop_last()) + if known.contains(pane_key(panes.last())) {
            Seq::empty()
        } else {
            seq![EventView::PaneOpened {
                pane_id: panes.last().id,
                pane_type: pane_type_of(panes.last().is_plugin),
                is_floating: panes.last().is_floating,
            }]
        }
    }
}

/// A closed event for each known key that is gone.
pub open spec fn closed_events(known: Seq<(u32, PaneType)>, current: Seq<(u32, PaneType)>) -> Seq<EventView>
    decreases known.len(),
{
    if known.len() == 0 {
        Seq::empty()
    } else {
        closed_events(known.drop_last(), current) + if current.contains(known.last()) {
            Seq::empty()
        } else {
            seq![EventView::PaneClosed { pane_id: known.last().0, pane_type: known.last().1 }]
        }
    }
}

/// The events of a pane update: opened panes, closed panes, then the focus
/// change on the active tab.
pub open spec fn pane_update_events(v: StreamView, panes: Seq<PaneInfo>, active_tab: usize) -> Seq<EventView> {
    opened_events(v.known_panes, panes) + closed_events(v.known_panes, pane_keys(panes))
        + focus_change(v.last_focused_pane, focused_pane(snapshots(panes), active_tab))
}

/// The state after a pane update.
pub open spec fn after_pane_update(v: StreamView, panes: Seq<PaneInfo>, active_tab: usize) -> StreamView {
    StreamView {
        known_panes: distinct_keys(pane_keys(panes)),
        last_focused_pane: focused_pane(snapshots(panes), active_tab),
        active_tab_position: Some(active_tab),
        snapshot: snapshots(panes),
        ..v
    }
}

// ---------------------------------------------------------------------------
// Tab updates

pub open spec fn tab_view(t: TabInfo) -> (u64, usize, Seq<char>) {
    (t.stable_id, t.position, t.name@)
}

/// One entry per stable ID, at its first occurrence, holding its last
/// position and name.
pub open spec fn tab_table(tabs: Seq<TabInfo>) -> Seq<(u64, usize, Seq<char>)>
    decreases tabs.len(),
{
    if tabs.len() == 0 {
        Seq::empty()
    } else {
        match tab_index(tab_table(tabs.drop_last()), tabs.last().stable_id) {
            Some(i) => tab_table(tabs.drop_last()).update(i, tab_view(tabs.last())),
            None => tab_table(tabs.drop_last()).push(tab_view(tabs.last())),
        }
    }
}

/// Index of the first tab with the property.
pub open spec fn first_tab(tabs: Seq<TabInfo>, p: spec_fn(TabInfo) -> bool) -> Option<int>
    decreases tabs.len(),
{
    if tabs.len() == 0 {
        None
    } else {
        match first_tab(tabs.drop_last(), p) {
            Some(i) => Some(i),
            None => if p(tabs.last()) { Some(tabs.len() - 1) } else { None },
        }
    }
}

pub proof fn lemma_first_tab(tabs: Seq<TabInfo>, p: spec_fn(TabInfo) -> bool)
    ensures
        match first_tab(tabs, p) {
            Some(i) => 0 <= i < tabs.len() && p(tabs[i]) && forall|j: int| 0 <= j < i ==> !p(#[trigger] tabs[j]),
            None => forall|j: int| 0 <= j < tabs.len() ==> !p(#[trigger] tabs[j]),
        },
    decreases tabs.len(),
{
    if tabs.len() > 0 {
        lemma_first_tab(tabs.drop_last(), p);
        assert forall|j: int| 0 <= j < tabs.len() - 1 implies #[trigger] tabs[j] == tabs.drop_last()[j] by {}
    }
}

pub open spec fn is_active_tab() -> spec_fn(TabInfo) -> bool {
    |t: TabInfo| t.active
}

pub open spec fn has_stable_id(id: u64) -> spec_fn(TabInfo) -> bool {
    |t: TabInfo| t.stable_id == id
}

/// The stable ID of the first active tab.
pub open spec fn active_stable_id(tabs: Seq<TabInfo>) -> Option<u64> {
    match first_tab(tabs, is_active_tab()) {
        Some(i) => Some(tabs[i].stable_id),
        None => None,
    }
}

/// The position of the first active tab.
pub open spec fn active_position(tabs: Seq<TabInfo>) -> Option<usize> {
    match first_tab(tabs, is_active_tab()) {
        Some(i) => Some(tabs[i].position),
        None => None,
    }
}

/// A created event for each tab whose stable ID was not known.
pub open spec fn created_events(known: Seq<(u64, usize, Seq<char>)>, tabs: Seq<TabInfo>) -> Seq<EventView>
    decreases tabs.len(),
{
    if tabs.len() == 0 {
        Seq::empty()
    } else {
        created_events(known, tabs.drop_last()) + if tab_index(known, tabs.last().stable_id) is None {
            seq![EventView::TabCreated { stable_id: tabs.last().stable_id, position: tabs.last().position, name: tabs.last().name@ }]
        } else {
            Seq::empty()
        }
    }
}

pub open spec fn tab_ids(tabs: Seq<TabInfo>) -> Seq<u64> {
    tabs.map_values(|t: TabInfo| t.stable_id)
}

/// A closed event for each known tab whose stable ID is gone.
pub open spec fn closed_tab_events(known: Seq<(u64, usize, Seq<char>)>, ids: Seq<u64>) -> Seq<EventView>
    decreases known.len(),
{
    if known.len() == 0 {
        Seq::empty()
    } else {
        closed_tab_events(known.drop_last(), ids) + if ids.contains(known.last().0) {
            Seq::empty()
        } else {
            seq![EventView::TabClosed { stable_id: known.last().0, position: known.last().1, name: known.last().2 }]
        }
    }
}

/// A moved event for each known tab at another position.
pub open spec fn moved_events(known: Seq<(u64, usize, Seq<char>)>, tabs: Seq<TabInfo>) -> Seq<EventView>
    decreases tabs.len(),
{
    if tabs.len() == 0 {
        Seq::empty()
    } else {
        moved_events(known, tabs.drop_last()) + match tab_index(known, tabs.last().stable_id) {
            Some(i) => if known[i].1 != tabs.last().position {
                seq![EventView::TabMoved {
                    stable_id: tabs.last().stable_id,
                    old_position: known[i].1,
                    new_position: tabs.last().position,
                    name: tabs.last().name@,
                }]
            } else {
                Seq::empty()
            },
            None => Seq::empty(),
        }
    }
}

/// The unfocused event of a tab that was active, with its last known
/// position and name (zero and empty when it was never seen).
pub open spec fn tab_unfocused(known: Seq<(u64, usize, Seq<char>)>, id: u64) -> EventView {
    match tab_index(known, id) {
        Some(i) => EventView::TabUnfocused { stable_id: id, position: known[i].1, name: known[i].2 },
        None => EventView::TabUnfocused { stable_id: id, position: 0, name: Seq::empty() },
    }
}

pub open spec fn tab_focused(tabs: Seq<TabInfo>, id: u64) -> Seq<EventView> {
    match first_tab(tabs, has_stable_id(id)) {
        Some(i) => seq![EventView::TabFocused { stable_id: id, position: tabs[i].position, name: tabs[i].name@ }],
        None => Seq::empty(),
    }
}

/// The events of a change of the active tab, compared by stable ID.
pub open spec fn tab_focus_events(v: StreamView, tabs: Seq<TabInfo>) -> Seq<EventView> {
    match (v.last_active_tab, active_stable_id(tabs)) {
        (Some(o), Some(n)) => if o != n { seq![tab_unfocused(v.known_tabs, o)] + tab_focused(tabs, n) } else { Seq::empty() },
        (Some(o), None) => seq![tab_unfocused(v.known_tabs, o)],
        (None, Some(n)) => tab_focused(tabs, n),
        (None, None) => Seq::empty(),
    }
}

/// Whether a tab update moves the active tab to another position.
pub open spec fn switches_tab(v: StreamView, tabs: Seq<TabInfo>) -> bool {
    active_position(tabs) is Some && active_position(tabs) != v.active_tab_position
}

/// The events of a tab update: created, closed and moved tabs, the tab focus
/// change, then the pane focus change a switch of the active tab implies.
pub open spec fn tab_update_events(v: StreamView, tabs: Seq<TabInfo>) -> Seq<EventView> {
    created_events(v.known_tabs, tabs) + closed_tab_events(v.known_tabs, tab_ids(tabs)) + moved_events(v.known_tabs, tabs)
        + tab_focus_events(v, tabs) + if switches_tab(v, tabs) {
            focus_change(v.last_focused_pane, focused_pane(v.snapshot, active_position(tabs)->Some_0))
        } else {
            Seq::empty()
        }
}

/// The state after recording the tabs.
pub open spec fn after_tab_state(v: StreamView, tabs: Seq<TabInfo>) -> StreamView {
    StreamView { known_tabs: tab_table(tabs), last_active_tab: active_stable_id(tabs), ..v }
}

/// The state after a tab update: a switch of the active tab recomputes the
/// focused pane from the snapshot of the last pane update.
pub open spec fn after_tab_update(v: StreamView, tabs: Seq<TabInfo>) -> StreamView {
    after_tab_state(if switches_tab(v, tabs) {
        StreamView {
            active_tab_position: active_position(tabs),
            last_focused_pane: focused_pane(v.snapshot, active_position(tabs)->Some_0),
            ..v
        }
    } else {
        v
    }, tabs)
}

// ---------------------------------------------------------------------------
// Delivery

pub open spec fn json_for(mode: SubscribeMode, e: EventView, panes: Seq<PaneInfo>) -> Seq<char> {
    match mode {
        SubscribeMode::Compact => compact_json(e),
        SubscribeMode::Full => full_json(e, panes),
    }
}

/// Whether a subscriber receives an event: it is active and its filter admits it.
pub open spec fn receives(s: SubscriberView, e: EventView) -> bool {
    match s.filter {
        Some(f) => filter_admits(f, e),
        None => false,
    }
}

/// What one event sends: a line to each subscriber that receives it, in
/// subscriber order.
pub open spec fn deliveries(subs: Seq<SubscriberView>, e: EventView, panes: Seq<PaneInfo>) -> Seq<(Seq<char>, Seq<char>)>
    decreases subs.len(),
{
    if subs.len() == 0 {
        Seq::empty()
    } else {
        deliveries(subs.drop_last(), e, panes) + if receives(subs.last(), e) {
            seq![(subs.last().pipe_id, json_for(subs.last().mode, e, panes))]
        } else {
            Seq::empty()
        }
    }
}

/// What a list of events sends, event by event.
pub open spec fn broadcast(subs: Seq<SubscriberView>, events: Seq<EventView>, panes: Seq<PaneInfo>) -> Seq<(Seq<char>, Seq<char>)>
    decreases events.len(),
{
    if events.len() == 0 {
        Seq::empty()
    } else {
        broadcast(subs, events.drop_last(), panes) + deliveries(subs, events.last(), panes)
    }
}

pub open spec fn pairs_view(v: Seq<(String, String)>) -> Seq<(Seq<char>, Seq<char>)> {
    v.map_values(|p: (String, String)| (p.0@, p.1@))
}

pub proof fn lemma_broadcast_no_subscribers(events: Seq<EventView>, panes: Seq<PaneInfo>)
    ensures
        broadcast(Seq::empty(), events, panes) == Seq::<(Seq<char>, Seq<char>)>::empty(),
    decreases events.len(),
{
    if events.len() > 0 {
        lemma_broadcast_no_subscribers(events.drop_last(), panes);
        assert(deliveries(Seq::empty(), events.last(), panes) == Seq::<(Seq<char>, Seq<char>)>::empty());
        assert(broadcast(Seq::empty(), events, panes) =~= Seq::<(Seq<char>, Seq<char>)>::empty());
    }
}


proof fn lemma_events_view_add(a: Seq<Event>, b: Seq<Event>)
    ensures
        events_view(a + b) == events_view(a) + events_view(b),
{
    assert(events_view(a + b) =~= events_view(a) + events_view(b));
}

fn snapshots_of(panes: &[PaneInfo]) -> (r: Vec<PaneFocusSnapshot>)
    ensures
        r@ == snapshots(panes@),
{
    let mut r: Vec<PaneFocusSnapshot> = Vec::new();
    let mut i: usize = 0;
    while i < panes.len()
        invariant
            i <= panes@.len(),
            r@.len() == i,
            forall|j: int| 0 <= j < i ==> #[trigger] r@[j] == snapshot_of(panes@[j]),
        decreases panes.len() - i,
    {
        let p = &panes[i];
        r.push(PaneFocusSnapshot {
            id: p.id,
            pane_type: p.pane_type(),
            is_focused: p.is_focused,
            is_floating: p.is_floating,
            is_suppressed: p.is_suppressed,
            tab_position: p.tab_position,
        });
        i = i + 1;
    }
    assert(r@ =~= snapshots(panes@));
    r
}

/// The focused pane of a tab in a snapshot.
fn focused_in(s: &[PaneFocusSnapshot], tab: usize) -> (r: Option<(u32, PaneType)>)
    ensures
        r == focused_pane(s@, tab),
{
    let mut tiled: Option<(u32, PaneType)> = None;
    let mut floating: Option<(u32, PaneType)> = None;
    let mut i: usize = 0;
    while i < s.len()
        invariant
            i <= s@.len(),
            tiled == last_candidate(s@.subrange(0, i as int), tab, false),
            floating == last_candidate(s@.subrange(0, i as int), tab, true),
        decreases s.len() - i,
    {
        assert(s@.subrange(0, i + 1).drop_last() =~= s@.subrange(0, i as int));
        assert(s@.subrange(0, i + 1).last() == s@[i as int]);
        let p = s[i];
        if p.tab_position == tab && p.is_focused && !p.is_suppressed {
            if p.is_floating {
                floating = Some((p.id, p.pane_type));
            } else {
                tiled = Some((p.id, p.pane_type));
            }
        }
        i = i + 1;
    }
    assert(s@.subrange(0, s@.len() as int) =~= s@);
    match floating {
        Some(k) => Some(k),
        None => tiled,
    }
}

fn focus_events(old: Option<(u32, PaneType)>, new: Option<(u32, PaneType)>) -> (r: Vec<Event>)
    ensures
        events_view(r@) == focus_change(old, new),
{
    let mut r: Vec<Event> = Vec::new();
    match (old, new) {
        (Some((oi, ot)), Some((ni, nt))) => {
            if oi != ni || ot != nt {
                r.push(Event::PaneUnfocused { pane_id: oi, pane_type: ot });
                r.push(Event::PaneFocused { pane_id: ni, pane_type: nt });
            }
        },
        (Some((oi, ot)), None) => r.push(Event::PaneUnfocused { pane_id: oi, pane_type: ot }),
        (None, Some((ni, nt))) => r.push(Event::PaneFocused { pane_id: ni, pane_type: nt }),
        (None, None) => {},
    }
    assert(events_view(r@) =~= focus_change(old, new));
    r
}

fn contains_key(v: &Vec<(u32, PaneType)>, k: (u32, PaneType)) -> (b: bool)
    ensures
        b == v@.contains(k),
{
    let mut i: usize = 0;
    while i < v.len()
        invariant
            i <= v@.len(),
            forall|j: int| 0 <= j < i ==> v@[j] != k,
        decreases v.len() - i,
    {
        let (a, t) = v[i];
        if a == k.0 && t == k.1 {
            assert(v@[i as int] == k);
            return true;
        }
        i = i + 1;
    }
    false
}

fn keys_of(panes: &[PaneInfo]) -> (r: Vec<(u32, PaneType)>)
    ensures
        r@ == pane_keys(panes@),
{
    let mut r: Vec<(u32, PaneType)> = Vec::new();
    let mut i: usize = 0;
    while i < panes.len()
        invariant
            i <= panes@.len(),
            r@.len() == i,
            forall|j: int| 0 <= j < i ==> #[trigger] r@[j] == pane_key(panes@[j]),
        decreases panes.len() - i,
    {
        r.push((panes[i].id, panes[i].pane_type()));
        i = i + 1;
    }
    assert(r@ =~= pane_keys(panes@));
    r
}

fn distinct_of(keys: &Vec<(u32, PaneType)>) -> (r: Vec<(u32, PaneType)>)
    ensures
        r@ == distinct_keys(keys@),
{
    let mut r: Vec<(u32, PaneType)> = Vec::new();
    let mut i: usize = 0;
    while i < keys.len()
        invariant
            i <= keys@.len(),
            r@ == distinct_keys(keys@.subrange(0, i as int)),
        decreases keys.len() - i,
    {
        assert(keys@.subrange(0, i + 1).drop_last() =~= keys@.subrange(0, i as int));
        assert(keys@.subrange(0, i + 1).last() == keys@[i as int]);
        if !contains_key(&r, keys[i]) {
            r.push(keys[i]);
        }
        i = i + 1;
    }
    assert(keys@.subrange(0, keys@.len() as int) =~= keys@);
    r
}

impl EventStream {
    fn opened_of(&self, panes: &[PaneInfo]) -> (r: Vec<Event>)
        ensures
            events_view(r@) == opened_events(self@.known_panes, panes@),
    {
        let mut r: Vec<Event> = Vec::new();
        let mut i: usize = 0;
        while i < panes.len()
            invariant
                i <= panes@.len(),
                events_view(r@) == opened_events(self@.known_panes, panes@.subrange(0, i as int)),
            decreases panes.len() - i,
        {
            assert(panes@.subrange(0, i + 1).drop_last() =~= panes@.subrange(0, i as int));
            assert(panes@.subrange(0, i + 1).last() == panes@[i as int]);
            let key = (panes[i].id, panes[i].pane_type());
            let ghost before = r@;
            if !contains_key(&self.known_panes, key) {
                r.push(Event::PaneOpened { pane_id: panes[i].id, pane_type: panes[i].pane_type(), is_floating: panes[i].is_floating });
                assert(events_view(r@) =~= events_view(before) + seq![events_view(r@).last()]);
            }
            assert(events_view(r@) =~= opened_events(self@.known_panes, panes@.subrange(0, i + 1)));
            i = i + 1;
        }
        assert(panes@.subrange(0, panes@.len() as int) =~= panes@);
        r
    }

    fn closed_of(&self, current: &Vec<(u32, PaneType)>) -> (r: Vec<Event>)
        ensures
            events_view(r@) == closed_events(self@.known_panes, current@),
    {
        let mut r: Vec<Event> = Vec::new();
        let mut i: usize = 0;
        while i < self.known_panes.len()
            invariant
                i <= self.known_panes@.len(),
                events_view(r@) == closed_events(self.known_panes@.subrange(0, i as int), current@),
            decreases self.known_panes.len() - i,
        {
            let ghost k = self.known_panes@;
            assert(k.subrange(0, i + 1).drop_last() =~= k.subrange(0, i as int));
            assert(k.subrange(0, i + 1).last() == k[i as int]);
            let (id, t) = self.known_panes[i];
            let ghost before = r@;
            if !contains_key(current, (id, t)) {
                r.push(Event::PaneClosed { pane_id: id, pane_type: t });
                assert(events_view(r@) =~= events_view(before) + seq![events_view(r@).last()]);
            }
            assert(events_view(r@) =~= closed_events(k.subrange(0, i + 1), current@));
            i = i + 1;
        }
        assert(self.known_panes@.subrange(0, self.known_panes@.len() as int) =~= self.known_panes@);
        r
    }

    fn pane_events(&self, panes: &[PaneInfo], snapshot: &Vec<PaneFocusSnapshot>, active_tab: usize) -> (r: Vec<Event>)
        requires
            snapshot@ == snapshots(panes@),
        ensures
            events_view(r@) == pane_update_events(self@, panes@, active_tab),
    {
        let mut events = self.opened_of(panes);
        let keys = keys_of(panes);
        let mut closed = self.closed_of(&keys);
        let ghost a = events@;
        let ghost b = closed@;
        events.append(&mut closed);
        proof { lemma_events_view_add(a, b); }
        let new_focused = focused_in(snapshot.as_slice(), active_tab);
        let mut focus = focus_events(self.last_focused_pane, new_focused);
        let ghost c = events@;
        let ghost d = focus@;
        events.append(&mut focus);
        proof { lemma_events_view_add(c, d); }
        events
    }

    fn record_panes(&mut self, panes: &[PaneInfo], snapshot: Vec<PaneFocusSnapshot>, active_tab: usize)
        requires
            snapshot@ == snapshots(panes@),
        ensures
            final(self)@ == after_pane_update(old(self)@, panes@, active_tab),
    {
        let keys = keys_of(panes);
        self.known_panes = distinct_of(&keys);
        self.last_focused_pane = focused_in(snapshot.as_slice(), active_tab);
        self.active_tab_position = Some(active_tab);
        self.pane_focus_snapshot = snapshot;
    }

    /// Record the panes of a manifest update without emitting events.
    pub fn update_pane_state(&mut self, panes: &[PaneInfo], active_tab: usize)
        ensures
            final(self)@ == after_pane_update(old(self)@, panes@, active_tab),
    {
        let snapshot = snapshots_of(panes);
        self.record_panes(panes, snapshot, active_tab);
    }
}

fn tab_table_of(tabs: &[TabInfo]) -> (r: Vec<KnownTab>)
    ensures
        tabs_table_view(r@) == tab_table(tabs@),
{
    let mut r: Vec<KnownTab> = Vec::new();
    let mut i: usize = 0;
    while i < tabs.len()
        invariant
            i <= tabs@.len(),
            tabs_table_view(r@) == tab_table(tabs@.subrange(0, i as int)),
        decreases tabs.len() - i,
    {
        assert(tabs@.subrange(0, i + 1).drop_last() =~= tabs@.subrange(0, i as int));
        assert(tabs@.subrange(0, i + 1).last() == tabs@[i as int]);
        let t = &tabs[i];
        let entry = KnownTab { stable_id: t.stable_id, position: t.position, name: t.name.clone() };
        let ghost before = tabs_table_view(r@);
        match table_find(&r, t.stable_id) {
            Some(j) => {
                r.set(j, entry);
                assert(tabs_table_view(r@) =~= before.update(j as int, tab_view(*t)));
            },
            None => {
                r.push(entry);
                assert(tabs_table_view(r@) =~= before.push(tab_view(*t)));
            },
        }
        i = i + 1;
    }
    assert(tabs@.subrange(0, tabs@.len() as int) =~= tabs@);
    r
}

fn first_active_index(tabs: &[TabInfo]) -> (r: Option<usize>)
    ensures
        match r {
            Some(i) => first_tab(tabs@, is_active_tab()) == Some(i as int) && i < tabs@.len(),
            None => first_tab(tabs@, is_active_tab()) is None,
        },
{
    proof { lemma_first_tab(tabs@, is_active_tab()); }
    let mut i: usize = 0;
    while i < tabs.len()
        invariant
            i <= tabs@.len(),
            forall|j: int| 0 <= j < i ==> !is_active_tab()(#[trigger] tabs@[j]),
            match first_tab(tabs@, is_active_tab()) {
                Some(k) => 0 <= k < tabs@.len() && is_active_tab()(tabs@[k])
                    && forall|j: int| 0 <= j < k ==> !is_active_tab()(#[trigger] tabs@[j]),
                None => forall|j: int| 0 <= j < tabs@.len() ==> !is_active_tab()(#[trigger] tabs@[j]),
            },
        decreases tabs.len() - i,
    {
        if tabs[i].active {
            assert(is_active_tab()(tabs@[i as int]));
            return Some(i);
        }
        i = i + 1;
    }
    None
}

fn first_id_index(tabs: &[TabInfo], id: u64) -> (r: Option<usize>)
    ensures
        match r {
            Some(i) => first_tab(tabs@, has_stable_id(id)) == Some(i as int) && i < tabs@.len(),
            None => first_tab(tabs@, has_stable_id(id)) is None,
        },
{
    proof { lemma_first_tab(tabs@, has_stable_id(id)); }
    let mut i: usize = 0;
    while i < tabs.len()
        invariant
            i <= tabs@.len(),
            forall|j: int| 0 <= j < i ==> !has_stable_id(id)(#[trigger] tabs@[j]),
            match first_tab(tabs@, has_stable_id(id)) {
                Some(k) => 0 <= k < tabs@.len() && has_stable_id(id)(tabs@[k])
                    && forall|j: int| 0 <= j < k ==> !has_stable_id(id)(#[trigger] tabs@[j]),
                None => forall|j: int| 0 <= j < tabs@.len() ==> !has_stable_id(id)(#[trigger] tabs@[j]),
            },
        decreases tabs.len() - i,
    {
        if tabs[i].stable_id == id {
            assert(has_stable_id(id)(tabs@[i as int]));
            return Some(i);
        }
        i = i + 1;
    }
    None
}

fn ids_of(tabs: &[TabInfo]) -> (r: Vec<u64>)
    ensures
        r@ == tab_ids(tabs@),
{
    let mut r: Vec<u64> = Vec::new();
    let mut i: usize = 0;
    while i < tabs.len()
        invariant
            i <= tabs@.len(),
            r@.len() == i,
            forall|j: int| 0 <= j < i ==> #[trigger] r@[j] == tabs@[j].stable_id,
        decreases tabs.len() - i,
    {
        r.push(tabs[i].stable_id);
        i = i + 1;
    }
    assert(r@ =~= tab_ids(tabs@));
    r
}

fn contains_stable_id(v: &Vec<u64>, k: u64) -> (b: bool)
    ensures
        b == v@.contains(k),
{
    let mut i: usize = 0;
    while i < v.len()
        invariant
            i <= v@.len(),
            forall|j: int| 0 <= j < i ==> v@[j] != k,
        decreases v.len() - i,
    {
        if v[i] == k {
            return true;
        }
        i = i + 1;
    }
    false
}

fn tab_focused_events(tabs: &[TabInfo], id: u64) -> (r: Vec<Event>)
    ensures
        events_view(r@) == tab_focused(tabs@, id),
{
    let mut r: Vec<Event> = Vec::new();
    match first_id_index(tabs, id) {
        Some(i) => r.push(Event::TabFocused { stable_id: id, position: tabs[i].position, name: tabs[i].name.clone() }),
        None => {},
    }
    assert(events_view(r@) =~= tab_focused(tabs@, id));
    r
}

impl EventStream {
    fn created_of(&self, tabs: &[TabInfo]) -> (r: Vec<Event>)
        ensures
            events_view(r@) == created_events(self@.known_tabs, tabs@),
    {
        let mut r: Vec<Event> = Vec::new();
        let mut i: usize = 0;
        while i < tabs.len()
            invariant
                i <= tabs@.len(),
                events_view(r@) == created_events(self@.known_tabs, tabs@.subrange(0, i as int)),
            decreases tabs.len() - i,
        {
            assert(tabs@.subrange(0, i + 1).drop_last() =~= tabs@.subrange(0, i as int));
            assert(tabs@.subrange(0, i + 1).last() == tabs@[i as int]);
            let t = &tabs[i];
            let ghost before = r@;
            if self.find_tab(t.stable_id).is_none() {
                r.push(Event::TabCreated { stable_id: t.stable_id, position: t.position, name: t.name.clone() });
                assert(events_view(r@) =~= events_view(before) + seq![events_view(r@).last()]);
            }
            assert(events_view(r@) =~= created_events(self@.known_tabs, tabs@.subrange(0, i + 1)));
            i = i + 1;
        }
        assert(tabs@.subrange(0, tabs@.len() as int) =~= tabs@);
        r
    }

    fn closed_tabs_of(&self, ids: &Vec<u64>) -> (r: Vec<Event>)
        ensures
            events_view(r@) == closed_tab_events(self@.known_tabs, ids@),
    {
        let ghost k = self@.known_tabs;
        let mut r: Vec<Event> = Vec::new();
        let mut i: usize = 0;
        while i < self.known_tabs.len()
            invariant
                i <= self.known_tabs@.len(),
                k == tabs_table_view(self.known_tabs@),
                events_view(r@) == closed_tab_events(k.subrange(0, i as int), ids@),
            decreases self.known_tabs.len() - i,
        {
            assert(k.subrange(0, i + 1).drop_last() =~= k.subrange(0, i as int));
            assert(k.subrange(0, i + 1).last() == k[i as int]);
            assert(k[i as int] == known_tab_view(self.known_tabs@[i as int]));
            let t = &self.known_tabs[i];
            let ghost before = r@;
            if !contains_stable_id(ids, t.stable_id) {
                r.push(Event::TabClosed { stable_id: t.stable_id, position: t.position, name: t.name.clone() });
                assert(events_view(r@) =~= events_view(before) + seq![events_view(r@).last()]);
            }
            assert(events_view(r@) =~= closed_tab_events(k.subrange(0, i + 1), ids@));
            i = i + 1;
        }
        assert(k.subrange(0, k.len() as int) =~= k);
        r
    }

    fn moved_of(&self, tabs: &[TabInfo]) -> (r: Vec<Event>)
        ensures
            events_view(r@) == moved_events(self@.known_tabs, tabs@),
    {
        let mut r: Vec<Event> = Vec::new();
        let mut i: usize = 0;
        while i < tabs.len()
            invariant
                i <= tabs@.len(),
                events_view(r@) == moved_events(self@.known_tabs, tabs@.subrange(0, i as int)),
            decreases tabs.len() - i,
        {
            assert(tabs@.subrange(0, i + 1).drop_last() =~= tabs@.subrange(0, i as int));
            assert(tabs@.subrange(0, i + 1).last() == tabs@[i as int]);
            let t = &tabs[i];
            let ghost before = r@;
            match self.find_tab(t.stable_id) {
                Some(j) => {
                    let old_position = self.known_tabs[j].position;
                    if old_position != t.position {
                        r.push(Event::TabMoved {
                            stable_id: t.stable_id,
                            old_position,
                            new_position: t.position,
                            name: t.name.clone(),
                        });
                        assert(events_view(r@) =~= events_view(before) + seq![events_view(r@).last()]);
                    }
                },
                None => {},
            }
            assert(events_view(r@) =~= moved_events(self@.known_tabs, tabs@.subrange(0, i + 1)));
            i = i + 1;
        }
        assert(tabs@.subrange(0, tabs@.len() as int) =~= tabs@);
        r
    }

    fn unfocused_event(&self, id: u64) -> (e: Event)
        ensures
            e@ == tab_unfocused(self@.known_tabs, id),
    {
        match self.find_tab(id) {
            Some(j) => Event::TabUnfocused {
                stable_id: id,
                position: self.known_tabs[j].position,
                name: self.known_tabs[j].name.clone(),
            },
            None => Event::TabUnfocused { stable_id: id, position: 0, name: String::new() },
        }
    }

    fn tab_focus_of(&self, tabs: &[TabInfo]) -> (r: Vec<Event>)
        ensures
            events_view(r@) == tab_focus_events(self@, tabs@),
    {
        let new_active = match first_active_index(tabs) {
            Some(i) => Some(tabs[i].stable_id),
            None => None,
        };
        let mut r: Vec<Event> = Vec::new();
        match (self.last_active_tab, new_active) {
            (Some(o), Some(n)) => {
                if o != n {
                    r.push(self.unfocused_event(o));
                    let mut f = tab_focused_events(tabs, n);
                    let ghost a = r@;
                    let ghost b = f@;
                    r.append(&mut f);
                    proof { lemma_events_view_add(a, b); }
                }
            },
            (Some(o), None) => r.push(self.unfocused_event(o)),
            (None, Some(n)) => {
                r = tab_focused_events(tabs, n);
            },
            (None, None) => {},
        }
        assert(events_view(r@) =~= tab_focus_events(self@, tabs@));
        r
    }

    fn tab_events(&self, tabs: &[TabInfo]) -> (r: Vec<Event>)
        ensures
            events_view(r@) == created_events(self@.known_tabs, tabs@) + closed_tab_events(self@.known_tabs, tab_ids(tabs@))
                + moved_events(self@.known_tabs, tabs@) + tab_focus_events(self@, tabs@),
    {
        let mut events = self.created_of(tabs);
        let ids = ids_of(tabs);
        let mut closed = self.closed_tabs_of(&ids);
        let ghost a = events@;
        let ghost b = closed@;
        events.append(&mut closed);
        proof { lemma_events_view_add(a, b); }
        let mut moved = self.moved_of(tabs);
        let ghost c = events@;
        let ghost d = moved@;
        events.append(&mut moved);
        proof { lemma_events_view_add(c, d); }
        let mut focus = self.tab_focus_of(tabs);
        let ghost e = events@;
        let ghost f = focus@;
        events.append(&mut focus);
        proof { lemma_events_view_add(e, f); }
        events
    }

    /// Record the tabs of a manifest update without emitting events.
    pub fn update_tab_state(&mut self, tabs: &[TabInfo])
        ensures
            final(self)@ == after_tab_state(old(self)@, tabs@),
    {
        self.known_tabs = tab_table_of(tabs);
        self.last_active_tab = match first_active_index(tabs) {
            Some(i) => Some(tabs[i].stable_id),
            None => None,
        };
    }

    /// The lines that a list of events sends to the subscribers.
    fn broadcast_events(&self, events: &Vec<Event>, panes: &[PaneInfo]) -> (r: Vec<(String, String)>)
        ensures
            pairs_view(r@) == broadcast(self@.subscribers, events_view(events@), panes@),
    {
        let ghost subs = self@.subscribers;
        let ghost evs = events_view(events@);
        let no_tabs: Vec<TabInfo> = Vec::new();
        let mut out: Vec<(String, String)> = Vec::new();
        let mut i: usize = 0;
        while i < events.len()
            invariant
                i <= events@.len(),
                subs == self@.subscribers,
                evs == events_view(events@),
                pairs_view(out@) == broadcast(subs, evs.subrange(0, i as int), panes@),
            decreases events.len() - i,
        {
            let e = &events[i];
            assert(evs.subrange(0, i + 1).drop_last() =~= evs.subrange(0, i as int));
            assert(evs.subrange(0, i + 1).last() == e@);
            let compact = e.to_json();
            let full = e.to_full_json(panes, no_tabs.as_slice());
            let ghost start = pairs_view(out@);
            let mut j: usize = 0;
            while j < self.subscribers.len()
                invariant
                    j <= self.subscribers@.len(),
                    subs == self@.subscribers,
                    subs.len() == self.subscribers@.len(),
                    compact@ == compact_json(e@),
                    full@ == full_json(e@, panes@),
                    pairs_view(out@) == start + deliveries(subs.subrange(0, j as int), e@, panes@),
                decreases self.subscribers.len() - j,
            {
                assert(subs.subrange(0, j + 1).drop_last() =~= subs.subrange(0, j as int));
                assert(subs.subrange(0, j + 1).last() == subs[j as int]);
                assert(subs[j as int] == self.subscribers@[j as int]@);
                let sub = &self.subscribers[j];
                let ghost before = pairs_view(out@);
                match &sub.filter {
                    Some(f) => {
                        if f.matches(e) {
                            let json = match sub.mode {
                                SubscribeMode::Compact => compact.clone(),
                                SubscribeMode::Full => full.clone(),
                            };
                            out.push((sub.pipe_id.clone(), json));
                            assert(pairs_view(out@) =~= before + seq![(subs[j as int].pipe_id, json_for(subs[j as int].mode, e@, panes@))]);
                        }
                    },
                    None => {},
                }
                assert(pairs_view(out@) =~= start + deliveries(subs.subrange(0, j + 1), e@, panes@));
                j = j + 1;
            }
            assert(subs.subrange(0, subs.len() as int) =~= subs);
            assert(pairs_view(out@) =~= broadcast(subs, evs.subrange(0, i + 1), panes@));
            i = i + 1;
        }
        assert(evs.subrange(0, evs.len() as int) =~= evs);
        out
    }

    /// Process a pane update: record the panes and return, for each
    /// subscriber that receives them, the lines of the events it implies.
    pub fn on_pane_update(&mut self, panes: &[PaneInfo], active_tab: usize) -> (r: Vec<(String, String)>)
        ensures
            final(self)@ == after_pane_update(old(self)@, panes@, active_tab),
            pairs_view(r@) == broadcast(old(self)@.subscribers, pane_update_events(old(self)@, panes@, active_tab), panes@),
    {
        let snapshot = snapshots_of(panes);
        if !self.has_subscribers() {
            self.record_panes(panes, snapshot, active_tab);
            proof { lemma_broadcast_no_subscribers(pane_update_events(old(self)@, panes@, active_tab), panes@); }
            let r: Vec<(String, String)> = Vec::new();
            assert(pairs_view(r@) =~= Seq::<(Seq<char>, Seq<char>)>::empty());
            assert(old(self)@.subscribers =~= Seq::<SubscriberView>::empty());
            return r;
        }
        let events = self.pane_events(panes, &snapshot, active_tab);
        self.record_panes(panes, snapshot, active_tab);
        self.broadcast_events(&events, panes)
    }

    /// Process a tab update: record the tabs, recompute the focused pane when
    /// the active tab moved, and return the lines of the events it implies.
    pub fn on_tab_update(&mut self, tabs: &[TabInfo]) -> (r: Vec<(String, String)>)
        ensures
            final(self)@ == after_tab_update(old(self)@, tabs@),
            pairs_view(r@) == broadcast(old(self)@.subscribers, tab_update_events(old(self)@, tabs@), Seq::empty()),
    {
        let new_position = match first_active_index(tabs) {
            Some(i) => Some(tabs[i].position),
            None => None,
        };
        let switched = match (new_position, self.active_tab_position) {
            (Some(p), Some(q)) => p != q,
            (Some(_), None) => true,
            (None, _) => false,
        };
        assert(switched == switches_tab(old(self)@, tabs@));
        let subscribed = self.has_subscribers();
        let mut events: Vec<Event> = Vec::new();
        if subscribed {
            events = self.tab_events(tabs);
        }
        if switched {
            let p = match new_position { Some(p) => p, None => 0 };
            let focused = focused_in(self.pane_focus_snapshot.as_slice(), p);
            if subscribed {
                let mut more = focus_events(self.last_focused_pane, focused);
                let ghost a = events@;
                let ghost b = more@;
                events.append(&mut more);
                proof { lemma_events_view_add(a, b); }
            }
            self.active_tab_position = Some(p);
            self.last_focused_pane = focused;
        }
        self.update_tab_state(tabs);
        let no_panes: Vec<PaneInfo> = Vec::new();
        assert(no_panes@ =~= Seq::<PaneInfo>::empty());
        if !subscribed {
            proof { lemma_broadcast_no_subscribers(tab_update_events(old(self)@, tabs@), Seq::empty()); }
            assert(old(self)@.subscribers =~= Seq::<SubscriberView>::empty());
            let r: Vec<(String, String)> = Vec::new();
            assert(pairs_view(r@) =~= Seq::<(Seq<char>, Seq<char>)>::empty());
            return r;
        }
        assert(events_view(events@) =~= tab_update_events(old(self)@, tabs@));
        self.broadcast_events(&events, no_panes.as_slice())
    }
}

// ---------------------------------------------------------------------------
// Laws

proof fn lemma_distinct_keys_contains(ks: Seq<(u32, PaneType)>, x: (u32, PaneType))
    ensures
        distinct_keys(ks).contains(x) <==> ks.contains(x),
    decreases ks.len(),
{
    if ks.len() > 0 {
        lemma_distinct_keys_contains(ks.drop_last(), x);
        let d = distinct_keys(ks.drop_last());
        if ks.contains(x) {
            let j = choose|j: int| 0 <= j < ks.len() && ks[j] == x;
            if j < ks.len() - 1 {
                assert(ks.drop_last()[j] == x);
            }
        }
        if ks.drop_last().contains(x) {
            let j = choose|j: int| 0 <= j < ks.len() - 1 && ks.drop_last()[j] == x;
            assert(ks[j] == x);
        }
        if !d.contains(ks.last()) {
            assert(d.push(ks.last())[d.len() as int] == ks.last());
            if d.push(ks.last()).contains(x) {
                let j = choose|j: int| 0 <= j < d.len() + 1 && d.push(ks.last())[j] == x;
                if j < d.len() {
                    assert(d[j] == x);
                }
            }
            if d.contains(x) {
                let j = choose|j: int| 0 <= j < d.len() && d[j] == x;
                assert(d.push(ks.last())[j] == x);
            }
        }
    }
}

proof fn lemma_opened_none(known: Seq<(u32, PaneType)>, panes: Seq<PaneInfo>)
    requires
        forall|j: int| 0 <= j < panes.len() ==> known.contains(pane_key(#[trigger] panes[j])),
    ensures
        opened_events(known, panes) == Seq::<EventView>::empty(),
    decreases panes.len(),
{
    if panes.len() > 0 {
        assert forall|j: int| 0 <= j < panes.drop_last().len() implies known.contains(pane_key(#[trigger] panes.drop_last()[j])) by {
            assert(panes.drop_last()[j] == panes[j]);
        }
        lemma_opened_none(known, panes.drop_last());
        assert(known.contains(pane_key(panes[panes.len() - 1])));
        assert(opened_events(known, panes) =~= Seq::<EventView>::empty());
    }
}

proof fn lemma_closed_none(known: Seq<(u32, PaneType)>, current: Seq<(u32, PaneType)>)
    requires
        forall|j: int| 0 <= j < known.len() ==> current.contains(#[trigger] known[j]),
    ensures
        closed_events(known, current) == Seq::<EventView>::empty(),
    decreases known.len(),
{
    if known.len() > 0 {
        assert forall|j: int| 0 <= j < known.drop_last().len() implies current.contains(#[trigger] known.drop_last()[j]) by {
            assert(known.drop_last()[j] == known[j]);
        }
        lemma_closed_none(known.drop_last(), current);
        assert(current.contains(known[known.len() - 1]));
        assert(closed_events(known, current) =~= Seq::<EventView>::empty());
    }
}

/// A pane update that repeats the last one emits nothing: no pane is opened
/// or closed and the focus stays where it is.
pub proof fn law_repeated_pane_update_is_quiet(v: StreamView, panes: Seq<PaneInfo>, active_tab: usize)
    ensures
        pane_update_events(after_pane_update(v, panes, active_tab), panes, active_tab) == Seq::<EventView>::empty(),
{
    let w = after_pane_update(v, panes, active_tab);
    let keys = pane_keys(panes);
    assert forall|j: int| 0 <= j < panes.len() implies w.known_panes.contains(pane_key(#[trigger] panes[j])) by {
        assert(keys[j] == pane_key(panes[j]));
        assert(keys.contains(keys[j]));
        lemma_distinct_keys_contains(keys, keys[j]);
    }
    lemma_opened_none(w.known_panes, panes);
    assert forall|j: int| 0 <= j < w.known_panes.len() implies keys.contains(#[trigger] w.known_panes[j]) by {
        assert(w.known_panes.contains(w.known_panes[j]));
        lemma_distinct_keys_contains(keys, w.known_panes[j]);
    }
    lemma_closed_none(w.known_panes, keys);
    assert(focus_change(w.last_focused_pane, focused_pane(snapshots(panes), active_tab)) =~= Seq::<EventView>::empty());
    assert(pane_update_events(w, panes, active_tab) =~= Seq::<EventView>::empty());
}

pub open spec fn distinct_stable_ids(tabs: Seq<TabInfo>) -> bool {
    forall|i: int, j: int| 0 <= i < j < tabs.len() ==> #[trigger] tabs[i].stable_id != #[trigger] tabs[j].stable_id
}

proof fn lemma_tab_table_distinct(tabs: Seq<TabInfo>)
    requires
        distinct_stable_ids(tabs),
    ensures
        tab_table(tabs) == tabs.map_values(|t: TabInfo| tab_view(t)),
    decreases tabs.len(),
{
    if tabs.len() > 0 {
        let init = tabs.drop_last();
        assert(distinct_stable_ids(init)) by {
            assert forall|i: int, j: int| 0 <= i < j < init.len() implies #[trigger] init[i].stable_id != #[trigger] init[j].stable_id by {
                assert(init[i] == tabs[i]);
                assert(init[j] == tabs[j]);
            }
        }
        lemma_tab_table_distinct(init);
        let t = init.map_values(|t: TabInfo| tab_view(t));
        lemma_tab_index(t, tabs.last().stable_id);
        match tab_index(t, tabs.last().stable_id) {
            Some(i) => {
                assert(t[i].0 == init[i].stable_id);
                assert(tabs[i].stable_id != tabs[tabs.len() - 1].stable_id);
                assert(false);
            },
            None => {},
        }
        assert(tab_table(tabs) =~= tabs.map_values(|t: TabInfo| tab_view(t)));
    }
}

proof fn lemma_created_none(known: Seq<(u64, usize, Seq<char>)>, tabs: Seq<TabInfo>)
    requires
        forall|j: int| 0 <= j < tabs.len() ==> tab_index(known, #[trigger] tabs[j].stable_id) is Some,
    ensures
        created_events(known, tabs) == Seq::<EventView>::empty(),
    decreases tabs.len(),
{
    if tabs.len() > 0 {
        assert forall|j: int| 0 <= j < tabs.drop_last().len() implies tab_index(known, #[trigger] tabs.drop_last()[j].stable_id) is Some by {
            assert(tabs.drop_last()[j] == tabs[j]);
        }
        lemma_created_none(known, tabs.drop_last());
        assert(tab_index(known, tabs[tabs.len() - 1].stable_id) is Some);
        assert(created_events(known, tabs) =~= Seq::<EventView>::empty());
    }
}

proof fn lemma_closed_tabs_none(known: Seq<(u64, usize, Seq<char>)>, ids: Seq<u64>)
    requires
        forall|j: int| 0 <= j < known.len() ==> ids.contains(#[trigger] known[j].0),
    ensures
        closed_tab_events(known, ids) == Seq::<EventView>::empty(),
    decreases known.len(),
{
    if known.len() > 0 {
        assert forall|j: int| 0 <= j < known.drop_last().len() implies ids.contains(#[trigger] known.drop_last()[j].0) by {
            assert(known.drop_last()[j] == known[j]);
        }
        lemma_closed_tabs_none(known.drop_last(), ids);
        assert(ids.contains(known[known.len() - 1].0));
        assert(closed_tab_events(known, ids) =~= Seq::<EventView>::empty());
    }
}

proof fn lemma_moved_none(known: Seq<(u64, usize, Seq<char>)>, tabs: Seq<TabInfo>)
    requires
        forall|j: int| 0 <= j < tabs.len() ==> match tab_index(known, #[trigger] tabs[j].stable_id) {
            Some(i) => known[i].1 == tabs[j].position,
            None => true,
        },
    ensures
        moved_events(known, tabs) == Seq::<EventView>::empty(),
    decreases tabs.len(),
{
    if tabs.len() > 0 {
        assert forall|j: int| 0 <= j < tabs.drop_last().len() implies match tab_index(known, #[trigger] tabs.drop_last()[j].stable_id) {
            Some(i) => known[i].1 == tabs.drop_last()[j].position,
            None => true,
        } by {
            assert(tabs.drop_last()[j] == tabs[j]);
        }
        lemma_moved_none(known, tabs.drop_last());
        let x = tabs[tabs.len() - 1];
        assert(match tab_index(known, x.stable_id) { Some(i) => known[i].1 == x.position, None => true });
        assert(moved_events(known, tabs) =~= Seq::<EventView>::empty());
    }
}

/// A tab update that repeats the last one emits nothing, provided its tabs
/// have distinct stable IDs: no tab is created, closed or moved, and neither
/// the active tab nor the focused pane changes.
pub proof fn law_repeated_tab_update_is_quiet(v: StreamView, tabs: Seq<TabInfo>)
    requires
        distinct_stable_ids(tabs),
    ensures
        tab_update_events(after_tab_update(v, tabs), tabs) == Seq::<EventView>::empty(),
{
    let w = after_tab_update(v, tabs);
    let table = tab_table(tabs);
    lemma_tab_table_distinct(tabs);
    assert(table.len() == tabs.len());
    assert forall|j: int| 0 <= j < tabs.len() implies tab_index(table, #[trigger] tabs[j].stable_id) == Some(j) by {
        lemma_tab_index(table, tabs[j].stable_id);
        assert(table[j].0 == tabs[j].stable_id);
        match tab_index(table, tabs[j].stable_id) {
            Some(i) => {
                if i < j {
                    assert(table[i].0 == tabs[i].stable_id);
                    assert(tabs[i].stable_id != tabs[j].stable_id);
                }
            },
            None => {},
        }
    }
    lemma_created_none(table, tabs);
    assert forall|j: int| 0 <= j < table.len() implies tab_ids(tabs).contains(#[trigger] table[j].0) by {
        assert(tab_ids(tabs)[j] == tabs[j].stable_id);
    }
    lemma_closed_tabs_none(table, tab_ids(tabs));
    lemma_moved_none(table, tabs);
    assert(tab_focus_events(w, tabs) =~= Seq::<EventView>::empty());
    assert(!switches_tab(w, tabs));
    assert(tab_update_events(w, tabs) =~= Seq::<EventView>::empty());
}

/// Whether the pipe belongs to an active subscriber.
pub open spec fn active_pipe(subs: Seq<SubscriberView>, p: Seq<char>) -> bool {
    exists|i: int| 0 <= i < subs.len() && (#[trigger] subs[i]).filter is Some && subs[i].pipe_id == p
}

/// Whether every line is addressed to an active subscriber.
pub open spec fn all_to_active(subs: Seq<SubscriberView>, lines: Seq<(Seq<char>, Seq<char>)>) -> bool {
    forall|k: int| 0 <= k < lines.len() ==> active_pipe(subs, (#[trigger] lines[k]).0)
}

/// Only active subscribers receive lines: every line of a broadcast is
/// addressed to a subscriber whose init is done.
pub proof fn law_only_active_subscribers_receive(subs: Seq<SubscriberView>, events: Seq<EventView>, panes: Seq<PaneInfo>)
    ensures
        all_to_active(subs, broadcast(subs, events, panes)),
    decreases events.len(),
{
    if events.len() > 0 {
        law_only_active_subscribers_receive(subs, events.drop_last(), panes);
        lemma_deliveries_active(subs, events.last(), panes);
        let a = broadcast(subs, events.drop_last(), panes);
        let b = deliveries(subs, events.last(), panes);
        let all = broadcast(subs, events, panes);
        assert forall|k: int| 0 <= k < all.len() implies active_pipe(subs, (#[trigger] all[k]).0) by {
            if k < a.len() {
                assert(all[k] == a[k]);
            } else {
                assert(all[k] == b[k - a.len()]);
            }
        }
    }
}

proof fn lemma_deliveries_active(subs: Seq<SubscriberView>, e: EventView, panes: Seq<PaneInfo>)
    ensures
        all_to_active(subs, deliveries(subs, e, panes)),
    decreases subs.len(),
{
    if subs.len() > 0 {
        let init = subs.drop_last();
        lemma_deliveries_active(init, e, panes);
        let d = deliveries(init, e, panes);
        let all = deliveries(subs, e, panes);
        assert forall|k: int| 0 <= k < all.len() implies active_pipe(subs, (#[trigger] all[k]).0) by {
            if k < d.len() {
                assert(all[k] == d[k]);
                assert(active_pipe(init, d[k].0));
                let i = choose|i: int| 0 <= i < init.len() && (#[trigger] init[i]).filter is Some && init[i].pipe_id == d[k].0;
                assert(subs[i] == init[i]);
            } else {
                assert(all[k].0 == subs[subs.len() - 1].pipe_id);
                assert(subs[subs.len() - 1].filter is Some);
            }
        }
    }
}

proof fn lemma_kept_contains(subs: Seq<SubscriberView>, threshold: u64, i: int)
    requires
        0 <= i < subs.len(),
        subs[i].last_heartbeat >= threshold,
    ensures
        kept_subscribers(subs, threshold).contains(subs[i]),
    decreases subs.len(),
{
    let k = kept_subscribers(subs, threshold);
    if i == subs.len() - 1 {
        assert(k[k.len() - 1] == subs[i]);
    } else {
        lemma_kept_contains(subs.drop_last(), threshold, i);
        let d = kept_subscribers(subs.drop_last(), threshold);
        let j = choose|j: int| 0 <= j < d.len() && d[j] == subs.drop_last()[i];
        assert(k[j] == d[j]);
    }
}

/// A subscriber survives the pruning that follows its heartbeat, whatever
/// number of missed ticks the pruning allows.
pub proof fn law_heartbeat_protects_from_pruning(v: StreamView, pipe: Seq<char>, max_missed: u64)
    requires
        v.heartbeat_counter < u64::MAX,
        sub_index(v.subscribers, pipe) is Some,
    ensures
        ({
            let i = sub_index(v.subscribers, pipe)->Some_0;
            let c = (v.heartbeat_counter + 1) as u64;
            let subs = v.subscribers.update(i, SubscriberView { last_heartbeat: c, ..v.subscribers[i] });
            exists|j: int| 0 <= j < kept_subscribers(subs, saturating_sub(c, max_missed)).len()
                && #[trigger] kept_subscribers(subs, saturating_sub(c, max_missed))[j].pipe_id == pipe
        }),
{
    lemma_sub_index(v.subscribers, pipe);
    let i = sub_index(v.subscribers, pipe)->Some_0;
    let c = (v.heartbeat_counter + 1) as u64;
    let subs = v.subscribers.update(i, SubscriberView { last_heartbeat: c, ..v.subscribers[i] });
    lemma_kept_contains(subs, saturating_sub(c, max_missed), i);
    let k = kept_subscribers(subs, saturating_sub(c, max_missed));
    let j = choose|j: int| 0 <= j < k.len() && k[j] == subs[i];
    assert(k[j].pipe_id == pipe);
}

proof fn lemma_upsert_finds(subs: Seq<SubscriberView>, s: SubscriberView)
    ensures
        sub_index(upsert(subs, s), s.pipe_id) matches Some(i) && upsert(subs, s)[i] == s,
{
    lemma_sub_index(subs, s.pipe_id);
    let u = upsert(subs, s);
    lemma_sub_index(u, s.pipe_id);
    match sub_index(subs, s.pipe_id) {
        Some(i) => {
            assert(u[i] == s);
            match sub_index(u, s.pipe_id) {
                Some(k) => {
                    if k < i { assert(u[k] == subs[k]); }
                    if k > i { assert(u[i].pipe_id == s.pipe_id); }
                },
                None => { assert(u[i].pipe_id == s.pipe_id); },
            }
        },
        None => {
            assert(u[subs.len() as int] == s);
            match sub_index(u, s.pipe_id) {
                Some(k) => {
                    if k < subs.len() { assert(u[k] == subs[k]); }
                },
                None => { assert(u[subs.len() as int].pipe_id == s.pipe_id); },
            }
        },
    }
}

/// A subscribe makes the pipe active and a pending subscribe makes it
/// pending, whatever was registered for the pipe before.
pub proof fn law_subscribe_sets_state(v: StreamView, pipe: Seq<char>, mode: SubscribeMode)
    ensures
        is_active_in(with_subscribers(v, upsert(v.subscribers, SubscriberView {
            pipe_id: pipe, mode, last_heartbeat: v.heartbeat_counter,
            filter: Some(FilterView { kinds: None, panes: None, tabs: None }) })), pipe),
        is_pending_in(with_subscribers(v, upsert(v.subscribers, SubscriberView {
            pipe_id: pipe, mode, last_heartbeat: v.heartbeat_counter, filter: None })), pipe),
{
    lemma_upsert_finds(v.subscribers, SubscriberView {
        pipe_id: pipe, mode, last_heartbeat: v.heartbeat_counter,
        filter: Some(FilterView { kinds: None, panes: None, tabs: None }) });
    lemma_upsert_finds(v.subscribers, SubscriberView {
        pipe_id: pipe, mode, last_heartbeat: v.heartbeat_counter, filter: None });
}
} // verus!
