//! What to send to zjstatus: the desired value of every enabled output, the
//! deltas against what was submitted before, clears for outputs that went
//! away, and forced replays.

use vstd::prelude::*;
use crate::pane_statuses::{snapshot_view, PaneStatusSnapshot};
use crate::scratchpad::status::{ScratchpadStatusItem, ScratchpadStatusSnapshot};
use crate::text::{decimal, str_equals};
use crate::zjstatus::config::{distinct_outputs, key_view, OutputKey, ZjstatusConfig};
use crate::zjstatus::markup::{sanitize_pipe, sanitize_tab};
use crate::zjstatus::pane::{render_pane_spec, render_pane_status};
use crate::zjstatus::render::{
    name_less, render, render_spec, should_publish_empty, text_lt, zjstatus_payload, zjstatus_tab_payload,
    OutputConfig, OutputSource,
};

verus! {

/// The destination of a published value: a global pipe, or a field of one tab.
#[derive(Debug, Clone, PartialEq, Eq)]
pub enum PublishedKey {
    Global(String),
    Tab(usize, String),
}

/// A destination as a number and a name: `-1` for a global pipe, else the tab ID.
pub open spec fn pkey_view(k: PublishedKey) -> (int, Seq<char>) {
    match k {
        PublishedKey::Global(n) => (-1int, n@),
        PublishedKey::Tab(id, f) => (id as int, f@),
    }
}

/// The order of destinations: global pipes first, then by tab ID, then by name.
pub open spec fn pkey_lt(a: (int, Seq<char>), b: (int, Seq<char>)) -> bool {
    a.0 < b.0 || (a.0 == b.0 && text_lt(a.1, b.1))
}

pub open spec fn keys_view(v: Seq<PublishedKey>) -> Seq<(int, Seq<char>)> {
    v.map_values(|k: PublishedKey| pkey_view(k))
}

pub open spec fn entries_view(v: Seq<(PublishedKey, String)>) -> Seq<((int, Seq<char>), Seq<char>)> {
    v.map_values(|e: (PublishedKey, String)| (pkey_view(e.0), e.1@))
}

/// The first entry with a given destination.
pub open spec fn entry_index(s: Seq<((int, Seq<char>), Seq<char>)>, k: (int, Seq<char>)) -> Option<int>
    decreases s.len(),
{
    if s.len() == 0 {
        None
    } else {
        match entry_index(s.drop_last(), k) {
            Some(i) => Some(i),
            None => if s.last().0 == k { Some(s.len() - 1) } else { None },
        }
    }
}

/// The value recorded for a destination.
pub open spec fn lookup(s: Seq<((int, Seq<char>), Seq<char>)>, k: (int, Seq<char>)) -> Option<Seq<char>> {
    match entry_index(s, k) {
        Some(i) => Some(s[i].1),
        None => None,
    }
}

/// Insert an entry in destination order, after every entry that is not greater.
pub open spec fn insert_entry(s: Seq<((int, Seq<char>), Seq<char>)>, k: (int, Seq<char>), v: Seq<char>) -> Seq<((int, Seq<char>), Seq<char>)>
    decreases s.len(),
{
    if s.len() == 0 {
        seq![(k, v)]
    } else if pkey_lt(k, s.last().0) {
        insert_entry(s.drop_last(), k, v).push(s.last())
    } else {
        s.push((k, v))
    }
}

/// Set the value of a destination, in place if it is recorded.
pub open spec fn put(s: Seq<((int, Seq<char>), Seq<char>)>, k: (int, Seq<char>), v: Seq<char>) -> Seq<((int, Seq<char>), Seq<char>)> {
    match entry_index(s, k) {
        Some(i) => s.update(i, (k, v)),
        None => insert_entry(s, k, v),
    }
}

/// Insert a destination in order, after every destination that is not greater.
pub open spec fn insert_key(s: Seq<(int, Seq<char>)>, k: (int, Seq<char>)) -> Seq<(int, Seq<char>)>
    decreases s.len(),
{
    if s.len() == 0 {
        seq![k]
    } else if pkey_lt(k, s.last()) {
        insert_key(s.drop_last(), k).push(s.last())
    } else {
        s.push(k)
    }
}

pub open spec fn tabs_view(v: Seq<(usize, Vec<ScratchpadStatusItem>)>) -> Seq<(usize, Seq<ScratchpadStatusItem>)> {
    v.map_values(|e: (usize, Vec<ScratchpadStatusItem>)| (e.0, e.1@))
}

/// Whether a tab ID is among the live tabs.
pub open spec fn has_tab(tabs: Seq<(usize, Seq<ScratchpadStatusItem>)>, id: int) -> bool {
    exists|i: int| 0 <= i < tabs.len() && tabs[i].0 == id
}

/// Whether an output with nothing to show still publishes its empty value.
pub open spec fn publishes_empty(c: OutputConfig) -> bool {
    c.source == OutputSource::PaneStatus || sanitize_pipe(c.empty_format@).len() > 0
}

/// What is wanted at the destinations: the values, the global destinations
/// that keep their last value without sending it, and the global
/// destinations fed by pane status.
pub struct DesiredView {
    pub entries: Seq<((int, Seq<char>), Seq<char>)>,
    pub skipped: Seq<(int, Seq<char>)>,
    pub globals: Seq<(int, Seq<char>)>,
}

/// The rendering of a global output.
pub open spec fn global_value(c: OutputConfig, snapshot: ScratchpadStatusSnapshot, panes: (Option<usize>, Seq<(usize, Seq<crate::pane_statuses::ItemView>)>)) -> Seq<char> {
    match c.source {
        OutputSource::Scratchpad => render_spec(c, snapshot, None),
        OutputSource::PaneStatus => render_pane_spec(c, panes, None),
    }
}

/// The rendering of a tab output for one tab.
pub open spec fn tab_value(
    c: OutputConfig,
    snapshot: ScratchpadStatusSnapshot,
    panes: (Option<usize>, Seq<(usize, Seq<crate::pane_statuses::ItemView>)>),
    id: usize,
    items: Seq<ScratchpadStatusItem>,
) -> Seq<char> {
    match c.source {
        OutputSource::Scratchpad => render_spec(c, snapshot, Some(items)),
        OutputSource::PaneStatus => render_pane_spec(c, panes, Some(id)),
    }
}

/// A global output's step: an empty rendering that is not published keeps
/// the last submitted value (unsent), unless pane status fed the destination
/// before, in which case it is dropped.
pub open spec fn global_step(
    st: DesiredView,
    c: OutputConfig,
    name: Seq<char>,
    snapshot: ScratchpadStatusSnapshot,
    panes: (Option<usize>, Seq<(usize, Seq<crate::pane_statuses::ItemView>)>),
    published: Seq<((int, Seq<char>), Seq<char>)>,
    old_globals: Seq<(int, Seq<char>)>,
) -> DesiredView {
    let key = (-1int, name);
    let globals = if c.source == OutputSource::PaneStatus { st.globals.push(key) } else { st.globals };
    let value = global_value(c, snapshot, panes);
    if value.len() == 0 && !publishes_empty(c) {
        if old_globals.contains(key) {
            DesiredView { entries: st.entries, skipped: st.skipped, globals }
        } else {
            match lookup(published, key) {
                Some(prev) => DesiredView { entries: put(st.entries, key, prev), skipped: st.skipped.push(key), globals },
                None => DesiredView { entries: st.entries, skipped: st.skipped, globals },
            }
        }
    } else {
        DesiredView { entries: put(st.entries, key, value), skipped: st.skipped, globals }
    }
}

/// A tab output's values, one per live tab, in tab order.
pub open spec fn tab_entries(
    d: Seq<((int, Seq<char>), Seq<char>)>,
    c: OutputConfig,
    field: Seq<char>,
    snapshot: ScratchpadStatusSnapshot,
    panes: (Option<usize>, Seq<(usize, Seq<crate::pane_statuses::ItemView>)>),
    tabs: Seq<(usize, Seq<ScratchpadStatusItem>)>,
) -> Seq<((int, Seq<char>), Seq<char>)>
    decreases tabs.len(),
{
    if tabs.len() == 0 {
        d
    } else {
        let prev = tab_entries(d, c, field, snapshot, panes, tabs.drop_last());
        let (id, items) = tabs.last();
        put(prev, (id as int, field), tab_value(c, snapshot, panes, id, items))
    }
}

/// The desired state over the enabled outputs, in configuration order.
pub open spec fn desired_spec(
    outs: Seq<(OutputKey, OutputConfig)>,
    snapshot: ScratchpadStatusSnapshot,
    tabs: Seq<(usize, Seq<ScratchpadStatusItem>)>,
    panes: (Option<usize>, Seq<(usize, Seq<crate::pane_statuses::ItemView>)>),
    published: Seq<((int, Seq<char>), Seq<char>)>,
    old_globals: Seq<(int, Seq<char>)>,
) -> DesiredView
    decreases outs.len(),
{
    if outs.len() == 0 {
        DesiredView { entries: Seq::empty(), skipped: Seq::empty(), globals: Seq::empty() }
    } else {
        let st = desired_spec(outs.drop_last(), snapshot, tabs, panes, published, old_globals);
        let (key, c) = outs.last();
        if !c.enabled {
            st
        } else {
            match key {
                OutputKey::Global(n) => global_step(st, c, n@, snapshot, panes, published, old_globals),
                OutputKey::Tab(f) => DesiredView {
                    entries: tab_entries(st.entries, c, f@, snapshot, panes, tabs),
                    skipped: st.skipped,
                    globals: st.globals,
                },
            }
        }
    }
}

/// A destination stays tracked while it is global or its tab is live.
pub open spec fn is_live(k: (int, Seq<char>), tabs: Seq<(usize, Seq<ScratchpadStatusItem>)>) -> bool {
    k.0 < 0 || has_tab(tabs, k.0)
}

/// The retired destinations that stay retired: live and not desired again.
pub open spec fn kept_retired(
    r: Seq<(int, Seq<char>)>,
    tabs: Seq<(usize, Seq<ScratchpadStatusItem>)>,
    desired: Seq<((int, Seq<char>), Seq<char>)>,
) -> Seq<(int, Seq<char>)>
    decreases r.len(),
{
    if r.len() == 0 {
        Seq::empty()
    } else {
        let rest = kept_retired(r.drop_last(), tabs, desired);
        let k = r.last();
        if is_live(k, tabs) && lookup(desired, k) is None { rest.push(k) } else { rest }
    }
}

/// Whether a previously submitted destination is cleared when it is no longer
/// desired: a global one only if pane status fed it, a tab one while its tab lives.
pub open spec fn clears(k: (int, Seq<char>), tabs: Seq<(usize, Seq<ScratchpadStatusItem>)>, old_globals: Seq<(int, Seq<char>)>) -> bool {
    if k.0 < 0 { old_globals.contains(k) } else { has_tab(tabs, k.0) }
}

/// Walk the previous submissions in order; each newly retired destination is
/// added to the retired set and cleared. Gives the retired set and the
/// destinations cleared, in order.
pub open spec fn clear_pass(
    published: Seq<((int, Seq<char>), Seq<char>)>,
    retired: Seq<(int, Seq<char>)>,
    tabs: Seq<(usize, Seq<ScratchpadStatusItem>)>,
    desired: Seq<((int, Seq<char>), Seq<char>)>,
    old_globals: Seq<(int, Seq<char>)>,
) -> (Seq<(int, Seq<char>)>, Seq<(int, Seq<char>)>)
    decreases published.len(),
{
    if published.len() == 0 {
        (retired, Seq::empty())
    } else {
        let (r, c) = clear_pass(published.drop_last(), retired, tabs, desired, old_globals);
        let k = published.last().0;
        if clears(k, tabs, old_globals) && lookup(desired, k) is None && !r.contains(k) {
            (insert_key(r, k), c.push(k))
        } else {
            (r, c)
        }
    }
}

/// The protocol message that sets a destination to a value.
pub open spec fn command_text(k: (int, Seq<char>), v: Seq<char>) -> Seq<char> {
    if k.0 < 0 {
        "zjstatus::pipe::pipe_"@ + k.1 + "::"@ + v
    } else {
        "zjstatus::tab_pipe::"@ + decimal(k.0 as nat) + "::"@ + k.1 + "::"@ + sanitize_tab(v)
    }
}

/// Clears of the given destinations.
pub open spec fn clear_texts(ks: Seq<(int, Seq<char>)>) -> Seq<Seq<char>> {
    ks.map_values(|k: (int, Seq<char>)| command_text(k, Seq::empty()))
}

/// The desired values to send: every one on a forced replay, else those that
/// changed; never a skipped global.
pub open spec fn update_texts(
    desired: Seq<((int, Seq<char>), Seq<char>)>,
    skipped: Seq<(int, Seq<char>)>,
    published: Seq<((int, Seq<char>), Seq<char>)>,
    force: bool,
) -> Seq<Seq<char>>
    decreases desired.len(),
{
    if desired.len() == 0 {
        Seq::empty()
    } else {
        let rest = update_texts(desired.drop_last(), skipped, published, force);
        let (k, v) = desired.last();
        if !skipped.contains(k) && (force || lookup(published, k) != Some(v)) {
            rest.push(command_text(k, v))
        } else {
            rest
        }
    }
}

/// What the publisher keeps between calls.
pub struct PublisherView {
    pub published: Seq<((int, Seq<char>), Seq<char>)>,
    pub globals: Seq<(int, Seq<char>)>,
    pub retired: Seq<(int, Seq<char>)>,
}

/// One publication: the commands to send and the state after.
pub open spec fn publish_spec(
    s: PublisherView,
    outs: Seq<(OutputKey, OutputConfig)>,
    snapshot: ScratchpadStatusSnapshot,
    tabs: Seq<(usize, Seq<ScratchpadStatusItem>)>,
    panes: (Option<usize>, Seq<(usize, Seq<crate::pane_statuses::ItemView>)>),
    force: bool,
) -> (Seq<Seq<char>>, PublisherView) {
    let d = desired_spec(outs, snapshot, tabs, panes, s.published, s.globals);
    let kept = kept_retired(s.retired, tabs, d.entries);
    let (retired, cleared) = clear_pass(s.published, kept, tabs, d.entries, s.globals);
    let cmds = if force {
        clear_texts(retired) + update_texts(d.entries, d.skipped, s.published, true)
    } else {
        clear_texts(cleared) + update_texts(d.entries, d.skipped, s.published, false)
    };
    (cmds, PublisherView { published: d.entries, globals: d.globals, retired })
}

/// Tracks the values submitted to zjstatus (not their delivery), the global
/// outputs fed by pane status, and the destinations retired since.
#[derive(Debug, Default)]
pub struct Publisher {
    /// Submitted values, in destination order.
    published: Vec<(PublishedKey, String)>,
    pane_status_globals: Vec<PublishedKey>,
    /// Retired destinations, in destination order.
    retired: Vec<PublishedKey>,
}

impl View for Publisher {
    type V = PublisherView;

    closed spec fn view(&self) -> PublisherView {
        PublisherView {
            published: entries_view(self.published@),
            globals: keys_view(self.pane_status_globals@),
            retired: keys_view(self.retired@),
        }
    }
}

pub proof fn lemma_entry_index(s: Seq<((int, Seq<char>), Seq<char>)>, k: (int, Seq<char>))
    ensures
        match entry_index(s, k) {
            Some(i) => 0 <= i < s.len() && s[i].0 == k && forall|j: int| 0 <= j < i ==> #[trigger] s[j].0 != k,
            None => forall|j: int| 0 <= j < s.len() ==> #[trigger] s[j].0 != k,
        },
    decreases s.len(),
{
    if s.len() > 0 {
        lemma_entry_index(s.drop_last(), k);
        assert forall|j: int| 0 <= j < s.len() - 1 implies #[trigger] s[j] == s.drop_last()[j] by {}
    }
}

fn clone_key(k: &PublishedKey) -> (r: PublishedKey)
    ensures
        pkey_view(r) == pkey_view(*k),
{
    match k {
        PublishedKey::Global(n) => PublishedKey::Global(n.clone()),
        PublishedKey::Tab(id, f) => PublishedKey::Tab(*id, f.clone()),
    }
}

fn key_equal(a: &PublishedKey, b: &PublishedKey) -> (r: bool)
    ensures
        r == (pkey_view(*a) == pkey_view(*b)),
{
    match (a, b) {
        (PublishedKey::Global(x), PublishedKey::Global(y)) => str_equals(x.as_str(), y.as_str()),
        (PublishedKey::Tab(i, x), PublishedKey::Tab(j, y)) => *i == *j && str_equals(x.as_str(), y.as_str()),
        _ => false,
    }
}

fn key_less(a: &PublishedKey, b: &PublishedKey) -> (r: bool)
    ensures
        r == pkey_lt(pkey_view(*a), pkey_view(*b)),
{
    match (a, b) {
        (PublishedKey::Global(x), PublishedKey::Global(y)) => name_less(x.as_str(), y.as_str()),
        (PublishedKey::Global(_), PublishedKey::Tab(_, _)) => true,
        (PublishedKey::Tab(_, _), PublishedKey::Global(_)) => false,
        (PublishedKey::Tab(i, x), PublishedKey::Tab(j, y)) => *i < *j || (*i == *j && name_less(x.as_str(), y.as_str())),
    }
}

fn find_entry(v: &Vec<(PublishedKey, String)>, k: &PublishedKey) -> (r: Option<usize>)
    ensures
        match r {
            Some(i) => entry_index(entries_view(v@), pkey_view(*k)) == Some(i as int) && i < v@.len(),
            None => entry_index(entries_view(v@), pkey_view(*k)) is None,
        },
{
    let ghost s = entries_view(v@);
    let ghost kv = pkey_view(*k);
    proof { lemma_entry_index(s, kv); }
    let mut i: usize = 0;
    while i < v.len()
        invariant
            i <= v@.len(),
            s == entries_view(v@),
            kv == pkey_view(*k),
            s.len() == v@.len(),
            forall|j: int| 0 <= j < i ==> #[trigger] s[j].0 != kv,
            match entry_index(s, kv) {
                Some(m) => 0 <= m < s.len() && s[m].0 == kv && forall|j: int| 0 <= j < m ==> #[trigger] s[j].0 != kv,
                None => forall|j: int| 0 <= j < s.len() ==> #[trigger] s[j].0 != kv,
            },
        decreases v.len() - i,
    {
        assert(s[i as int].0 == pkey_view(v@[i as int].0));
        if key_equal(&v[i].0, k) {
            proof {
                match entry_index(s, kv) {
                    Some(m) => {
                        if m < i { assert(s[m].0 != kv); }
                        if m > i { assert(s[i as int].0 != kv); }
                    },
                    None => { assert(s[i as int].0 != kv); },
                }
            }
            return Some(i);
        }
        i = i + 1;
    }
    None
}

/// Where `insert_entry` puts a new entry: after the last entry not greater.
fn insert_position(v: &Vec<(PublishedKey, String)>, k: &PublishedKey, value: String) -> (r: Vec<(PublishedKey, String)>)
    ensures
        entries_view(r@) == insert_entry(entries_view(v@), pkey_view(*k), value@),
    decreases v@.len(),
{
    let ghost s = entries_view(v@);
    let n = v.len();
    if n == 0 {
        let mut r: Vec<(PublishedKey, String)> = Vec::new();
        r.push((clone_key(k), value));
        assert(entries_view(r@) =~= seq![(pkey_view(*k), value@)]);
        return r;
    }
    assert(s.last() == (pkey_view(v@[n - 1].0), v@[n - 1].1@));
    if key_less(k, &v[n - 1].0) {
        let mut front: Vec<(PublishedKey, String)> = Vec::new();
        let mut i: usize = 0;
        while i < n - 1
            invariant
                n == v@.len(),
                n > 0,
                i <= n - 1,
                entries_view(front@) == entries_view(v@).subrange(0, i as int),
            decreases n - 1 - i,
        {
            let ghost before = entries_view(front@);
            front.push((clone_key(&v[i].0), v[i].1.clone()));
            assert(entries_view(front@) =~= before.push(entries_view(v@)[i as int]));
            assert(entries_view(v@).subrange(0, i + 1) =~= entries_view(v@).subrange(0, i as int).push(entries_view(v@)[i as int]));
            i = i + 1;
        }
        assert(entries_view(front@) =~= s.drop_last());
        let mut r = insert_position(&front, k, value);
        let ghost mid = entries_view(r@);
        r.push((clone_key(&v[n - 1].0), v[n - 1].1.clone()));
        assert(entries_view(r@) =~= mid.push(s.last()));
        r
    } else {
        let mut r: Vec<(PublishedKey, String)> = Vec::new();
        let mut i: usize = 0;
        while i < n
            invariant
                n == v@.len(),
                i <= n,
                entries_view(r@) == entries_view(v@).subrange(0, i as int),
            decreases n - i,
        {
            let ghost before = entries_view(r@);
            r.push((clone_key(&v[i].0), v[i].1.clone()));
            assert(entries_view(r@) =~= before.push(entries_view(v@)[i as int]));
            assert(entries_view(v@).subrange(0, i + 1) =~= entries_view(v@).subrange(0, i as int).push(entries_view(v@)[i as int]));
            i = i + 1;
        }
        assert(entries_view(v@).subrange(0, n as int) =~= s);
        let ghost before = entries_view(r@);
        r.push((clone_key(k), value));
        assert(entries_view(r@) =~= before.push((pkey_view(*k), value@)));
        r
    }
}

/// Set a destination's value, in place if recorded, else in order.
fn put_entry(v: &mut Vec<(PublishedKey, String)>, k: &PublishedKey, value: String)
    ensures
        entries_view(final(v)@) == put(entries_view(old(v)@), pkey_view(*k), value@),
{
    match find_entry(v, k) {
        Some(i) => {
            let ghost before = entries_view(v@);
            v.set(i, (clone_key(k), value));
            assert(entries_view(v@) =~= before.update(i as int, (pkey_view(*k), value@)));
        },
        None => {
            let r = insert_position(v, k, value);
            *v = r;
        },
    }
}

fn get_value(v: &Vec<(PublishedKey, String)>, k: &PublishedKey) -> (r: Option<String>)
    ensures
        match r {
            Some(s) => lookup(entries_view(v@), pkey_view(*k)) == Some(s@),
            None => lookup(entries_view(v@), pkey_view(*k)) is None,
        },
{
    match find_entry(v, k) {
        Some(i) => {
            assert(entries_view(v@)[i as int].1 == v@[i as int].1@);
            Some(v[i].1.clone())
        },
        None => None,
    }
}

fn has_key(v: &Vec<PublishedKey>, k: &PublishedKey) -> (b: bool)
    ensures
        b == keys_view(v@).contains(pkey_view(*k)),
{
    let ghost s = keys_view(v@);
    let mut i: usize = 0;
    while i < v.len()
        invariant
            i <= v@.len(),
            s == keys_view(v@),
            s.len() == v@.len(),
            forall|j: int| 0 <= j < i ==> #[trigger] s[j] != pkey_view(*k),
        decreases v.len() - i,
    {
        assert(s[i as int] == pkey_view(v@[i as int]));
        if key_equal(&v[i], k) {
            assert(s[i as int] == pkey_view(*k));
            return true;
        }
        i = i + 1;
    }
    false
}

/// Insert a destination in order, after the last one not greater.
fn insert_key_sorted(v: &Vec<PublishedKey>, k: &PublishedKey) -> (r: Vec<PublishedKey>)
    ensures
        keys_view(r@) == insert_key(keys_view(v@), pkey_view(*k)),
    decreases v@.len(),
{
    let ghost s = keys_view(v@);
    let n = v.len();
    if n == 0 {
        let mut r: Vec<PublishedKey> = Vec::new();
        r.push(clone_key(k));
        assert(keys_view(r@) =~= seq![pkey_view(*k)]);
        return r;
    }
    assert(s.last() == pkey_view(v@[n - 1]));
    let mut front: Vec<PublishedKey> = Vec::new();
    let mut i: usize = 0;
    while i < n - 1
        invariant
            n == v@.len(),
            n > 0,
            i <= n - 1,
            keys_view(front@) == keys_view(v@).subrange(0, i as int),
        decreases n - 1 - i,
    {
        let ghost before = keys_view(front@);
        front.push(clone_key(&v[i]));
        assert(keys_view(front@) =~= before.push(keys_view(v@)[i as int]));
        assert(keys_view(v@).subrange(0, i + 1) =~= keys_view(v@).subrange(0, i as int).push(keys_view(v@)[i as int]));
        i = i + 1;
    }
    assert(keys_view(front@) =~= s.drop_last());
    if key_less(k, &v[n - 1]) {
        let mut r = insert_key_sorted(&front, k);
        let ghost mid = keys_view(r@);
        r.push(clone_key(&v[n - 1]));
        assert(keys_view(r@) =~= mid.push(s.last()));
        r
    } else {
        let ghost before = keys_view(front@);
        front.push(clone_key(&v[n - 1]));
        assert(keys_view(front@) =~= before.push(s.last()));
        assert(s.drop_last().push(s.last()) =~= s);
        assert(keys_view(front@) =~= s);
        front.push(clone_key(k));
        assert(keys_view(front@) =~= s.push(pkey_view(*k)));
        front
    }
}

fn command_of(k: &PublishedKey, value: &str) -> (r: String)
    ensures
        r@ == command_text(pkey_view(*k), value@),
{
    match k {
        PublishedKey::Global(name) => zjstatus_payload(name.as_str(), value),
        PublishedKey::Tab(id, field) => zjstatus_tab_payload(*id, field.as_str(), value),
    }
}


pub open spec fn strings_view(v: Seq<String>) -> Seq<Seq<char>> {
    v.map_values(|s: String| s@)
}

/// The outputs of an optional configuration.
pub open spec fn outputs_of(config: Option<&ZjstatusConfig>) -> Seq<(OutputKey, OutputConfig)> {
    match config {
        Some(c) => c.outputs@,
        None => Seq::empty(),
    }
}

fn has_tab_id(tab_items: &[(usize, Vec<ScratchpadStatusItem>)], id: usize) -> (b: bool)
    ensures
        b == has_tab(tabs_view(tab_items@), id as int),
{
    let ghost t = tabs_view(tab_items@);
    let mut i: usize = 0;
    while i < tab_items.len()
        invariant
            i <= tab_items@.len(),
            t == tabs_view(tab_items@),
            t.len() == tab_items@.len(),
            forall|j: int| 0 <= j < i ==> #[trigger] t[j].0 != id,
        decreases tab_items.len() - i,
    {
        assert(t[i as int].0 == tab_items@[i as int].0);
        if tab_items[i].0 == id {
            return true;
        }
        i = i + 1;
    }
    false
}

impl Publisher {
    /// Nothing submitted, nothing retired.
    pub fn new() -> (p: Publisher)
        ensures
            p@.published == Seq::<((int, Seq<char>), Seq<char>)>::empty(),
            p@.globals == Seq::<(int, Seq<char>)>::empty(),
            p@.retired == Seq::<(int, Seq<char>)>::empty(),
    {
        let p = Publisher { published: Vec::new(), pane_status_globals: Vec::new(), retired: Vec::new() };
        assert(p@.published =~= Seq::<((int, Seq<char>), Seq<char>)>::empty());
        assert(p@.globals =~= Seq::<(int, Seq<char>)>::empty());
        assert(p@.retired =~= Seq::<(int, Seq<char>)>::empty());
        p
    }

    /// Whether retired clears still need periodic replay, even when every
    /// output is disabled.
    pub fn has_retired(&self) -> (b: bool)
        ensures
            b == (self@.retired.len() > 0),
    {
        self.retired.len() > 0
    }

    /// The destinations with a submitted value, in destination order.
    pub fn published_keys(&self) -> (r: Vec<PublishedKey>)
        ensures
            keys_view(r@) == self@.published.map_values(|e: ((int, Seq<char>), Seq<char>)| e.0),
    {
        let mut r: Vec<PublishedKey> = Vec::new();
        let mut i: usize = 0;
        while i < self.published.len()
            invariant
                i <= self.published@.len(),
                keys_view(r@) == entries_view(self.published@).subrange(0, i as int).map_values(|e: ((int, Seq<char>), Seq<char>)| e.0),
            decreases self.published.len() - i,
        {
            let ghost before = keys_view(r@);
            r.push(clone_key(&self.published[i].0));
            assert(keys_view(r@) =~= before.push(pkey_view(self.published@[i as int].0)));
            assert(entries_view(self.published@).subrange(0, i + 1).map_values(|e: ((int, Seq<char>), Seq<char>)| e.0)
                =~= entries_view(self.published@).subrange(0, i as int).map_values(|e: ((int, Seq<char>), Seq<char>)| e.0)
                    .push(pkey_view(self.published@[i as int].0)));
            i = i + 1;
        }
        assert(entries_view(self.published@).subrange(0, self.published@.len() as int) =~= entries_view(self.published@));
        r
    }

    /// The retired destinations, in destination order.
    pub fn retired_keys(&self) -> (r: Vec<PublishedKey>)
        ensures
            keys_view(r@) == self@.retired,
    {
        let mut r: Vec<PublishedKey> = Vec::new();
        let mut i: usize = 0;
        while i < self.retired.len()
            invariant
                i <= self.retired@.len(),
                keys_view(r@) == keys_view(self.retired@).subrange(0, i as int),
            decreases self.retired.len() - i,
        {
            let ghost before = keys_view(r@);
            r.push(clone_key(&self.retired[i]));
            assert(keys_view(r@) =~= before.push(pkey_view(self.retired@[i as int])));
            assert(keys_view(self.retired@).subrange(0, i + 1) =~= keys_view(self.retired@).subrange(0, i as int).push(pkey_view(self.retired@[i as int])));
            i = i + 1;
        }
        assert(keys_view(self.retired@).subrange(0, self.retired@.len() as int) =~= keys_view(self.retired@));
        r
    }

    fn tab_desired(
        entries: &mut Vec<(PublishedKey, String)>,
        c: &OutputConfig,
        field: &String,
        snapshot: &ScratchpadStatusSnapshot,
        tab_items: &[(usize, Vec<ScratchpadStatusItem>)],
        panes: &PaneStatusSnapshot,
    )
        ensures
            entries_view(final(entries)@) == tab_entries(entries_view(old(entries)@), *c, field@, *snapshot,
                snapshot_view(*panes), tabs_view(tab_items@)),
    {
        let ghost base = entries_view(entries@);
        let ghost t = tabs_view(tab_items@);
        let mut j: usize = 0;
        while j < tab_items.len()
            invariant
                j <= tab_items@.len(),
                t == tabs_view(tab_items@),
                t.len() == tab_items@.len(),
                entries_view(entries@) == tab_entries(base, *c, field@, *snapshot, snapshot_view(*panes), t.subrange(0, j as int)),
            decreases tab_items.len() - j,
        {
            assert(t.subrange(0, j + 1).drop_last() =~= t.subrange(0, j as int));
            assert(t.subrange(0, j + 1).last() == (tab_items@[j as int].0, tab_items@[j as int].1@));
            let id = tab_items[j].0;
            let value = match c.source {
                OutputSource::Scratchpad => render(c, snapshot, Some(tab_items[j].1.as_slice())),
                OutputSource::PaneStatus => render_pane_status(c, panes, Some(id)),
            };
            let key = PublishedKey::Tab(id, field.clone());
            put_entry(entries, &key, value);
            j = j + 1;
        }
        assert(t.subrange(0, t.len() as int) =~= t);
    }

    fn desired_of(
        &self,
        outs: &Vec<(OutputKey, OutputConfig)>,
        snapshot: &ScratchpadStatusSnapshot,
        tab_items: &[(usize, Vec<ScratchpadStatusItem>)],
        panes: &PaneStatusSnapshot,
    ) -> (r: (Vec<(PublishedKey, String)>, Vec<PublishedKey>, Vec<PublishedKey>))
        ensures
            (DesiredView { entries: entries_view(r.0@), skipped: keys_view(r.1@), globals: keys_view(r.2@) })
                == desired_spec(outs@, *snapshot, tabs_view(tab_items@), snapshot_view(*panes), self@.published, self@.globals),
    {
        let ghost tv = tabs_view(tab_items@);
        let ghost pv = snapshot_view(*panes);
        let mut entries: Vec<(PublishedKey, String)> = Vec::new();
        let mut skipped: Vec<PublishedKey> = Vec::new();
        let mut globals: Vec<PublishedKey> = Vec::new();
        assert(entries_view(entries@) =~= Seq::<((int, Seq<char>), Seq<char>)>::empty());
        assert(keys_view(skipped@) =~= Seq::<(int, Seq<char>)>::empty());
        assert(keys_view(globals@) =~= Seq::<(int, Seq<char>)>::empty());
        let mut i: usize = 0;
        while i < outs.len()
            invariant
                i <= outs@.len(),
                tv == tabs_view(tab_items@),
                pv == snapshot_view(*panes),
                (DesiredView { entries: entries_view(entries@), skipped: keys_view(skipped@), globals: keys_view(globals@) })
                    == desired_spec(outs@.subrange(0, i as int), *snapshot, tv, pv, self@.published, self@.globals),
            decreases outs.len() - i,
        {
            assert(outs@.subrange(0, i + 1).drop_last() =~= outs@.subrange(0, i as int));
            assert(outs@.subrange(0, i + 1).last() == outs@[i as int]);
            let c = &outs[i].1;
            if c.enabled {
                match &outs[i].0 {
                    OutputKey::Global(name) => {
                        let key = PublishedKey::Global(name.clone());
                        let ghost kv = (-1int, name@);
                        let ghost g0 = keys_view(globals@);
                        let pane_source = match c.source {
                            OutputSource::PaneStatus => true,
                            OutputSource::Scratchpad => false,
                        };
                        if pane_source {
                            globals.push(clone_key(&key));
                            assert(keys_view(globals@) =~= g0.push(kv));
                        }
                        let value = match c.source {
                            OutputSource::Scratchpad => render(c, snapshot, None),
                            OutputSource::PaneStatus => render_pane_status(c, panes, None),
                        };
                        if value.as_str().is_empty() && !should_publish_empty(c) {
                            if has_key(&self.pane_status_globals, &key) {
                            } else {
                                match get_value(&self.published, &key) {
                                    Some(prev) => {
                                        let ghost s0 = keys_view(skipped@);
                                        put_entry(&mut entries, &key, prev);
                                        skipped.push(key);
                                        assert(keys_view(skipped@) =~= s0.push(kv));
                                    },
                                    None => {},
                                }
                            }
                        } else {
                            put_entry(&mut entries, &key, value);
                        }
                    },
                    OutputKey::Tab(field) => {
                        Self::tab_desired(&mut entries, c, field, snapshot, tab_items, panes);
                    },
                }
            }
            i = i + 1;
        }
        assert(outs@.subrange(0, outs@.len() as int) =~= outs@);
        (entries, skipped, globals)
    }

    /// Compute what to send: with `force`, every retired clear and every
    /// desired value; otherwise clears of destinations that just went away
    /// and the desired values that changed. Records the desired values as
    /// submitted, whether or not delivery succeeds.
    pub fn commands(
        &mut self,
        config: Option<&ZjstatusConfig>,
        snapshot: &ScratchpadStatusSnapshot,
        tab_items: &[(usize, Vec<ScratchpadStatusItem>)],
        pane_statuses: &PaneStatusSnapshot,
        force: bool,
    ) -> (r: Vec<String>)
        ensures
            strings_view(r@) == publish_spec(old(self)@, outputs_of(config), *snapshot, tabs_view(tab_items@),
                snapshot_view(*pane_statuses), force).0,
            final(self)@ == publish_spec(old(self)@, outputs_of(config), *snapshot, tabs_view(tab_items@),
                snapshot_view(*pane_statuses), force).1,
    {
        let ghost tv = tabs_view(tab_items@);
        let no_outputs: Vec<(OutputKey, OutputConfig)> = Vec::new();
        let outs = match config {
            Some(c) => &c.outputs,
            None => &no_outputs,
        };
        assert(outs@ == outputs_of(config));
        let (entries, skipped, globals) = self.desired_of(outs, snapshot, tab_items, pane_statuses);
        let ghost d = entries_view(entries@);

        let mut kept: Vec<PublishedKey> = Vec::new();
        let ghost old_retired = keys_view(self.retired@);
        assert(keys_view(kept@) =~= Seq::<(int, Seq<char>)>::empty());
        let mut i: usize = 0;
        while i < self.retired.len()
            invariant
                i <= self.retired@.len(),
                old_retired == keys_view(self.retired@),
                old_retired.len() == self.retired@.len(),
                tv == tabs_view(tab_items@),
                d == entries_view(entries@),
                keys_view(kept@) == kept_retired(old_retired.subrange(0, i as int), tv, d),
            decreases self.retired.len() - i,
        {
            assert(old_retired.subrange(0, i + 1).drop_last() =~= old_retired.subrange(0, i as int));
            assert(old_retired.subrange(0, i + 1).last() == pkey_view(self.retired@[i as int]));
            let k = &self.retired[i];
            let live = match k {
                PublishedKey::Global(_) => true,
                PublishedKey::Tab(id, _) => has_tab_id(tab_items, *id),
            };
            if live && get_value(&entries, k).is_none() {
                let ghost before = keys_view(kept@);
                kept.push(clone_key(k));
                assert(keys_view(kept@) =~= before.push(pkey_view(*k)));
            }
            i = i + 1;
        }
        assert(old_retired.subrange(0, old_retired.len() as int) =~= old_retired);

        let ghost kept_v = keys_view(kept@);
        let ghost pubs = entries_view(self.published@);
        let ghost old_globals = keys_view(self.pane_status_globals@);
        let mut retired = kept;
        let mut cleared: Vec<PublishedKey> = Vec::new();
        assert(keys_view(cleared@) =~= Seq::<(int, Seq<char>)>::empty());
        let mut i: usize = 0;
        while i < self.published.len()
            invariant
                i <= self.published@.len(),
                pubs == entries_view(self.published@),
                pubs.len() == self.published@.len(),
                old_globals == keys_view(self.pane_status_globals@),
                tv == tabs_view(tab_items@),
                d == entries_view(entries@),
                (keys_view(retired@), keys_view(cleared@)) == clear_pass(pubs.subrange(0, i as int), kept_v, tv, d, old_globals),
            decreases self.published.len() - i,
        {
            assert(pubs.subrange(0, i + 1).drop_last() =~= pubs.subrange(0, i as int));
            assert(pubs.subrange(0, i + 1).last().0 == pkey_view(self.published@[i as int].0));
            let k = &self.published[i].0;
            let clear = match k {
                PublishedKey::Global(_) => has_key(&self.pane_status_globals, k),
                PublishedKey::Tab(id, _) => has_tab_id(tab_items, *id),
            };
            if clear && get_value(&entries, k).is_none() && !has_key(&retired, k) {
                retired = insert_key_sorted(&retired, k);
                let ghost before = keys_view(cleared@);
                cleared.push(clone_key(k));
                assert(keys_view(cleared@) =~= before.push(pkey_view(*k)));
            }
            i = i + 1;
        }
        assert(pubs.subrange(0, pubs.len() as int) =~= pubs);

        let mut cmds: Vec<String> = Vec::new();
        let list = if force { &retired } else { &cleared };
        let ghost lv = keys_view(list@);
        proof { reveal_strlit(""); }
        assert(strings_view(cmds@) =~= clear_texts(lv.subrange(0, 0)));
        let mut i: usize = 0;
        while i < list.len()
            invariant
                i <= list@.len(),
                lv == keys_view(list@),
                lv.len() == list@.len(),
                ""@ == Seq::<char>::empty(),
                strings_view(cmds@) == clear_texts(lv.subrange(0, i as int)),
            decreases list.len() - i,
        {
            let ghost before = strings_view(cmds@);
            let c = command_of(&list[i], "");
            cmds.push(c);
            assert(lv[i as int] == pkey_view(list@[i as int]));
            assert(strings_view(cmds@) =~= before.push(command_text(lv[i as int], Seq::empty())));
            assert(clear_texts(lv.subrange(0, i + 1)) =~= clear_texts(lv.subrange(0, i as int)).push(command_text(lv[i as int], Seq::empty())));
            i = i + 1;
        }
        assert(lv.subrange(0, lv.len() as int) =~= lv);
        let ghost head = strings_view(cmds@);
        let ghost sk = keys_view(skipped@);

        let mut j: usize = 0;
        assert(update_texts(d.subrange(0, 0), sk, pubs, force) =~= Seq::<Seq<char>>::empty());
        assert(strings_view(cmds@) =~= head + update_texts(d.subrange(0, 0), sk, pubs, force));
        while j < entries.len()
            invariant
                j <= entries@.len(),
                d == entries_view(entries@),
                d.len() == entries@.len(),
                sk == keys_view(skipped@),
                pubs == entries_view(self.published@),
                strings_view(cmds@) == head + update_texts(d.subrange(0, j as int), sk, pubs, force),
            decreases entries.len() - j,
        {
            assert(d.subrange(0, j + 1).drop_last() =~= d.subrange(0, j as int));
            assert(d.subrange(0, j + 1).last() == (pkey_view(entries@[j as int].0), entries@[j as int].1@));
            let k = &entries[j].0;
            let v = &entries[j].1;
            let changed = match get_value(&self.published, k) {
                Some(p) => !str_equals(p.as_str(), v.as_str()),
                None => true,
            };
            if !has_key(&skipped, k) && (force || changed) {
                let ghost before = strings_view(cmds@);
                let c = command_of(k, v.as_str());
                cmds.push(c);
                assert(strings_view(cmds@) =~= before.push(command_text(pkey_view(*k), v@)));
            }
            j = j + 1;
        }
        assert(d.subrange(0, d.len() as int) =~= d);
        self.published = entries;
        self.pane_status_globals = globals;
        self.retired = retired;
        cmds
    }
}


// ---------------------------------------------------------------------------
// Laws

/// No two entries share a destination.
pub open spec fn keys_unique(e: Seq<((int, Seq<char>), Seq<char>)>) -> bool {
    forall|i: int, j: int| 0 <= i < j < e.len() ==> #[trigger] e[i].0 != #[trigger] e[j].0
}

proof fn lemma_lookup_at(e: Seq<((int, Seq<char>), Seq<char>)>, i: int)
    requires
        keys_unique(e),
        0 <= i < e.len(),
    ensures
        lookup(e, e[i].0) == Some(e[i].1),
{
    lemma_entry_index(e, e[i].0);
    match entry_index(e, e[i].0) {
        Some(j) => {
            if j < i { assert(e[j].0 != e[i].0); }
            if i < j { assert(e[i].0 != e[j].0); }
        },
        None => { assert(e[i].0 != e[i].0); },
    }
}

proof fn lemma_lookup_none(e: Seq<((int, Seq<char>), Seq<char>)>, k: (int, Seq<char>))
    requires
        forall|i: int| 0 <= i < e.len() ==> #[trigger] e[i].0 != k,
    ensures
        lookup(e, k) is None,
{
    lemma_entry_index(e, k);
    match entry_index(e, k) {
        Some(j) => { assert(e[j].0 != k); },
        None => {},
    }
}

/// `lookup` under unique keys: the value of the one entry with the key.
proof fn lemma_lookup_unique(e: Seq<((int, Seq<char>), Seq<char>)>, k: (int, Seq<char>))
    requires
        keys_unique(e),
    ensures
        match lookup(e, k) {
            Some(v) => exists|i: int| 0 <= i < e.len() && #[trigger] e[i] == (k, v),
            None => forall|i: int| 0 <= i < e.len() ==> #[trigger] e[i].0 != k,
        },
{
    lemma_entry_index(e, k);
}

proof fn lemma_insert_entry(e: Seq<((int, Seq<char>), Seq<char>)>, k: (int, Seq<char>), v: Seq<char>) -> (p: int)
    ensures
        0 <= p <= e.len(),
        insert_entry(e, k, v) == e.take(p).push((k, v)) + e.skip(p),
    decreases e.len(),
{
    if e.len() == 0 {
        assert(insert_entry(e, k, v) =~= e.take(0).push((k, v)) + e.skip(0));
        0
    } else if pkey_lt(k, e.last().0) {
        let d = e.drop_last();
        let q = lemma_insert_entry(d, k, v);
        assert(insert_entry(e, k, v) =~= e.take(q).push((k, v)) + e.skip(q)) by {
            assert(e.take(q) =~= d.take(q));
            assert(e.skip(q) =~= d.skip(q).push(e.last()));
        }
        q
    } else {
        assert(insert_entry(e, k, v) =~= e.take(e.len() as int).push((k, v)) + e.skip(e.len() as int));
        e.len() as int
    }
}

/// Setting a destination keeps the destinations unique, gives the value at
/// that destination and leaves every other destination's value.
proof fn lemma_put(e: Seq<((int, Seq<char>), Seq<char>)>, k: (int, Seq<char>), v: Seq<char>)
    requires
        keys_unique(e),
    ensures
        keys_unique(put(e, k, v)),
        forall|k2: (int, Seq<char>)| #[trigger] lookup(put(e, k, v), k2) == if k2 == k { Some(v) } else { lookup(e, k2) },
{
    lemma_entry_index(e, k);
    let r = put(e, k, v);
    match entry_index(e, k) {
        Some(i) => {
            assert(r == e.update(i, (k, v)));
            assert forall|a: int, b: int| 0 <= a < b < r.len() implies #[trigger] r[a].0 != #[trigger] r[b].0 by {
                assert(r[a].0 == e[a].0 && r[b].0 == e[b].0);
            }
            assert forall|k2: (int, Seq<char>)| #[trigger] lookup(r, k2) == if k2 == k { Some(v) } else { lookup(e, k2) } by {
                lemma_lookup_unique(e, k2);
                lemma_lookup_unique(r, k2);
                if k2 == k {
                    lemma_lookup_at(r, i);
                } else {
                    match lookup(e, k2) {
                        Some(w) => {
                            let j = choose|j: int| 0 <= j < e.len() && #[trigger] e[j] == (k2, w);
                            assert(j != i);
                            assert(r[j] == e[j]);
                            lemma_lookup_at(r, j);
                        },
                        None => {
                            assert forall|j: int| 0 <= j < r.len() implies #[trigger] r[j].0 != k2 by {
                                if j != i { assert(r[j] == e[j]); }
                            }
                            lemma_lookup_none(r, k2);
                        },
                    }
                }
            }
        },
        None => {
            let p = lemma_insert_entry(e, k, v);
            assert(r == e.take(p).push((k, v)) + e.skip(p));
            assert forall|j: int| 0 <= j < r.len() implies #[trigger] r[j] == if j < p { e[j] } else if j == p { (k, v) } else { e[j - 1] } by {
                if j < p { assert(r[j] == e.take(p)[j]); }
                else if j > p { assert(r[j] == e.skip(p)[j - p - 1]); }
            }
            assert forall|a: int, b: int| 0 <= a < b < r.len() implies #[trigger] r[a].0 != #[trigger] r[b].0 by {
                if a < p && b < p { assert(e[a].0 != e[b].0); }
                else if a < p && b > p { assert(e[a].0 != e[b - 1].0); }
                else if a > p && b > p { assert(e[a - 1].0 != e[b - 1].0); }
                else if a == p { assert(e[b - 1].0 != k); }
                else { assert(e[a].0 != k); }
            }
            assert forall|k2: (int, Seq<char>)| #[trigger] lookup(r, k2) == if k2 == k { Some(v) } else { lookup(e, k2) } by {
                lemma_lookup_unique(e, k2);
                if k2 == k {
                    lemma_lookup_at(r, p);
                } else {
                    match lookup(e, k2) {
                        Some(w) => {
                            let j = choose|j: int| 0 <= j < e.len() && #[trigger] e[j] == (k2, w);
                            if j < p { lemma_lookup_at(r, j); } else { assert(r[j + 1] == e[j]); lemma_lookup_at(r, j + 1); }
                        },
                        None => {
                            assert forall|j: int| 0 <= j < r.len() implies #[trigger] r[j].0 != k2 by {
                                if j < p { assert(r[j] == e[j]); } else if j > p { assert(r[j] == e[j - 1]); }
                            }
                            lemma_lookup_none(r, k2);
                        },
                    }
                }
            }
        },
    }
}


proof fn lemma_tab_entries(
    d: Seq<((int, Seq<char>), Seq<char>)>,
    c: OutputConfig,
    field: Seq<char>,
    snapshot: ScratchpadStatusSnapshot,
    panes: (Option<usize>, Seq<(usize, Seq<crate::pane_statuses::ItemView>)>),
    tabs: Seq<(usize, Seq<ScratchpadStatusItem>)>,
)
    requires
        keys_unique(d),
    ensures
        keys_unique(tab_entries(d, c, field, snapshot, panes, tabs)),
        forall|k: (int, Seq<char>)| k.0 < 0 ==> #[trigger] lookup(tab_entries(d, c, field, snapshot, panes, tabs), k) == lookup(d, k),
    decreases tabs.len(),
{
    if tabs.len() > 0 {
        lemma_tab_entries(d, c, field, snapshot, panes, tabs.drop_last());
        let prev = tab_entries(d, c, field, snapshot, panes, tabs.drop_last());
        let (id, items) = tabs.last();
        lemma_put(prev, (id as int, field), tab_value(c, snapshot, panes, id, items));
    }
}

/// The value a global output contributes at its destination, if any.
pub open spec fn global_contribution(
    c: OutputConfig,
    name: Seq<char>,
    snapshot: ScratchpadStatusSnapshot,
    panes: (Option<usize>, Seq<(usize, Seq<crate::pane_statuses::ItemView>)>),
    published: Seq<((int, Seq<char>), Seq<char>)>,
    old_globals: Seq<(int, Seq<char>)>,
) -> Option<Seq<char>> {
    let key = (-1int, name);
    let value = global_value(c, snapshot, panes);
    if value.len() == 0 && !publishes_empty(c) {
        if old_globals.contains(key) { None } else { lookup(published, key) }
    } else {
        Some(value)
    }
}

/// The output with a global name, if one has it.
pub open spec fn global_index(outs: Seq<(OutputKey, OutputConfig)>, name: Seq<char>) -> Option<int> {
    if exists|i: int| 0 <= i < outs.len() && key_view(#[trigger] outs[i].0) == (false, name) {
        Some(choose|i: int| 0 <= i < outs.len() && key_view(#[trigger] outs[i].0) == (false, name))
    } else {
        None
    }
}

proof fn lemma_global_index(outs: Seq<(OutputKey, OutputConfig)>, name: Seq<char>, i: int)
    requires
        distinct_outputs(outs),
        0 <= i < outs.len(),
        key_view(outs[i].0) == (false, name),
    ensures
        global_index(outs, name) == Some(i),
{
    let j = choose|j: int| 0 <= j < outs.len() && key_view(#[trigger] outs[j].0) == (false, name);
    if j < i { assert(key_view(outs[j].0) != key_view(outs[i].0)); }
    if i < j { assert(key_view(outs[i].0) != key_view(outs[j].0)); }
}

proof fn lemma_desired_global(
    outs: Seq<(OutputKey, OutputConfig)>,
    snapshot: ScratchpadStatusSnapshot,
    tabs: Seq<(usize, Seq<ScratchpadStatusItem>)>,
    panes: (Option<usize>, Seq<(usize, Seq<crate::pane_statuses::ItemView>)>),
    published: Seq<((int, Seq<char>), Seq<char>)>,
    old_globals: Seq<(int, Seq<char>)>,
    name: Seq<char>,
)
    requires
        distinct_outputs(outs),
    ensures
        keys_unique(desired_spec(outs, snapshot, tabs, panes, published, old_globals).entries),
        lookup(desired_spec(outs, snapshot, tabs, panes, published, old_globals).entries, (-1int, name))
            == match global_index(outs, name) {
                Some(i) => if outs[i].1.enabled {
                    global_contribution(outs[i].1, name, snapshot, panes, published, old_globals)
                } else {
                    None
                },
                None => None,
            },
        desired_spec(outs, snapshot, tabs, panes, published, old_globals).globals.contains((-1int, name))
            == match global_index(outs, name) {
                Some(i) => outs[i].1.enabled && outs[i].1.source == OutputSource::PaneStatus,
                None => false,
            },
    decreases outs.len(),
{
    let d = desired_spec(outs, snapshot, tabs, panes, published, old_globals);
    let key = (-1int, name);
    if outs.len() == 0 {
        lemma_lookup_none(d.entries, key);
        assert(!exists|i: int| 0 <= i < outs.len() && key_view(#[trigger] outs[i].0) == (false, name));
    } else {
        let dl = outs.drop_last();
        assert forall|a: int, b: int| 0 <= a < b < dl.len() implies key_view(#[trigger] dl[a].0) != key_view(#[trigger] dl[b].0) by {
            assert(dl[a] == outs[a] && dl[b] == outs[b]);
        }
        lemma_desired_global(dl, snapshot, tabs, panes, published, old_globals, name);
        let st = desired_spec(dl, snapshot, tabs, panes, published, old_globals);
        let n = outs.len() - 1;
        let (k, c) = outs.last();
        assert(outs[n] == (k, c));
        // The output with the name, in the whole list.
        if key_view(k) == (false, name) {
            lemma_global_index(outs, name, n);
            assert(!exists|i: int| 0 <= i < dl.len() && key_view(#[trigger] dl[i].0) == (false, name)) by {
                if exists|i: int| 0 <= i < dl.len() && key_view(#[trigger] dl[i].0) == (false, name) {
                    let i = choose|i: int| 0 <= i < dl.len() && key_view(#[trigger] dl[i].0) == (false, name);
                    assert(dl[i] == outs[i]);
                    assert(key_view(outs[i].0) != key_view(outs[n].0));
                }
            }
        } else {
            match global_index(dl, name) {
                Some(i) => {
                    assert(dl[i] == outs[i]);
                    lemma_global_index(outs, name, i);
                },
                None => {
                    assert(!exists|i: int| 0 <= i < outs.len() && key_view(#[trigger] outs[i].0) == (false, name)) by {
                        if exists|i: int| 0 <= i < outs.len() && key_view(#[trigger] outs[i].0) == (false, name) {
                            let i = choose|i: int| 0 <= i < outs.len() && key_view(#[trigger] outs[i].0) == (false, name);
                            if i < n {
                                assert(dl[i] == outs[i]);
                                assert(exists|j: int| 0 <= j < dl.len() && key_view(#[trigger] dl[j].0) == (false, name));
                            }
                        }
                    }
                },
            }
        }
        if c.enabled {
            match k {
                OutputKey::Global(m) => {
                    let gk = (-1int, m@);
                    let value = global_value(c, snapshot, panes);
                    if value.len() == 0 && !publishes_empty(c) {
                        if !old_globals.contains(gk) {
                            match lookup(published, gk) {
                                Some(prev) => { lemma_put(st.entries, gk, prev); },
                                None => {},
                            }
                        }
                    } else {
                        lemma_put(st.entries, gk, value);
                    }
                    assert(d.globals.contains(key) == (st.globals.contains(key)
                        || (c.source == OutputSource::PaneStatus && gk == key))) by {
                        if c.source == OutputSource::PaneStatus {
                            assert(d.globals == st.globals.push(gk));
                            if d.globals.contains(key) {
                                let j = choose|j: int| 0 <= j < d.globals.len() && d.globals[j] == key;
                                if j < st.globals.len() { assert(st.globals[j] == key); }
                            }
                            if st.globals.contains(key) {
                                let j = choose|j: int| 0 <= j < st.globals.len() && st.globals[j] == key;
                                assert(d.globals[j] == key);
                            }
                            if gk == key { assert(d.globals[st.globals.len() as int] == key); }
                        }
                    }
                },
                OutputKey::Tab(f) => {
                    lemma_tab_entries(st.entries, c, f@, snapshot, panes, tabs);
                },
            }
        }
    }
}


/// Computing the desired state again, against what was just recorded,
/// gives it back: the first `i` outputs contribute the same either way.
proof fn lemma_desired_again_prefix(
    outs: Seq<(OutputKey, OutputConfig)>,
    snapshot: ScratchpadStatusSnapshot,
    tabs: Seq<(usize, Seq<ScratchpadStatusItem>)>,
    panes: (Option<usize>, Seq<(usize, Seq<crate::pane_statuses::ItemView>)>),
    published: Seq<((int, Seq<char>), Seq<char>)>,
    old_globals: Seq<(int, Seq<char>)>,
    i: int,
)
    requires
        distinct_outputs(outs),
        0 <= i <= outs.len(),
    ensures ({
        let d1 = desired_spec(outs, snapshot, tabs, panes, published, old_globals);
        desired_spec(outs.take(i), snapshot, tabs, panes, d1.entries, d1.globals)
            == desired_spec(outs.take(i), snapshot, tabs, panes, published, old_globals)
    }),
    decreases i,
{
    let d1 = desired_spec(outs, snapshot, tabs, panes, published, old_globals);
    if i > 0 {
        lemma_desired_again_prefix(outs, snapshot, tabs, panes, published, old_globals, i - 1);
        let pre = outs.take(i);
        assert(pre.drop_last() =~= outs.take(i - 1));
        assert(pre.last() == outs[i - 1]);
        let st = desired_spec(outs.take(i - 1), snapshot, tabs, panes, published, old_globals);
        let (k, c) = outs[i - 1];
        if c.enabled {
            match k {
                OutputKey::Global(m) => {
                    let gk = (-1int, m@);
                    lemma_global_index(outs, m@, i - 1);
                    lemma_desired_global(outs, snapshot, tabs, panes, published, old_globals, m@);
                    let value = global_value(c, snapshot, panes);
                    if value.len() == 0 && !publishes_empty(c) {
                        assert(!d1.globals.contains(gk));
                    }
                },
                OutputKey::Tab(f) => {},
            }
        }
    }
}

proof fn lemma_desired_again(
    outs: Seq<(OutputKey, OutputConfig)>,
    snapshot: ScratchpadStatusSnapshot,
    tabs: Seq<(usize, Seq<ScratchpadStatusItem>)>,
    panes: (Option<usize>, Seq<(usize, Seq<crate::pane_statuses::ItemView>)>),
    published: Seq<((int, Seq<char>), Seq<char>)>,
    old_globals: Seq<(int, Seq<char>)>,
)
    requires
        distinct_outputs(outs),
    ensures ({
        let d1 = desired_spec(outs, snapshot, tabs, panes, published, old_globals);
        &&& desired_spec(outs, snapshot, tabs, panes, d1.entries, d1.globals) == d1
        &&& keys_unique(d1.entries)
    }),
{
    lemma_desired_again_prefix(outs, snapshot, tabs, panes, published, old_globals, outs.len() as int);
    assert(outs.take(outs.len() as int) =~= outs);
    lemma_desired_global(outs, snapshot, tabs, panes, published, old_globals, Seq::empty());
}

proof fn lemma_update_texts_quiet(
    desired: Seq<((int, Seq<char>), Seq<char>)>,
    skipped: Seq<(int, Seq<char>)>,
    published: Seq<((int, Seq<char>), Seq<char>)>,
)
    requires
        forall|i: int| 0 <= i < desired.len() ==> lookup(published, #[trigger] desired[i].0) == Some(desired[i].1),
    ensures
        update_texts(desired, skipped, published, false) == Seq::<Seq<char>>::empty(),
    decreases desired.len(),
{
    if desired.len() > 0 {
        let d = desired.drop_last();
        assert forall|i: int| 0 <= i < d.len() implies lookup(published, #[trigger] d[i].0) == Some(d[i].1) by {
            assert(d[i] == desired[i]);
        }
        lemma_update_texts_quiet(d, skipped, published);
        assert(lookup(published, desired[desired.len() - 1].0) == Some(desired[desired.len() - 1].1));
    }
}

proof fn lemma_clear_pass_quiet(
    published: Seq<((int, Seq<char>), Seq<char>)>,
    retired: Seq<(int, Seq<char>)>,
    tabs: Seq<(usize, Seq<ScratchpadStatusItem>)>,
    desired: Seq<((int, Seq<char>), Seq<char>)>,
    old_globals: Seq<(int, Seq<char>)>,
)
    requires
        forall|i: int| 0 <= i < published.len() ==> lookup(desired, #[trigger] published[i].0) is Some,
    ensures
        clear_pass(published, retired, tabs, desired, old_globals) == (retired, Seq::<(int, Seq<char>)>::empty()),
    decreases published.len(),
{
    if published.len() > 0 {
        let d = published.drop_last();
        assert forall|i: int| 0 <= i < d.len() implies lookup(desired, #[trigger] d[i].0) is Some by {
            assert(d[i] == published[i]);
        }
        lemma_clear_pass_quiet(d, retired, tabs, desired, old_globals);
        assert(lookup(desired, published[published.len() - 1].0) is Some);
    }
}

/// A retired destination that stays retired: live, and not desired.
pub open spec fn stays_retired(k: (int, Seq<char>), tabs: Seq<(usize, Seq<ScratchpadStatusItem>)>, desired: Seq<((int, Seq<char>), Seq<char>)>) -> bool {
    is_live(k, tabs) && lookup(desired, k) is None
}

proof fn lemma_kept_retired(
    r: Seq<(int, Seq<char>)>,
    tabs: Seq<(usize, Seq<ScratchpadStatusItem>)>,
    desired: Seq<((int, Seq<char>), Seq<char>)>,
)
    ensures
        forall|i: int| 0 <= i < kept_retired(r, tabs, desired).len()
            ==> stays_retired(#[trigger] kept_retired(r, tabs, desired)[i], tabs, desired),
        (forall|i: int| 0 <= i < r.len() ==> stays_retired(#[trigger] r[i], tabs, desired))
            ==> kept_retired(r, tabs, desired) == r,
    decreases r.len(),
{
    if r.len() > 0 {
        let d = r.drop_last();
        lemma_kept_retired(d, tabs, desired);
        let rest = kept_retired(d, tabs, desired);
        let k = r.last();
        if stays_retired(k, tabs, desired) {
            assert forall|i: int| 0 <= i < rest.push(k).len() implies stays_retired(#[trigger] rest.push(k)[i], tabs, desired) by {
                if i < rest.len() { assert(rest.push(k)[i] == rest[i]); }
            }
        }
        if forall|i: int| 0 <= i < r.len() ==> stays_retired(#[trigger] r[i], tabs, desired) {
            assert forall|i: int| 0 <= i < d.len() implies stays_retired(#[trigger] d[i], tabs, desired) by {
                assert(d[i] == r[i]);
            }
            assert(stays_retired(r[r.len() - 1], tabs, desired));
            assert(d.push(k) =~= r);
        }
    }
}

proof fn lemma_insert_key(s: Seq<(int, Seq<char>)>, k: (int, Seq<char>)) -> (p: int)
    ensures
        0 <= p <= s.len(),
        insert_key(s, k) == s.take(p).push(k) + s.skip(p),
    decreases s.len(),
{
    if s.len() == 0 {
        assert(insert_key(s, k) =~= s.take(0).push(k) + s.skip(0));
        0
    } else if pkey_lt(k, s.last()) {
        let d = s.drop_last();
        let q = lemma_insert_key(d, k);
        assert(insert_key(s, k) =~= s.take(q).push(k) + s.skip(q)) by {
            assert(s.take(q) =~= d.take(q));
            assert(s.skip(q) =~= d.skip(q).push(s.last()));
        }
        q
    } else {
        assert(insert_key(s, k) =~= s.take(s.len() as int).push(k) + s.skip(s.len() as int));
        s.len() as int
    }
}

proof fn lemma_clear_pass_retired(
    published: Seq<((int, Seq<char>), Seq<char>)>,
    retired: Seq<(int, Seq<char>)>,
    tabs: Seq<(usize, Seq<ScratchpadStatusItem>)>,
    desired: Seq<((int, Seq<char>), Seq<char>)>,
    old_globals: Seq<(int, Seq<char>)>,
)
    requires
        forall|i: int| 0 <= i < retired.len() ==> stays_retired(#[trigger] retired[i], tabs, desired),
    ensures ({
        let r = clear_pass(published, retired, tabs, desired, old_globals).0;
        forall|i: int| 0 <= i < r.len() ==> stays_retired(#[trigger] r[i], tabs, desired)
    }),
    decreases published.len(),
{
    if published.len() > 0 {
        let d = published.drop_last();
        lemma_clear_pass_retired(d, retired, tabs, desired, old_globals);
        let (r, c) = clear_pass(d, retired, tabs, desired, old_globals);
        let k = published.last().0;
        if clears(k, tabs, old_globals) && lookup(desired, k) is None && !r.contains(k) {
            let p = lemma_insert_key(r, k);
            let r2 = insert_key(r, k);
            assert(stays_retired(k, tabs, desired));
            assert forall|i: int| 0 <= i < r2.len() implies stays_retired(#[trigger] r2[i], tabs, desired) by {
                if i < p { assert(r2[i] == r.take(p)[i]); assert(r[i] == r.take(p)[i]); }
                else if i > p { assert(r2[i] == r.skip(p)[i - p - 1]); assert(r[i - 1] == r.skip(p)[i - p - 1]); }
            }
        }
    }
}

/// Publishing twice without a forced replay, with nothing changed in
/// between, is quiet the second time: no command is sent and the recorded
/// state stays as the first publication left it. Holds for outputs with
/// distinct identities, as every finalized configuration has them, whether
/// or not the first publication was forced.
pub proof fn law_republishing_is_quiet(
    s: PublisherView,
    outs: Seq<(OutputKey, OutputConfig)>,
    snapshot: ScratchpadStatusSnapshot,
    tabs: Seq<(usize, Seq<ScratchpadStatusItem>)>,
    panes: (Option<usize>, Seq<(usize, Seq<crate::pane_statuses::ItemView>)>),
    first_forced: bool,
)
    requires
        distinct_outputs(outs),
    ensures ({
        let s1 = publish_spec(s, outs, snapshot, tabs, panes, first_forced).1;
        &&& publish_spec(s1, outs, snapshot, tabs, panes, false).0 == Seq::<Seq<char>>::empty()
        &&& publish_spec(s1, outs, snapshot, tabs, panes, false).1 == s1
    }),
{
    let d1 = desired_spec(outs, snapshot, tabs, panes, s.published, s.globals);
    lemma_desired_again(outs, snapshot, tabs, panes, s.published, s.globals);
    let kept = kept_retired(s.retired, tabs, d1.entries);
    lemma_kept_retired(s.retired, tabs, d1.entries);
    lemma_clear_pass_retired(s.published, kept, tabs, d1.entries, s.globals);
    let r1 = clear_pass(s.published, kept, tabs, d1.entries, s.globals).0;
    let s1 = publish_spec(s, outs, snapshot, tabs, panes, first_forced).1;
    assert(s1 == PublisherView { published: d1.entries, globals: d1.globals, retired: r1 });
    lemma_kept_retired(r1, tabs, d1.entries);
    assert forall|i: int| 0 <= i < d1.entries.len() implies lookup(d1.entries, #[trigger] d1.entries[i].0) == Some(d1.entries[i].1) by {
        lemma_lookup_at(d1.entries, i);
    }
    lemma_clear_pass_quiet(d1.entries, r1, tabs, d1.entries, d1.globals);
    lemma_update_texts_quiet(d1.entries, d1.skipped, d1.entries);
    assert(clear_texts(Seq::<(int, Seq<char>)>::empty()) =~= Seq::<Seq<char>>::empty());
    assert(publish_spec(s1, outs, snapshot, tabs, panes, false).0 =~= Seq::<Seq<char>>::empty());
}

} // verus!
