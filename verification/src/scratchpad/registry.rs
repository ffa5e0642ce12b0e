//! The shared registry of scratchpad instances, keyed by scratchpad name and
//! native tab ID, with pending opens that expire.

use vstd::prelude::*;
use std::collections::{HashMap, HashSet};
use crate::text::{decimal, push_decimal, push_str, str_equals, string_of};
use crate::tree::PaneNode;

verus! {

broadcast use vstd::std_specs::hash::group_hash_axioms;

/// All instance records plus the shared focus counter.
#[derive(Debug, Default)]
pub struct ScratchpadRegistry {
    pub entries: Vec<RegistryRecord>,
    pub focus_counter: u64,
}

/// One scratchpad instance: a name on a native tab.
#[derive(Debug)]
pub struct RegistryRecord {
    pub name: String,
    pub tab_id: usize,
    pub state: RegistryRecordState,
    pub updated_at_ms: u64,
    pub owner_plugin_id: u32,
}

#[derive(Debug, Clone, Copy, PartialEq, Eq, Structural)]
pub enum RegistryRecordState {
    Present { pane_id: u32 },
    Pending { owner_plugin_id: u32 },
    Tombstone,
}

/// What a plugin should do when asked to show a scratchpad instance.
#[derive(Debug, Clone, Copy, PartialEq, Eq, Structural)]
pub enum OpenDecision {
    Open,
    UseExisting { pane_id: u32 },
    Pending,
}

/// Who holds the registry lock, and since when.
#[derive(Debug, Clone, Copy, PartialEq, Eq, Structural)]
pub struct RegistryLockMetadata {
    pub plugin_id: u32,
    pub client_id: u32,
    pub created_ms: u64,
}

/// The plain content of a record.
pub struct RecordView {
    pub name: Seq<char>,
    pub tab_id: usize,
    pub state: RegistryRecordState,
    pub updated_at_ms: u64,
    pub owner_plugin_id: u32,
}

impl View for RegistryRecord {
    type V = RecordView;

    open spec fn view(&self) -> RecordView {
        RecordView {
            name: self.name@,
            tab_id: self.tab_id,
            state: self.state,
            updated_at_ms: self.updated_at_ms,
            owner_plugin_id: self.owner_plugin_id,
        }
    }
}

impl View for ScratchpadRegistry {
    type V = Seq<RecordView>;

    open spec fn view(&self) -> Seq<RecordView> {
        self.entries@.map_values(|r: RegistryRecord| r@)
    }
}

impl RegistryRecord {
    /// A copy with the same content.
    pub fn copy_record(&self) -> (r: RegistryRecord)
        ensures
            r@ == self@,
    {
        RegistryRecord {
            name: self.name.clone(),
            tab_id: self.tab_id,
            state: self.state,
            updated_at_ms: self.updated_at_ms,
            owner_plugin_id: self.owner_plugin_id,
        }
    }
}

/// Path of the registry file for a zellij server PID.
pub open spec fn registry_file_text(pid: u32) -> Seq<char> {
    "/cache/scratchpad-registry-"@ + decimal(pid as nat) + ".json"@
}

/// Path of the registry lock file for a zellij server PID.
pub open spec fn registry_lock_text(pid: u32) -> Seq<char> {
    "/cache/scratchpad-registry-"@ + decimal(pid as nat) + ".lock"@
}

/// Path of a plugin's temporary registry file for a zellij server PID.
pub open spec fn registry_temp_text(pid: u32, plugin_id: u32) -> Seq<char> {
    "/cache/scratchpad-registry-"@ + decimal(pid as nat) + ".json.tmp-"@ + decimal(plugin_id as nat)
}

pub fn registry_file_path(zellij_pid: u32) -> (p: String)
    ensures
        p@ == registry_file_text(zellij_pid),
{
    let mut out: Vec<char> = Vec::new();
    push_str(&mut out, "/cache/scratchpad-registry-");
    push_decimal(&mut out, zellij_pid as u64);
    push_str(&mut out, ".json");
    string_of(&out)
}

pub fn registry_lock_path(zellij_pid: u32) -> (p: String)
    ensures
        p@ == registry_lock_text(zellij_pid),
{
    let mut out: Vec<char> = Vec::new();
    push_str(&mut out, "/cache/scratchpad-registry-");
    push_decimal(&mut out, zellij_pid as u64);
    push_str(&mut out, ".lock");
    string_of(&out)
}

pub fn registry_temp_file_path(zellij_pid: u32, plugin_id: u32) -> (p: String)
    ensures
        p@ == registry_temp_text(zellij_pid, plugin_id),
{
    let mut out: Vec<char> = Vec::new();
    push_str(&mut out, "/cache/scratchpad-registry-");
    push_decimal(&mut out, zellij_pid as u64);
    push_str(&mut out, ".json.tmp-");
    push_decimal(&mut out, plugin_id as u64);
    string_of(&out)
}

/// A timestamp is stale once `timeout_ms` have passed since it (saturating).
pub open spec fn stale(updated_at_ms: u64, now_ms: u64, timeout_ms: u64) -> bool {
    (if now_ms >= updated_at_ms { now_ms - updated_at_ms } else { 0 }) >= timeout_ms
}

pub fn is_stale(updated_at_ms: u64, now_ms: u64, timeout_ms: u64) -> (b: bool)
    ensures
        b == stale(updated_at_ms, now_ms, timeout_ms),
{
    now_ms.saturating_sub(updated_at_ms) >= timeout_ms
}

/// The records of `s` that satisfy `p`, in order.
pub open spec fn keep(s: Seq<RecordView>, p: spec_fn(RecordView) -> bool) -> Seq<RecordView>
    decreases s.len(),
{
    if s.len() == 0 {
        Seq::empty()
    } else {
        let r = keep(s.drop_last(), p);
        if p(s.last()) { r.push(s.last()) } else { r }
    }
}

/// Index of the first record for `name` on `tab_id`.
pub open spec fn find_index(s: Seq<RecordView>, name: Seq<char>, tab_id: usize) -> Option<int>
    decreases s.len(),
{
    if s.len() == 0 {
        None
    } else {
        match find_index(s.drop_last(), name, tab_id) {
            Some(i) => Some(i),
            None => if s.last().name == name && s.last().tab_id == tab_id { Some(s.len() - 1) } else { None },
        }
    }
}

/// Records other than expired pending ones.
pub open spec fn not_stale_pending(now_ms: u64, timeout_ms: u64) -> spec_fn(RecordView) -> bool {
    |r: RecordView| !(r.state is Pending && stale(r.updated_at_ms, now_ms, timeout_ms))
}

/// Records that are not the given owner's pending open of `name` on `tab_id`.
pub open spec fn not_own_pending(name: Seq<char>, tab_id: usize, owner: u32) -> spec_fn(RecordView) -> bool {
    |r: RecordView| !(r.name == name && r.tab_id == tab_id && r.state == (RegistryRecordState::Pending { owner_plugin_id: owner }))
}

/// Records that still describe something live: a present pane that the
/// manifest places on the record's tab, or a pending open that has not expired,
/// on a live tab.
pub open spec fn still_live(
    live_tabs: Set<usize>,
    live_panes: Map<u32, usize>,
    now_ms: u64,
    timeout_ms: u64,
) -> spec_fn(RecordView) -> bool {
    |r: RecordView| live_tabs.contains(r.tab_id) && match r.state {
        RegistryRecordState::Present { pane_id } => live_panes.contains_key(pane_id) && live_panes[pane_id] == r.tab_id,
        RegistryRecordState::Pending { .. } => !stale(r.updated_at_ms, now_ms, timeout_ms),
        RegistryRecordState::Tombstone => false,
    }
}

/// The decision `begin_open` takes for an existing record's state.
pub open spec fn decision_for(state: RegistryRecordState) -> OpenDecision {
    match state {
        RegistryRecordState::Present { pane_id } => OpenDecision::UseExisting { pane_id },
        RegistryRecordState::Pending { .. } => OpenDecision::Pending,
        RegistryRecordState::Tombstone => OpenDecision::Open,
    }
}

/// The registry after `begin_open`, and its decision.
pub open spec fn begin_open_spec(
    entries: Seq<RecordView>,
    name: Seq<char>,
    tab_id: usize,
    owner: u32,
    now_ms: u64,
    timeout_ms: u64,
) -> (Seq<RecordView>, OpenDecision) {
    let kept = keep(entries, not_stale_pending(now_ms, timeout_ms));
    match find_index(kept, name, tab_id) {
        Some(i) => (kept, decision_for(kept[i].state)),
        None => (kept.push(RecordView {
            name,
            tab_id,
            state: RegistryRecordState::Pending { owner_plugin_id: owner },
            updated_at_ms: now_ms,
            owner_plugin_id: owner,
        }), OpenDecision::Open),
    }
}

/// The registry after `finish_open`, and whether it changed.
pub open spec fn finish_open_spec(
    entries: Seq<RecordView>,
    name: Seq<char>,
    tab_id: usize,
    owner: u32,
    pane_id: u32,
    now_ms: u64,
) -> (Seq<RecordView>, bool) {
    match find_index(entries, name, tab_id) {
        Some(i) => if entries[i].state == (RegistryRecordState::Pending { owner_plugin_id: owner }) {
            (entries.update(i, RecordView {
                state: RegistryRecordState::Present { pane_id },
                updated_at_ms: now_ms,
                ..entries[i]
            }), true)
        } else {
            (entries, false)
        },
        None => (entries, false),
    }
}

proof fn lemma_keep_step(s: Seq<RecordView>, i: int, p: spec_fn(RecordView) -> bool)
    requires
        0 <= i < s.len(),
    ensures
        keep(s.subrange(0, i + 1), p) == if p(s[i]) {
            keep(s.subrange(0, i), p).push(s[i])
        } else {
            keep(s.subrange(0, i), p)
        },
{
    assert(s.subrange(0, i + 1).drop_last() == s.subrange(0, i));
}

pub proof fn lemma_keep_len(s: Seq<RecordView>, p: spec_fn(RecordView) -> bool)
    ensures
        keep(s, p).len() <= s.len(),
        (forall|i: int| 0 <= i < s.len() ==> p(#[trigger] s[i])) ==> keep(s, p) == s,
        keep(s, p).len() == s.len() ==> keep(s, p) == s,
    decreases s.len(),
{
    if s.len() > 0 {
        lemma_keep_len(s.drop_last(), p);
        assert(forall|i: int| 0 <= i < s.drop_last().len() ==> s.drop_last()[i] == s[i]);
        if keep(s, p).len() == s.len() {
            assert(p(s.last()));
            assert(keep(s.drop_last(), p) == s.drop_last());
        }
        assert(s.drop_last().push(s.last()) == s);
    }
}

pub proof fn lemma_keep_members(s: Seq<RecordView>, p: spec_fn(RecordView) -> bool)
    ensures
        forall|i: int| 0 <= i < keep(s, p).len() ==> p(#[trigger] keep(s, p)[i]) && s.contains(keep(s, p)[i]),
    decreases s.len(),
{
    if s.len() > 0 {
        lemma_keep_members(s.drop_last(), p);
        let r = keep(s.drop_last(), p);
        assert forall|i: int| 0 <= i < keep(s, p).len() implies p(#[trigger] keep(s, p)[i]) && s.contains(keep(s, p)[i]) by {
            if i < r.len() {
                assert(keep(s, p)[i] == r[i]);
                assert(s.drop_last().contains(r[i]));
                let j = choose|j: int| 0 <= j < s.drop_last().len() && s.drop_last()[j] == r[i];
                assert(s[j] == r[i]);
            } else {
                assert(keep(s, p)[i] == s.last());
                assert(s[s.len() - 1] == s.last());
            }
        }
    }
}

impl ScratchpadRegistry {
    /// Index of the first record for `name` on `tab_id`.
    fn position(&self, name: &str, tab_id: usize) -> (r: Option<usize>)
        ensures
            match r {
                Some(i) => find_index(self@, name@, tab_id) == Some(i as int) && i < self.entries@.len(),
                None => find_index(self@, name@, tab_id).is_none(),
            },
    {
        let mut i: usize = 0;
        while i < self.entries.len()
            invariant
                i <= self.entries@.len(),
                find_index(self@.subrange(0, i as int), name@, tab_id).is_none(),
            decreases self.entries.len() - i,
        {
            let ghost pre = self@.subrange(0, i + 1);
            assert(pre.drop_last() == self@.subrange(0, i as int));
            assert(pre.last() == self.entries@[i as int]@);
            if self.entries[i].tab_id == tab_id && str_equals(self.entries[i].name.as_str(), name) {
                proof { lemma_find_index_prefix(self@, i as int + 1, name@, tab_id); }
                return Some(i);
            }
            i = i + 1;
        }
        assert(self@.subrange(0, self@.len() as int) == self@);
        None
    }

    /// The first record for `name` on `tab_id`, if any.
    pub fn record(&self, name: &str, tab_id: usize) -> (r: Option<&RegistryRecord>)
        ensures
            match r {
                Some(rec) => find_index(self@, name@, tab_id) matches Some(i) && rec@ == self@[i],
                None => find_index(self@, name@, tab_id).is_none(),
            },
    {
        match self.position(name, tab_id) {
            Some(i) => Some(&self.entries[i]),
            None => None,
        }
    }

    /// Keep only the records that satisfy the predicate the caller describes
    /// record by record.
    fn remove_stale_pending(&mut self, now_ms: u64, pending_timeout_ms: u64)
        ensures
            final(self)@ == keep(old(self)@, not_stale_pending(now_ms, pending_timeout_ms)),
            final(self).focus_counter == old(self).focus_counter,
    {
        let ghost p = not_stale_pending(now_ms, pending_timeout_ms);
        let mut kept: Vec<RegistryRecord> = Vec::new();
        let mut i: usize = 0;
        while i < self.entries.len()
            invariant
                i <= self.entries@.len(),
                kept@.map_values(|r: RegistryRecord| r@) == keep(self@.subrange(0, i as int), p),
                p == not_stale_pending(now_ms, pending_timeout_ms),
            decreases self.entries.len() - i,
        {
            proof { lemma_keep_step(self@, i as int, p); }
            let rec = &self.entries[i];
            let drop = match rec.state {
                RegistryRecordState::Pending { .. } => is_stale(rec.updated_at_ms, now_ms, pending_timeout_ms),
                _ => false,
            };
            if !drop {
                let ghost before = kept@.map_values(|r: RegistryRecord| r@);
                kept.push(rec.copy_record());
                assert(kept@.map_values(|r: RegistryRecord| r@) == before.push(self@[i as int]));
            }
            i = i + 1;
        }
        assert(self@.subrange(0, self@.len() as int) == self@);
        self.entries = kept;
    }

    /// Begin showing `name` on `tab_id`: drop expired pending opens, then
    /// report an existing instance or a pending open by someone, or record this
    /// plugin's pending open and answer `Open`.
    pub fn begin_open(
        &mut self,
        name: &str,
        tab_id: usize,
        owner_plugin_id: u32,
        now_ms: u64,
        pending_timeout_ms: u64,
    ) -> (d: OpenDecision)
        ensures
            (final(self)@, d) == begin_open_spec(old(self)@, name@, tab_id, owner_plugin_id, now_ms, pending_timeout_ms),
            final(self).focus_counter == old(self).focus_counter,
    {
        self.remove_stale_pending(now_ms, pending_timeout_ms);
        match self.position(name, tab_id) {
            Some(i) => decision_of(self.entries[i].state),
            None => {
                let ghost before = self@;
                self.entries.push(RegistryRecord {
                    name: name.to_owned(),
                    tab_id,
                    state: RegistryRecordState::Pending { owner_plugin_id },
                    updated_at_ms: now_ms,
                    owner_plugin_id,
                });
                assert(self@ == before.push(self.entries@.last()@));
                OpenDecision::Open
            },
        }
    }

    /// Record that this plugin's pending open of `name` on `tab_id` produced
    /// `pane_id`. Returns false (changing nothing) unless such a pending open
    /// is the first record for that key.
    pub fn finish_open(
        &mut self,
        name: &str,
        tab_id: usize,
        owner_plugin_id: u32,
        pane_id: u32,
        now_ms: u64,
    ) -> (changed: bool)
        ensures
            (final(self)@, changed) == finish_open_spec(old(self)@, name@, tab_id, owner_plugin_id, pane_id, now_ms),
            final(self).focus_counter == old(self).focus_counter,
    {
        let i = match self.position(name, tab_id) {
            Some(i) => i,
            None => return false,
        };
        if self.entries[i].state != (RegistryRecordState::Pending { owner_plugin_id }) {
            return false;
        }
        let ghost before = self@;
        let mut rec = self.entries[i].copy_record();
        rec.state = RegistryRecordState::Present { pane_id };
        rec.updated_at_ms = now_ms;
        self.entries.set(i, rec);
        assert(self@ =~= before.update(i as int, RecordView {
            state: RegistryRecordState::Present { pane_id },
            updated_at_ms: now_ms,
            ..before[i as int]
        }));
        true
    }

    /// Withdraw this plugin's pending open of `name` on `tab_id`. Returns
    /// whether any record was removed.
    pub fn cancel_open(&mut self, name: &str, tab_id: usize, owner_plugin_id: u32) -> (removed: bool)
        ensures
            final(self)@ == keep(old(self)@, not_own_pending(name@, tab_id, owner_plugin_id)),
            removed == (final(self)@.len() != old(self)@.len()),
            final(self).focus_counter == old(self).focus_counter,
    {
        let ghost p = not_own_pending(name@, tab_id, owner_plugin_id);
        let initial_len = self.entries.len();
        let mut kept: Vec<RegistryRecord> = Vec::new();
        let mut i: usize = 0;
        while i < self.entries.len()
            invariant
                i <= self.entries@.len(),
                initial_len == self.entries@.len(),
                kept@.map_values(|r: RegistryRecord| r@) == keep(self@.subrange(0, i as int), p),
                p == not_own_pending(name@, tab_id, owner_plugin_id),
            decreases self.entries.len() - i,
        {
            proof { lemma_keep_step(self@, i as int, p); }
            let rec = &self.entries[i];
            let matches = rec.tab_id == tab_id && str_equals(rec.name.as_str(), name)
                && rec.state == (RegistryRecordState::Pending { owner_plugin_id });
            if !matches {
                let ghost before = kept@.map_values(|r: RegistryRecord| r@);
                kept.push(rec.copy_record());
                assert(kept@.map_values(|r: RegistryRecord| r@) == before.push(self@[i as int]));
            }
            i = i + 1;
        }
        assert(self@.subrange(0, self@.len() as int) == self@);
        self.entries = kept;
        self.entries.len() != initial_len
    }

    /// Drop records that no longer describe anything live: records on closed
    /// tabs, present records whose pane is gone or on another tab, expired
    /// pending opens and tombstones.
    pub fn reconcile(
        &mut self,
        live_tabs: &HashSet<usize>,
        live_panes: &HashMap<u32, usize>,
        now_ms: u64,
        pending_timeout_ms: u64,
    )
        ensures
            final(self)@ == keep(old(self)@, still_live(live_tabs@, live_panes@, now_ms, pending_timeout_ms)),
            final(self).focus_counter == old(self).focus_counter,
    {
        let ghost p = still_live(live_tabs@, live_panes@, now_ms, pending_timeout_ms);
        let mut kept: Vec<RegistryRecord> = Vec::new();
        let mut i: usize = 0;
        while i < self.entries.len()
            invariant
                i <= self.entries@.len(),
                kept@.map_values(|r: RegistryRecord| r@) == keep(self@.subrange(0, i as int), p),
                p == still_live(live_tabs@, live_panes@, now_ms, pending_timeout_ms),
            decreases self.entries.len() - i,
        {
            proof { lemma_keep_step(self@, i as int, p); }
            let rec = &self.entries[i];
            let live = if !live_tabs.contains(&rec.tab_id) {
                false
            } else {
                match rec.state {
                    RegistryRecordState::Present { pane_id } => match live_panes.get(&pane_id) {
                        Some(t) => *t == rec.tab_id,
                        None => false,
                    },
                    RegistryRecordState::Pending { .. } => !is_stale(rec.updated_at_ms, now_ms, pending_timeout_ms),
                    RegistryRecordState::Tombstone => false,
                }
            };
            if live {
                let ghost before = kept@.map_values(|r: RegistryRecord| r@);
                kept.push(rec.copy_record());
                assert(kept@.map_values(|r: RegistryRecord| r@) == before.push(self@[i as int]));
            }
            i = i + 1;
        }
        assert(self@.subrange(0, self@.len() as int) == self@);
        self.entries = kept;
    }
}

fn decision_of(state: RegistryRecordState) -> (d: OpenDecision)
    ensures
        d == decision_for(state),
{
    match state {
        RegistryRecordState::Present { pane_id } => OpenDecision::UseExisting { pane_id },
        RegistryRecordState::Pending { .. } => OpenDecision::Pending,
        RegistryRecordState::Tombstone => OpenDecision::Open,
    }
}

proof fn lemma_find_index_prefix(s: Seq<RecordView>, k: int, name: Seq<char>, tab_id: usize)
    requires
        0 < k <= s.len(),
        find_index(s.subrange(0, k - 1), name, tab_id).is_none(),
        s[k - 1].name == name && s[k - 1].tab_id == tab_id,
    ensures
        find_index(s, name, tab_id) == Some(k - 1),
    decreases s.len() - k,
{
    if k < s.len() {
        assert(s.drop_last().subrange(0, k - 1) == s.subrange(0, k - 1));
        lemma_find_index_prefix(s.drop_last(), k, name, tab_id);
    } else {
        assert(s.subrange(0, k - 1) == s.drop_last());
    }
}


/// No two records share a name and tab.
pub open spec fn unique_keys(s: Seq<RecordView>) -> bool {
    forall|i: int, j: int| 0 <= i < j < s.len() ==> !(#[trigger] s[i].name == #[trigger] s[j].name && s[i].tab_id == s[j].tab_id)
}

proof fn lemma_find_index_none(s: Seq<RecordView>, name: Seq<char>, tab_id: usize)
    ensures
        find_index(s, name, tab_id).is_none() <==> forall|i: int| 0 <= i < s.len() ==> !(#[trigger] s[i].name == name && s[i].tab_id == tab_id),
        find_index(s, name, tab_id) matches Some(i) ==> 0 <= i < s.len() && s[i].name == name && s[i].tab_id == tab_id,
    decreases s.len(),
{
    if s.len() > 0 {
        lemma_find_index_none(s.drop_last(), name, tab_id);
        assert(forall|i: int| 0 <= i < s.len() - 1 ==> s.drop_last()[i] == s[i]);
    }
}

proof fn lemma_keep_unique(s: Seq<RecordView>, p: spec_fn(RecordView) -> bool)
    requires
        unique_keys(s),
    ensures
        unique_keys(keep(s, p)),
    decreases s.len(),
{
    if s.len() > 0 {
        let d = s.drop_last();
        assert(unique_keys(d)) by {
            assert forall|i: int, j: int| 0 <= i < j < d.len() implies !(#[trigger] d[i].name == #[trigger] d[j].name && d[i].tab_id == d[j].tab_id) by {
                assert(d[i] == s[i] && d[j] == s[j]);
            }
        }
        lemma_keep_unique(d, p);
        lemma_keep_members(d, p);
        let r = keep(d, p);
        if p(s.last()) {
            assert forall|i: int, j: int| 0 <= i < j < r.push(s.last()).len() implies
                !(#[trigger] r.push(s.last())[i].name == #[trigger] r.push(s.last())[j].name
                    && r.push(s.last())[i].tab_id == r.push(s.last())[j].tab_id) by {
                if j == r.len() {
                    assert(d.contains(r[i]));
                    let k = choose|k: int| 0 <= k < d.len() && d[k] == r[i];
                    assert(s[k] == r[i]);
                    assert(s[s.len() - 1] == s.last());
                } else {
                    assert(r.push(s.last())[i] == r[i] && r.push(s.last())[j] == r[j]);
                }
            }
        }
    }
}

/// Opening the same instance from a clean slate: when no live record exists
/// for `name` on `tab_id`, `begin_open` answers `Open`, and this plugin's
/// `finish_open` then succeeds and records the new pane as present.
pub proof fn law_begin_then_finish_records_present(
    entries: Seq<RecordView>,
    name: Seq<char>,
    tab_id: usize,
    owner: u32,
    pane_id: u32,
    begin_ms: u64,
    finish_ms: u64,
    timeout_ms: u64,
)
    requires
        find_index(keep(entries, not_stale_pending(begin_ms, timeout_ms)), name, tab_id).is_none(),
    ensures
        ({
            let (after_begin, decision) = begin_open_spec(entries, name, tab_id, owner, begin_ms, timeout_ms);
            let (after_finish, changed) = finish_open_spec(after_begin, name, tab_id, owner, pane_id, finish_ms);
            &&& decision == OpenDecision::Open
            &&& changed
            &&& find_index(after_finish, name, tab_id) matches Some(i)
            &&& after_finish[i].state == (RegistryRecordState::Present { pane_id })
        }),
{
    let kept = keep(entries, not_stale_pending(begin_ms, timeout_ms));
    let rec = RecordView {
        name,
        tab_id,
        state: RegistryRecordState::Pending { owner_plugin_id: owner },
        updated_at_ms: begin_ms,
        owner_plugin_id: owner,
    };
    let pushed = kept.push(rec);
    assert(pushed.drop_last() == kept);
    assert(find_index(pushed, name, tab_id) == Some(kept.len() as int));
    let (after_finish, _) = finish_open_spec(pushed, name, tab_id, owner, pane_id, finish_ms);
    assert(after_finish.drop_last() == kept);
    assert(find_index(after_finish, name, tab_id) == Some(kept.len() as int));
}

/// Withdrawing undoes beginning: when no live record exists for `name` on
/// `tab_id`, `cancel_open` by the same plugin right after `begin_open` removes
/// exactly the pending record again, leaving what `begin_open` kept.
pub proof fn law_cancel_undoes_begin(
    entries: Seq<RecordView>,
    name: Seq<char>,
    tab_id: usize,
    owner: u32,
    now_ms: u64,
    timeout_ms: u64,
)
    requires
        find_index(keep(entries, not_stale_pending(now_ms, timeout_ms)), name, tab_id).is_none(),
    ensures
        ({
            let (after_begin, _) = begin_open_spec(entries, name, tab_id, owner, now_ms, timeout_ms);
            let after_cancel = keep(after_begin, not_own_pending(name, tab_id, owner));
            &&& after_cancel == keep(entries, not_stale_pending(now_ms, timeout_ms))
            &&& after_cancel.len() != after_begin.len()
        }),
{
    let kept = keep(entries, not_stale_pending(now_ms, timeout_ms));
    let p = not_own_pending(name, tab_id, owner);
    let rec = RecordView {
        name,
        tab_id,
        state: RegistryRecordState::Pending { owner_plugin_id: owner },
        updated_at_ms: now_ms,
        owner_plugin_id: owner,
    };
    let pushed = kept.push(rec);
    assert(pushed.drop_last() == kept);
    lemma_find_index_none(kept, name, tab_id);
    assert(forall|i: int| 0 <= i < kept.len() ==> p(#[trigger] kept[i]));
    lemma_keep_len(kept, p);
    assert(!p(rec));
    assert(keep(pushed, p) == keep(kept, p));
}

/// Reconciling is idempotent: a second reconcile against the same live state
/// changes nothing.
pub proof fn law_reconcile_idempotent(
    entries: Seq<RecordView>,
    live_tabs: Set<usize>,
    live_panes: Map<u32, usize>,
    now_ms: u64,
    timeout_ms: u64,
)
    ensures
        ({
            let p = still_live(live_tabs, live_panes, now_ms, timeout_ms);
            keep(keep(entries, p), p) == keep(entries, p)
        }),
{
    let p = still_live(live_tabs, live_panes, now_ms, timeout_ms);
    lemma_keep_members(entries, p);
    lemma_keep_len(keep(entries, p), p);
}

/// After reconciling, every record is on a live tab.
pub proof fn law_reconcile_keeps_only_live_tabs(
    entries: Seq<RecordView>,
    live_tabs: Set<usize>,
    live_panes: Map<u32, usize>,
    now_ms: u64,
    timeout_ms: u64,
)
    ensures
        forall|i: int| 0 <= i < keep(entries, still_live(live_tabs, live_panes, now_ms, timeout_ms)).len()
            ==> live_tabs.contains(#[trigger] keep(entries, still_live(live_tabs, live_panes, now_ms, timeout_ms))[i].tab_id),
{
    lemma_keep_members(entries, still_live(live_tabs, live_panes, now_ms, timeout_ms));
}

/// Instances are tab-local and never duplicated: if no name and tab occur
/// twice before `begin_open`, none do after.
pub proof fn law_begin_open_keeps_keys_unique(
    entries: Seq<RecordView>,
    name: Seq<char>,
    tab_id: usize,
    owner: u32,
    now_ms: u64,
    timeout_ms: u64,
)
    requires
        unique_keys(entries),
    ensures
        unique_keys(begin_open_spec(entries, name, tab_id, owner, now_ms, timeout_ms).0),
{
    let kept = keep(entries, not_stale_pending(now_ms, timeout_ms));
    lemma_keep_unique(entries, not_stale_pending(now_ms, timeout_ms));
    lemma_find_index_none(kept, name, tab_id);
    if find_index(kept, name, tab_id).is_none() {
        let rec = RecordView {
            name,
            tab_id,
            state: RegistryRecordState::Pending { owner_plugin_id: owner },
            updated_at_ms: now_ms,
            owner_plugin_id: owner,
        };
        let pushed = kept.push(rec);
        assert forall|i: int, j: int| 0 <= i < j < pushed.len() implies
            !(#[trigger] pushed[i].name == #[trigger] pushed[j].name && pushed[i].tab_id == pushed[j].tab_id) by {
            if j == kept.len() {
                assert(pushed[i] == kept[i]);
            } else {
                assert(pushed[i] == kept[i] && pushed[j] == kept[j]);
            }
        }
    }
}


/// The native IDs of the known tabs (`(tab ID, position)` pairs).
pub open spec fn live_tabs_spec(tabs: Seq<(usize, usize)>) -> Set<usize> {
    Set::new(|id: usize| exists|i: int| 0 <= i < tabs.len() && #[trigger] tabs[i].0 == id)
}

/// The native tab ID at a position: the first known tab there.
pub open spec fn tab_at(tabs: Seq<(usize, usize)>, position: usize) -> Option<usize>
    decreases tabs.len(),
{
    if tabs.len() == 0 {
        None
    } else {
        match tab_at(tabs.drop_last(), position) {
            Some(t) => Some(t),
            None => if tabs.last().1 == position { Some(tabs.last().0) } else { None },
        }
    }
}

/// Each terminal pane of the manifest with the native ID of its tab; panes
/// of positions without a known tab are left out, and a later entry wins.
pub open spec fn live_panes_spec(tabs: Seq<(usize, usize)>, m: Seq<(usize, Vec<PaneNode>)>) -> Map<u32, usize>
    decreases m.len(),
{
    if m.len() == 0 {
        Map::empty()
    } else {
        let before = live_panes_spec(tabs, m.drop_last());
        match tab_at(tabs, m.last().0) {
            Some(t) => panes_with_tab(before, m.last().1@, t),
            None => before,
        }
    }
}

/// Record the tab of each terminal pane among these.
pub open spec fn panes_with_tab(acc: Map<u32, usize>, panes: Seq<PaneNode>, tab: usize) -> Map<u32, usize>
    decreases panes.len(),
{
    if panes.len() == 0 {
        acc
    } else {
        let before = panes_with_tab(acc, panes.drop_last(), tab);
        if panes.last().is_plugin { before } else { before.insert(panes.last().id, tab) }
    }
}

fn tab_at_exec(tabs: &[(usize, usize)], position: usize) -> (r: Option<usize>)
    ensures
        r == tab_at(tabs@, position),
{
    let mut i: usize = 0;
    let mut found: Option<usize> = None;
    while i < tabs.len()
        invariant
            i <= tabs@.len(),
            found == tab_at(tabs@.take(i as int), position),
        decreases tabs.len() - i,
    {
        assert(tabs@.take(i + 1).drop_last() =~= tabs@.take(i as int));
        if found.is_none() && tabs[i].1 == position {
            found = Some(tabs[i].0);
        }
        i = i + 1;
    }
    assert(tabs@.take(tabs@.len() as int) =~= tabs@);
    found
}

/// What the registry is reconciled against: the native IDs of the known
/// tabs, and the native tab of each terminal pane of the manifest.
pub fn live_registry_state(tabs: &[(usize, usize)], manifest: &[(usize, Vec<PaneNode>)])
    -> (r: (HashSet<usize>, HashMap<u32, usize>))
    ensures
        r.0@ == live_tabs_spec(tabs@),
        r.1@ == live_panes_spec(tabs@, manifest@),
{
    let mut live_tabs: HashSet<usize> = HashSet::new();
    let mut i: usize = 0;
    while i < tabs.len()
        invariant
            i <= tabs@.len(),
            live_tabs@ == live_tabs_spec(tabs@.take(i as int)),
        decreases tabs.len() - i,
    {
        let ghost before = live_tabs@;
        live_tabs.insert(tabs[i].0);
        assert(live_tabs@ =~= live_tabs_spec(tabs@.take(i + 1))) by {
            assert forall|id: usize| live_tabs_spec(tabs@.take(i + 1)).contains(id) <==> before.insert(tabs@[i as int].0).contains(id) by {
                if live_tabs_spec(tabs@.take(i + 1)).contains(id) {
                    let j = choose|j: int| 0 <= j < i + 1 && #[trigger] tabs@.take(i + 1)[j].0 == id;
                    if j < i { assert(tabs@.take(i as int)[j].0 == id); }
                }
                if before.contains(id) {
                    let j = choose|j: int| 0 <= j < i && #[trigger] tabs@.take(i as int)[j].0 == id;
                    assert(tabs@.take(i + 1)[j].0 == id);
                }
                if id == tabs@[i as int].0 {
                    assert(tabs@.take(i + 1)[i as int].0 == id);
                }
            }
        }
        i = i + 1;
    }
    assert(tabs@.take(tabs@.len() as int) =~= tabs@);

    let mut live_panes: HashMap<u32, usize> = HashMap::new();
    let mut k: usize = 0;
    while k < manifest.len()
        invariant
            k <= manifest@.len(),
            live_panes@ == live_panes_spec(tabs@, manifest@.take(k as int)),
        decreases manifest.len() - k,
    {
        assert(manifest@.take(k + 1).drop_last() =~= manifest@.take(k as int));
        match tab_at_exec(tabs, manifest[k].0) {
            Some(tab) => {
                let panes = &manifest[k].1;
                let ghost start = live_panes@;
                let mut j: usize = 0;
                while j < panes.len()
                    invariant
                        j <= panes@.len(),
                        panes@ == manifest@[k as int].1@,
                        live_panes@ == panes_with_tab(start, panes@.take(j as int), tab),
                    decreases panes.len() - j,
                {
                    assert(panes@.take(j + 1).drop_last() =~= panes@.take(j as int));
                    if !panes[j].is_plugin {
                        live_panes.insert(panes[j].id, tab);
                    }
                    j = j + 1;
                }
                assert(panes@.take(panes@.len() as int) =~= panes@);
            },
            None => {},
        }
        k = k + 1;
    }
    assert(manifest@.take(manifest@.len() as int) =~= manifest@);
    (live_tabs, live_panes)
}


/// A pending open makes other openers wait: when no record of an instance
/// exists, the first `begin_open` answers `Open` and records a pending open,
/// and a `begin_open` of the same instance by any plugin before that pending
/// open expires answers `Pending`, so no second open starts.
pub proof fn law_pending_open_makes_others_wait(
    entries: Seq<RecordView>,
    name: Seq<char>,
    tab_id: usize,
    first: u32,
    second: u32,
    first_ms: u64,
    second_ms: u64,
    timeout_ms: u64,
)
    requires
        find_index(keep(entries, not_stale_pending(first_ms, timeout_ms)), name, tab_id).is_none(),
        !stale(first_ms, second_ms, timeout_ms),
    ensures ({
        let (after_first, decision) = begin_open_spec(entries, name, tab_id, first, first_ms, timeout_ms);
        &&& decision == OpenDecision::Open
        &&& begin_open_spec(after_first, name, tab_id, second, second_ms, timeout_ms).1 == OpenDecision::Pending
    }),
{
    let p2 = not_stale_pending(second_ms, timeout_ms);
    let kept = keep(entries, not_stale_pending(first_ms, timeout_ms));
    lemma_find_index_none(kept, name, tab_id);
    let rec = RecordView {
        name,
        tab_id,
        state: RegistryRecordState::Pending { owner_plugin_id: first },
        updated_at_ms: first_ms,
        owner_plugin_id: first,
    };
    let after_first = kept.push(rec);
    assert(after_first.drop_last() =~= kept);
    assert(p2(rec));
    let kept2 = keep(after_first, p2);
    lemma_keep_members(kept, p2);
    let inner = keep(kept, p2);
    assert(kept2 == inner.push(rec));
    assert forall|j: int| 0 <= j < inner.len() implies !(#[trigger] inner[j].name == name && inner[j].tab_id == tab_id) by {
        assert(kept.contains(inner[j]));
        let m = choose|m: int| 0 <= m < kept.len() && kept[m] == inner[j];
        assert(!(kept[m].name == name && kept[m].tab_id == tab_id));
    }
    lemma_find_index_none(inner, name, tab_id);
    assert(kept2.drop_last() =~= inner);
    assert(find_index(kept2, name, tab_id) == Some(inner.len() as int));
}

} // verus!
