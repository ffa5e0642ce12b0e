//! Stable tab IDs that survive tab reordering.

use vstd::prelude::*;
use crate::tree::PaneNode;

verus! {

/// The first entry with a key.
pub open spec fn aindex<K, V>(s: Seq<(K, V)>, k: K) -> Option<int>
    decreases s.len(),
{
    if s.len() == 0 {
        None
    } else {
        match aindex(s.drop_last(), k) {
            Some(i) => Some(i),
            None => if s.last().0 == k { Some(s.len() - 1) } else { None },
        }
    }
}

/// The value recorded under a key.
pub open spec fn aget<K, V>(s: Seq<(K, V)>, k: K) -> Option<V> {
    match aindex(s, k) {
        Some(i) => Some(s[i].1),
        None => None,
    }
}

/// Record a value under a key, in place if the key is recorded.
pub open spec fn aset<K, V>(s: Seq<(K, V)>, k: K, v: V) -> Seq<(K, V)> {
    match aindex(s, k) {
        Some(i) => s.update(i, (k, v)),
        None => s.push((k, v)),
    }
}

pub proof fn lemma_aindex<K, V>(s: Seq<(K, V)>, k: K)
    ensures
        match aindex(s, k) {
            Some(i) => 0 <= i < s.len() && s[i].0 == k && forall|j: int| 0 <= j < i ==> #[trigger] s[j].0 != k,
            None => forall|j: int| 0 <= j < s.len() ==> #[trigger] s[j].0 != k,
        },
    decreases s.len(),
{
    if s.len() > 0 {
        lemma_aindex(s.drop_last(), k);
        assert forall|j: int| 0 <= j < s.len() - 1 implies #[trigger] s[j] == s.drop_last()[j] by {}
    }
}

/// The tiled terminal panes of a manifest as `(pane ID, tab position)`, tab by tab.
pub open spec fn tiled_panes(m: Seq<(usize, Vec<PaneNode>)>) -> Seq<(u32, usize)>
    decreases m.len(),
{
    if m.len() == 0 {
        Seq::empty()
    } else {
        tiled_panes(m.drop_last()) + tiled_of(m.last().1@, m.last().0)
    }
}

pub open spec fn tiled_of(panes: Seq<PaneNode>, pos: usize) -> Seq<(u32, usize)>
    decreases panes.len(),
{
    if panes.len() == 0 {
        Seq::empty()
    } else {
        let rest = tiled_of(panes.drop_last(), pos);
        let p = panes.last();
        if !p.is_floating && !p.is_plugin { rest.push((p.id, pos)) } else { rest }
    }
}

/// The current tab of a tiled pane; a later entry wins.
pub open spec fn current_tab(t: Seq<(u32, usize)>, id: u32) -> Option<usize>
    decreases t.len(),
{
    if t.len() == 0 {
        None
    } else if t.last().0 == id {
        Some(t.last().1)
    } else {
        current_tab(t.drop_last(), id)
    }
}

/// The first tiled terminal pane among these.
pub open spec fn first_tiled(panes: Seq<PaneNode>) -> Option<u32> {
    let t = tiled_of(panes, 0);
    if t.len() > 0 { Some(t[0].0) } else { None }
}

/// What the tracker keeps: the next fresh ID, the reference pane of each
/// stable ID, and the two directions between stable IDs and positions.
pub struct TrackerView {
    pub next_id: u64,
    pub refs: Seq<(u32, u64)>,
    pub forward: Seq<(u64, usize)>,
    pub reverse: Seq<(usize, u64)>,
}

/// The references whose pane is still tiled, or no longer is.
pub open spec fn refs_where(refs: Seq<(u32, u64)>, t: Seq<(u32, usize)>, live: bool) -> Seq<(u32, u64)>
    decreases refs.len(),
{
    if refs.len() == 0 {
        Seq::empty()
    } else {
        let rest = refs_where(refs.drop_last(), t, live);
        if (current_tab(t, refs.last().0) is Some) == live { rest.push(refs.last()) } else { rest }
    }
}

/// Place each live reference's stable ID at its pane's current position.
pub open spec fn placed(refs: Seq<(u32, u64)>, t: Seq<(u32, usize)>) -> (Seq<(u64, usize)>, Seq<(usize, u64)>)
    decreases refs.len(),
{
    if refs.len() == 0 {
        (Seq::empty(), Seq::empty())
    } else {
        let (f, r) = placed(refs.drop_last(), t);
        match current_tab(t, refs.last().0) {
            Some(pos) => (aset(f, refs.last().1, pos), aset(r, pos, refs.last().1)),
            None => (f, r),
        }
    }
}

/// The first tab, in manifest order, without a stable ID and with a tiled
/// pane: its position and that pane.
pub open spec fn free_tab(m: Seq<(usize, Vec<PaneNode>)>, reverse: Seq<(usize, u64)>) -> Option<(usize, u32)>
    decreases m.len(),
{
    if m.len() == 0 {
        None
    } else {
        match free_tab(m.drop_last(), reverse) {
            Some(x) => Some(x),
            None => if aget(reverse, m.last().0) is None && first_tiled(m.last().1@) is Some {
                Some((m.last().0, first_tiled(m.last().1@)->Some_0))
            } else {
                None
            },
        }
    }
}

/// Give each stable ID whose reference closed, and that no live reference
/// kept, the first free tab with a new reference pane.
pub open spec fn reassigned(s: TrackerView, closed: Seq<(u32, u64)>, m: Seq<(usize, Vec<PaneNode>)>) -> TrackerView
    decreases closed.len(),
{
    if closed.len() == 0 {
        s
    } else {
        let s1 = reassigned(s, closed.drop_last(), m);
        let id = closed.last().1;
        if aget(s1.forward, id) is Some {
            s1
        } else {
            match free_tab(m, s1.reverse) {
                Some((pos, pane)) => TrackerView {
                    refs: aset(s1.refs, pane, id),
                    forward: aset(s1.forward, id, pos),
                    reverse: aset(s1.reverse, pos, id),
                    ..s1
                },
                None => s1,
            }
        }
    }
}

/// Give every remaining tab with a tiled pane a fresh stable ID, in manifest order.
pub open spec fn fresh_ids(s: TrackerView, m: Seq<(usize, Vec<PaneNode>)>) -> TrackerView
    decreases m.len(),
{
    if m.len() == 0 {
        s
    } else {
        let s1 = fresh_ids(s, m.drop_last());
        let (pos, panes) = m.last();
        if aget(s1.reverse, pos) is None && first_tiled(panes@) is Some {
            let id = s1.next_id;
            TrackerView {
                next_id: (id + 1) as u64,
                refs: aset(s1.refs, first_tiled(panes@)->Some_0, id),
                forward: aset(s1.forward, id, pos),
                reverse: aset(s1.reverse, pos, id),
            }
        } else {
            s1
        }
    }
}

/// The stable IDs, without repeats, whose reference closed and that found no tab.
pub open spec fn lost_ids(closed: Seq<(u32, u64)>, forward: Seq<(u64, usize)>) -> Seq<u64>
    decreases closed.len(),
{
    if closed.len() == 0 {
        Seq::empty()
    } else {
        let rest = lost_ids(closed.drop_last(), forward);
        let id = closed.last().1;
        if aget(forward, id) is None && !rest.contains(id) { rest.push(id) } else { rest }
    }
}

/// One update from a pane manifest: the tracker after it and the stable IDs
/// of the tabs that closed.
pub open spec fn update_spec(s: TrackerView, m: Seq<(usize, Vec<PaneNode>)>) -> (TrackerView, Seq<u64>) {
    let t = tiled_panes(m);
    let closed = refs_where(s.refs, t, false);
    let live = refs_where(s.refs, t, true);
    let (f, r) = placed(live, t);
    let s1 = reassigned(TrackerView { next_id: s.next_id, refs: live, forward: f, reverse: r }, closed, m);
    (fresh_ids(s1, m), lost_ids(closed, s1.forward))
}

/// Tracks stable tab IDs across tab reorders. Zellij identifies tabs by
/// position; a stable ID follows a reference (tiled) pane of its tab.
#[derive(Default)]
pub struct StableTabTracker {
    next_id: u64,
    /// Reference pane ID to stable tab ID.
    reference_pane_to_tab: Vec<(u32, u64)>,
    /// Stable tab ID to current position.
    pub stable_tab_to_position: Vec<(u64, usize)>,
    /// Current position to stable tab ID.
    pub position_to_stable: Vec<(usize, u64)>,
}

impl View for StableTabTracker {
    type V = TrackerView;

    closed spec fn view(&self) -> TrackerView {
        TrackerView {
            next_id: self.next_id,
            refs: self.reference_pane_to_tab@,
            forward: self.stable_tab_to_position@,
            reverse: self.position_to_stable@,
        }
    }
}


fn find_refs(v: &Vec<(u32, u64)>, k: u32) -> (r: Option<usize>)
    ensures
        match r {
            Some(i) => aindex(v@, k) == Some(i as int) && i < v@.len(),
            None => aindex(v@, k) is None,
        },
{
    proof { lemma_aindex(v@, k); }
    let mut i: usize = 0;
    while i < v.len()
        invariant
            i <= v@.len(),
            forall|j: int| 0 <= j < i ==> #[trigger] v@[j].0 != k,
            match aindex(v@, k) {
                Some(m) => 0 <= m < v@.len() && v@[m].0 == k && forall|j: int| 0 <= j < m ==> #[trigger] v@[j].0 != k,
                None => forall|j: int| 0 <= j < v@.len() ==> #[trigger] v@[j].0 != k,
            },
        decreases v.len() - i,
    {
        if v[i].0 == k {
            proof {
                match aindex(v@, k) {
                    Some(m) => {
                        if m < i { assert(v@[m].0 != k); }
                        if m > i { assert(v@[i as int].0 != k); }
                    },
                    None => { assert(v@[i as int].0 != k); },
                }
            }
            return Some(i);
        }
        i = i + 1;
    }
    None
}

fn set_refs(v: &mut Vec<(u32, u64)>, k: u32, value: u64)
    ensures
        final(v)@ == aset(old(v)@, k, value),
{
    match find_refs(v, k) {
        Some(i) => { v.set(i, (k, value)); },
        None => { v.push((k, value)); },
    }
}

fn find_fwd(v: &Vec<(u64, usize)>, k: u64) -> (r: Option<usize>)
    ensures
        match r {
            Some(i) => aindex(v@, k) == Some(i as int) && i < v@.len(),
            None => aindex(v@, k) is None,
        },
{
    proof { lemma_aindex(v@, k); }
    let mut i: usize = 0;
    while i < v.len()
        invariant
            i <= v@.len(),
            forall|j: int| 0 <= j < i ==> #[trigger] v@[j].0 != k,
            match aindex(v@, k) {
                Some(m) => 0 <= m < v@.len() && v@[m].0 == k && forall|j: int| 0 <= j < m ==> #[trigger] v@[j].0 != k,
                None => forall|j: int| 0 <= j < v@.len() ==> #[trigger] v@[j].0 != k,
            },
        decreases v.len() - i,
    {
        if v[i].0 == k {
            proof {
                match aindex(v@, k) {
                    Some(m) => {
                        if m < i { assert(v@[m].0 != k); }
                        if m > i { assert(v@[i as int].0 != k); }
                    },
                    None => { assert(v@[i as int].0 != k); },
                }
            }
            return Some(i);
        }
        i = i + 1;
    }
    None
}

fn set_fwd(v: &mut Vec<(u64, usize)>, k: u64, value: usize)
    ensures
        final(v)@ == aset(old(v)@, k, value),
{
    match find_fwd(v, k) {
        Some(i) => { v.set(i, (k, value)); },
        None => { v.push((k, value)); },
    }
}

fn find_rev(v: &Vec<(usize, u64)>, k: usize) -> (r: Option<usize>)
    ensures
        match r {
            Some(i) => aindex(v@, k) == Some(i as int) && i < v@.len(),
            None => aindex(v@, k) is None,
        },
{
    proof { lemma_aindex(v@, k); }
    let mut i: usize = 0;
    while i < v.len()
        invariant
            i <= v@.len(),
            forall|j: int| 0 <= j < i ==> #[trigger] v@[j].0 != k,
            match aindex(v@, k) {
                Some(m) => 0 <= m < v@.len() && v@[m].0 == k && forall|j: int| 0 <= j < m ==> #[trigger] v@[j].0 != k,
                None => forall|j: int| 0 <= j < v@.len() ==> #[trigger] v@[j].0 != k,
            },
        decreases v.len() - i,
    {
        if v[i].0 == k {
            proof {
                match aindex(v@, k) {
                    Some(m) => {
                        if m < i { assert(v@[m].0 != k); }
                        if m > i { assert(v@[i as int].0 != k); }
                    },
                    None => { assert(v@[i as int].0 != k); },
                }
            }
            return Some(i);
        }
        i = i + 1;
    }
    None
}

fn set_rev(v: &mut Vec<(usize, u64)>, k: usize, value: u64)
    ensures
        final(v)@ == aset(old(v)@, k, value),
{
    match find_rev(v, k) {
        Some(i) => { v.set(i, (k, value)); },
        None => { v.push((k, value)); },
    }
}


fn tiled_in(panes: &Vec<PaneNode>, pos: usize) -> (r: Vec<(u32, usize)>)
    ensures
        r@ == tiled_of(panes@, pos),
{
    let mut r: Vec<(u32, usize)> = Vec::new();
    let mut j: usize = 0;
    while j < panes.len()
        invariant
            j <= panes@.len(),
            r@ == tiled_of(panes@.subrange(0, j as int), pos),
        decreases panes.len() - j,
    {
        assert(panes@.subrange(0, j + 1).drop_last() =~= panes@.subrange(0, j as int));
        let p = &panes[j];
        if !p.is_floating && !p.is_plugin {
            r.push((p.id, pos));
        }
        j = j + 1;
    }
    assert(panes@.subrange(0, panes@.len() as int) =~= panes@);
    r
}

fn tiled_list(m: &[(usize, Vec<PaneNode>)]) -> (r: Vec<(u32, usize)>)
    ensures
        r@ == tiled_panes(m@),
{
    let mut r: Vec<(u32, usize)> = Vec::new();
    let mut i: usize = 0;
    while i < m.len()
        invariant
            i <= m@.len(),
            r@ == tiled_panes(m@.subrange(0, i as int)),
        decreases m.len() - i,
    {
        assert(m@.subrange(0, i + 1).drop_last() =~= m@.subrange(0, i as int));
        let mut part = tiled_in(&m[i].1, m[i].0);
        r.append(&mut part);
        i = i + 1;
    }
    assert(m@.subrange(0, m@.len() as int) =~= m@);
    r
}

fn current_tab_of(t: &Vec<(u32, usize)>, id: u32) -> (r: Option<usize>)
    ensures
        r == current_tab(t@, id),
{
    let mut i = t.len();
    assert(t@.subrange(0, i as int) =~= t@);
    while i > 0
        invariant
            i <= t@.len(),
            current_tab(t@, id) == current_tab(t@.subrange(0, i as int), id),
        decreases i,
    {
        assert(t@.subrange(0, i as int).drop_last() =~= t@.subrange(0, i - 1));
        assert(t@.subrange(0, i as int).last() == t@[i - 1]);
        if t[i - 1].0 == id {
            return Some(t[i - 1].1);
        }
        i = i - 1;
    }
    None
}

fn first_tiled_of(panes: &Vec<PaneNode>) -> (r: Option<u32>)
    ensures
        r == first_tiled(panes@),
{
    let t = tiled_in(panes, 0);
    if t.len() > 0 { Some(t[0].0) } else { None }
}

fn free_tab_of(m: &[(usize, Vec<PaneNode>)], reverse: &Vec<(usize, u64)>) -> (r: Option<(usize, u32)>)
    ensures
        r == free_tab(m@, reverse@),
{
    let mut found: Option<(usize, u32)> = None;
    let mut i: usize = 0;
    while i < m.len()
        invariant
            i <= m@.len(),
            found == free_tab(m@.subrange(0, i as int), reverse@),
        decreases m.len() - i,
    {
        assert(m@.subrange(0, i + 1).drop_last() =~= m@.subrange(0, i as int));
        if found.is_none() && find_rev(reverse, m[i].0).is_none() {
            match first_tiled_of(&m[i].1) {
                Some(pane) => { found = Some((m[i].0, pane)); },
                None => {},
            }
        }
        i = i + 1;
    }
    assert(m@.subrange(0, m@.len() as int) =~= m@);
    found
}

impl StableTabTracker {
    /// The stable ID of the tab at a position, if known.
    pub fn get_stable_id(&self, position: usize) -> (r: Option<u64>)
        ensures
            r == aget(self@.reverse, position),
    {
        match find_rev(&self.position_to_stable, position) {
            Some(i) => Some(self.position_to_stable[i].1),
            None => None,
        }
    }

    /// The stable ID the next new tab gets.
    pub fn next_id(&self) -> (r: u64)
        ensures
            r == self@.next_id,
    {
        self.next_id
    }

    /// The position of the tab with a stable ID, if known.
    pub fn position_of(&self, stable_id: u64) -> (r: Option<usize>)
        ensures
            r == aget(self@.forward, stable_id),
    {
        match find_fwd(&self.stable_tab_to_position, stable_id) {
            Some(i) => Some(self.stable_tab_to_position[i].1),
            None => None,
        }
    }

    /// Update the stable IDs from the pane manifest (`(tab position, panes)`):
    /// a stable ID follows its reference pane to the pane's current tab; a
    /// stable ID whose reference pane closed takes a new reference on a tab
    /// still without an ID; every other tab with a tiled pane gets a fresh
    /// ID. Gives the stable IDs of the tabs that closed.
    pub fn update(&mut self, pane_manifest: &[(usize, Vec<PaneNode>)]) -> (r: Vec<u64>)
        requires
            old(self)@.next_id + pane_manifest@.len() <= u64::MAX,
        ensures
            (final(self)@, r@) == update_spec(old(self)@, pane_manifest@),
    {
        let ghost s = self@;
        let t = tiled_list(pane_manifest);
        let mut closed: Vec<(u32, u64)> = Vec::new();
        let mut live: Vec<(u32, u64)> = Vec::new();
        let mut i: usize = 0;
        while i < self.reference_pane_to_tab.len()
            invariant
                i <= s.refs.len(),
                self@ == s,
                closed@ == refs_where(s.refs.subrange(0, i as int), t@, false),
                live@ == refs_where(s.refs.subrange(0, i as int), t@, true),
            decreases self.reference_pane_to_tab.len() - i,
        {
            assert(s.refs.subrange(0, i + 1).drop_last() =~= s.refs.subrange(0, i as int));
            let e = self.reference_pane_to_tab[i];
            if current_tab_of(&t, e.0).is_some() {
                live.push(e);
            } else {
                closed.push(e);
            }
            i = i + 1;
        }
        assert(s.refs.subrange(0, s.refs.len() as int) =~= s.refs);

        let mut forward: Vec<(u64, usize)> = Vec::new();
        let mut reverse: Vec<(usize, u64)> = Vec::new();
        let mut i: usize = 0;
        while i < live.len()
            invariant
                i <= live@.len(),
                (forward@, reverse@) == placed(live@.subrange(0, i as int), t@),
            decreases live.len() - i,
        {
            assert(live@.subrange(0, i + 1).drop_last() =~= live@.subrange(0, i as int));
            match current_tab_of(&t, live[i].0) {
                Some(pos) => {
                    set_fwd(&mut forward, live[i].1, pos);
                    set_rev(&mut reverse, pos, live[i].1);
                },
                None => {},
            }
            i = i + 1;
        }
        assert(live@.subrange(0, live@.len() as int) =~= live@);
        self.reference_pane_to_tab = live;
        self.stable_tab_to_position = forward;
        self.position_to_stable = reverse;

        let ghost s0 = self@;
        let mut j: usize = 0;
        while j < closed.len()
            invariant
                j <= closed@.len(),
                self@ == reassigned(s0, closed@.subrange(0, j as int), pane_manifest@),
                self.next_id == s.next_id,
            decreases closed.len() - j,
        {
            assert(closed@.subrange(0, j + 1).drop_last() =~= closed@.subrange(0, j as int));
            let id = closed[j].1;
            if find_fwd(&self.stable_tab_to_position, id).is_none() {
                match free_tab_of(pane_manifest, &self.position_to_stable) {
                    Some((pos, pane)) => {
                        set_refs(&mut self.reference_pane_to_tab, pane, id);
                        set_fwd(&mut self.stable_tab_to_position, id, pos);
                        set_rev(&mut self.position_to_stable, pos, id);
                    },
                    None => {},
                }
            }
            j = j + 1;
        }
        assert(closed@.subrange(0, closed@.len() as int) =~= closed@);

        let ghost s1 = self@;
        let mut lost: Vec<u64> = Vec::new();
        let mut j: usize = 0;
        while j < closed.len()
            invariant
                j <= closed@.len(),
                self@ == s1,
                lost@ == lost_ids(closed@.subrange(0, j as int), s1.forward),
            decreases closed.len() - j,
        {
            assert(closed@.subrange(0, j + 1).drop_last() =~= closed@.subrange(0, j as int));
            let id = closed[j].1;
            if find_fwd(&self.stable_tab_to_position, id).is_none() {
                let mut seen = false;
                let mut k: usize = 0;
                while k < lost.len()
                    invariant
                        k <= lost@.len(),
                        seen == (exists|x: int| 0 <= x < k && lost@[x] == id),
                    decreases lost.len() - k,
                {
                    if lost[k] == id {
                        seen = true;
                    }
                    k = k + 1;
                }
                if !seen {
                    lost.push(id);
                }
            }
            j = j + 1;
        }
        assert(closed@.subrange(0, closed@.len() as int) =~= closed@);

        let mut i: usize = 0;
        while i < pane_manifest.len()
            invariant
                i <= pane_manifest@.len(),
                self@ == fresh_ids(s1, pane_manifest@.subrange(0, i as int)),
                s1.next_id == s.next_id,
                s.next_id + pane_manifest@.len() <= u64::MAX,
                self.next_id <= s.next_id + i,
            decreases pane_manifest.len() - i,
        {
            assert(pane_manifest@.subrange(0, i + 1).drop_last() =~= pane_manifest@.subrange(0, i as int));
            let pos = pane_manifest[i].0;
            if find_rev(&self.position_to_stable, pos).is_none() {
                match first_tiled_of(&pane_manifest[i].1) {
                    Some(pane) => {
                        let id = self.next_id;
                        self.next_id = id + 1;
                        set_refs(&mut self.reference_pane_to_tab, pane, id);
                        set_fwd(&mut self.stable_tab_to_position, id, pos);
                        set_rev(&mut self.position_to_stable, pos, id);
                    },
                    None => {},
                }
            }
            i = i + 1;
        }
        assert(pane_manifest@.subrange(0, pane_manifest@.len() as int) =~= pane_manifest@);
        lost
    }
}


// ---------------------------------------------------------------------------
// Laws

/// No two references share a stable ID.
pub open spec fn ids_distinct(refs: Seq<(u32, u64)>) -> bool {
    forall|i: int, j: int| 0 <= i < j < refs.len() ==> #[trigger] refs[i].1 != #[trigger] refs[j].1
}

/// Every referenced stable ID is below `n`.
pub open spec fn ids_below(refs: Seq<(u32, u64)>, n: u64) -> bool {
    forall|i: int| 0 <= i < refs.len() ==> #[trigger] refs[i].1 < n
}

/// A tracker is valid when no two references share a stable ID and every
/// stable ID is below the next fresh one; the empty tracker is valid.
pub open spec fn tracker_wf(s: TrackerView) -> bool {
    ids_distinct(s.refs) && ids_below(s.refs, s.next_id)
}

proof fn lemma_aget_aset<K, V>(s: Seq<(K, V)>, k: K, v: V, k2: K)
    ensures
        aget(aset(s, k, v), k2) == if k2 == k { Some(v) } else { aget(s, k2) },
{
    lemma_aindex(s, k);
    lemma_aindex(s, k2);
    match aindex(s, k) {
        Some(i) => {
            let t = s.update(i, (k, v));
            lemma_aindex(t, k2);
            match aindex(t, k2) {
                Some(j) => {
                    match aindex(s, k2) {
                        Some(m) => {
                            if m < j { assert(t[m].0 == s[m].0); }
                            if j < m { assert(t[j].0 == s[j].0); }
                        },
                        None => { assert(t[j].0 == s[j].0); },
                    }
                },
                None => {
                    match aindex(s, k2) {
                        Some(m) => { assert(t[m].0 == s[m].0); },
                        None => {},
                    }
                },
            }
        },
        None => {
            let t = s.push((k, v));
            lemma_aindex(t, k2);
            assert(t.drop_last() =~= s);
            match aindex(s, k2) {
                Some(m) => { assert(t[m] == s[m]); },
                None => {},
            }
        },
    }
}

/// Whether some reference holds the stable ID.
pub open spec fn holds_id(refs: Seq<(u32, u64)>, x: u64) -> bool {
    exists|j: int| 0 <= j < refs.len() && refs[j].1 == x
}

/// `aset` with a value no entry holds keeps the values distinct.
proof fn lemma_aset_fresh_value(refs: Seq<(u32, u64)>, k: u32, v: u64)
    requires
        ids_distinct(refs),
        forall|i: int| 0 <= i < refs.len() ==> #[trigger] refs[i].1 != v,
    ensures
        ids_distinct(aset(refs, k, v)),
        forall|x: u64| holds_id(aset(refs, k, v), x) ==> x == v || holds_id(refs, x),
{
    lemma_aindex(refs, k);
    let t = aset(refs, k, v);
    match aindex(refs, k) {
        Some(i) => {
            assert forall|a: int, b: int| 0 <= a < b < t.len() implies #[trigger] t[a].1 != #[trigger] t[b].1 by {
                if a != i && b != i { assert(t[a] == refs[a] && t[b] == refs[b]); }
                else if a == i { assert(t[b] == refs[b]); }
                else { assert(t[a] == refs[a]); }
            }
            assert forall|x: u64| holds_id(t, x) implies x == v || holds_id(refs, x) by {
                let j = choose|j: int| 0 <= j < t.len() && t[j].1 == x;
                if j != i { assert(refs[j].1 == x); }
            }
        },
        None => {
            assert forall|a: int, b: int| 0 <= a < b < t.len() implies #[trigger] t[a].1 != #[trigger] t[b].1 by {
                if b < refs.len() { assert(t[a] == refs[a] && t[b] == refs[b]); }
                else { assert(t[a] == refs[a]); }
            }
            assert forall|x: u64| holds_id(t, x) implies x == v || holds_id(refs, x) by {
                let j = choose|j: int| 0 <= j < t.len() && t[j].1 == x;
                if j < refs.len() { assert(refs[j].1 == x); }
            }
        },
    }
}




proof fn lemma_refs_where(refs: Seq<(u32, u64)>, t: Seq<(u32, usize)>, live: bool)
    requires
        ids_distinct(refs),
    ensures
        ids_distinct(refs_where(refs, t, live)),
        forall|x: (u32, u64)| #[trigger] refs_where(refs, t, live).contains(x)
            <==> refs.contains(x) && (current_tab(t, x.0) is Some) == live,
    decreases refs.len(),
{
    let rw = refs_where(refs, t, live);
    if refs.len() > 0 {
        let d = refs.drop_last();
        assert forall|i: int, j: int| 0 <= i < j < d.len() implies #[trigger] d[i].1 != #[trigger] d[j].1 by {
            assert(d[i] == refs[i] && d[j] == refs[j]);
        }
        lemma_refs_where(d, t, live);
        let rest = refs_where(d, t, live);
        assert forall|x: (u32, u64)| refs.contains(x) <==> d.contains(x) || x == refs.last() by {
            if refs.contains(x) {
                let k = choose|k: int| 0 <= k < refs.len() && refs[k] == x;
                if k < refs.len() - 1 { assert(d[k] == x); }
            }
            if d.contains(x) {
                let k = choose|k: int| 0 <= k < d.len() && d[k] == x;
                assert(refs[k] == x);
            }
            if x == refs.last() { assert(refs[refs.len() - 1] == x); }
        }
        if (current_tab(t, refs.last().0) is Some) == live {
            assert(rw == rest.push(refs.last()));
            assert forall|i: int, j: int| 0 <= i < j < rw.len() implies #[trigger] rw[i].1 != #[trigger] rw[j].1 by {
                if j == rw.len() - 1 {
                    assert(rest.contains(rw[i]));
                    let k = choose|k: int| 0 <= k < d.len() && d[k] == rw[i];
                    assert(refs[k] == d[k]);
                    assert(refs[k].1 != refs[refs.len() - 1].1);
                } else {
                    assert(rw[i] == rest[i] && rw[j] == rest[j]);
                }
            }
            assert forall|x: (u32, u64)| #[trigger] rw.contains(x) <==> rest.contains(x) || x == refs.last() by {
                if rw.contains(x) {
                    let k = choose|k: int| 0 <= k < rw.len() && rw[k] == x;
                    if k < rest.len() { assert(rest[k] == x); }
                }
                if rest.contains(x) {
                    let k = choose|k: int| 0 <= k < rest.len() && rest[k] == x;
                    assert(rw[k] == x);
                }
                if x == refs.last() { assert(rw[rw.len() - 1] == x); }
            }
        } else {
            assert(rw == rest);
        }
    }
}

proof fn lemma_placed(live: Seq<(u32, u64)>, t: Seq<(u32, usize)>)
    requires
        ids_distinct(live),
        forall|x: (u32, u64)| #[trigger] live.contains(x) ==> current_tab(t, x.0) is Some,
    ensures
        forall|x: (u32, u64)| #[trigger] live.contains(x) ==> aget(placed(live, t).0, x.1) == current_tab(t, x.0),
    decreases live.len(),
{
    if live.len() > 0 {
        let d = live.drop_last();
        assert forall|i: int, j: int| 0 <= i < j < d.len() implies #[trigger] d[i].1 != #[trigger] d[j].1 by {
            assert(d[i] == live[i] && d[j] == live[j]);
        }
        assert forall|x: (u32, u64)| #[trigger] d.contains(x) implies live.contains(x) by {
            let k = choose|k: int| 0 <= k < d.len() && d[k] == x;
            assert(live[k] == x);
        }
        lemma_placed(d, t);
        let (f, r) = placed(d, t);
        let last = live.last();
        assert(live.contains(last)) by { assert(live[live.len() - 1] == last); }
        let pos = current_tab(t, last.0)->Some_0;
        assert forall|x: (u32, u64)| #[trigger] live.contains(x) implies aget(placed(live, t).0, x.1) == current_tab(t, x.0) by {
            lemma_aget_aset(f, last.1, pos, x.1);
            let k = choose|k: int| 0 <= k < live.len() && live[k] == x;
            if k < live.len() - 1 {
                assert(d[k] == x);
                assert(d.contains(x));
                assert(live[k].1 != live[live.len() - 1].1);
            }
        }
    }
}

/// What `reassigned` keeps of a valid tracker: distinct IDs below the next
/// fresh one, each with a position, and the positions already known.
pub open spec fn placed_wf(s: TrackerView) -> bool {
    &&& ids_distinct(s.refs)
    &&& ids_below(s.refs, s.next_id)
    &&& forall|i: int| 0 <= i < s.refs.len() ==> aget(s.forward, #[trigger] s.refs[i].1) is Some
}

proof fn lemma_reassigned(s: TrackerView, closed: Seq<(u32, u64)>, m: Seq<(usize, Vec<PaneNode>)>)
    requires
        placed_wf(s),
        forall|i: int| 0 <= i < closed.len() ==> #[trigger] closed[i].1 < s.next_id,
    ensures
        placed_wf(reassigned(s, closed, m)),
        reassigned(s, closed, m).next_id == s.next_id,
        forall|id: u64| aget(s.forward, id) is Some ==> #[trigger] aget(reassigned(s, closed, m).forward, id) == aget(s.forward, id),
    decreases closed.len(),
{
    if closed.len() > 0 {
        let d = closed.drop_last();
        assert forall|i: int| 0 <= i < d.len() implies #[trigger] d[i].1 < s.next_id by {
            assert(d[i] == closed[i]);
        }
        lemma_reassigned(s, d, m);
        let s1 = reassigned(s, d, m);
        let id = closed.last().1;
        assert(id < s.next_id) by { assert(closed[closed.len() - 1].1 < s.next_id); }
        if aget(s1.forward, id) is None {
            match free_tab(m, s1.reverse) {
                Some((pos, pane)) => {
                    assert forall|i: int| 0 <= i < s1.refs.len() implies #[trigger] s1.refs[i].1 != id by {
                        assert(aget(s1.forward, s1.refs[i].1) is Some);
                    }
                    lemma_aset_fresh_value(s1.refs, pane, id);
                    let s2 = reassigned(s, closed, m);
                    assert(s2.refs == aset(s1.refs, pane, id));
                    assert(s2.forward == aset(s1.forward, id, pos));
                    assert forall|i: int| 0 <= i < s2.refs.len() implies aget(s2.forward, #[trigger] s2.refs[i].1) is Some && s2.refs[i].1 < s2.next_id by {
                        let x = s2.refs[i].1;
                        assert(holds_id(s2.refs, x));
                        lemma_aget_aset(s1.forward, id, pos, x);
                        if x != id {
                            assert(holds_id(s1.refs, x));
                            let j = choose|j: int| 0 <= j < s1.refs.len() && s1.refs[j].1 == x;
                            assert(aget(s1.forward, s1.refs[j].1) is Some);
                            assert(s1.refs[j].1 < s1.next_id);
                        }
                    }
                    assert forall|id0: u64| aget(s.forward, id0) is Some implies #[trigger] aget(s2.forward, id0) == aget(s.forward, id0) by {
                        lemma_aget_aset(s1.forward, id, pos, id0);
                    }
                },
                None => {},
            }
        }
    }
}

proof fn lemma_fresh_ids(s: TrackerView, m: Seq<(usize, Vec<PaneNode>)>)
    requires
        ids_distinct(s.refs),
        ids_below(s.refs, s.next_id),
        s.next_id + m.len() <= u64::MAX,
    ensures
        ids_distinct(fresh_ids(s, m).refs),
        ids_below(fresh_ids(s, m).refs, fresh_ids(s, m).next_id),
        s.next_id <= fresh_ids(s, m).next_id <= s.next_id + m.len(),
        forall|id: u64| id < s.next_id ==> #[trigger] aget(fresh_ids(s, m).forward, id) == aget(s.forward, id),
    decreases m.len(),
{
    if m.len() > 0 {
        lemma_fresh_ids(s, m.drop_last());
        let s1 = fresh_ids(s, m.drop_last());
        let (pos, panes) = m.last();
        if aget(s1.reverse, pos) is None && first_tiled(panes@) is Some {
            let id = s1.next_id;
            let pane = first_tiled(panes@)->Some_0;
            assert forall|i: int| 0 <= i < s1.refs.len() implies #[trigger] s1.refs[i].1 != id by {
                assert(s1.refs[i].1 < s1.next_id);
            }
            lemma_aset_fresh_value(s1.refs, pane, id);
            let s2 = fresh_ids(s, m);
            assert(s2.refs == aset(s1.refs, pane, id));
            assert(s2.next_id == id + 1);
            assert forall|i: int| 0 <= i < s2.refs.len() implies #[trigger] s2.refs[i].1 < s2.next_id by {
                let x = s2.refs[i].1;
                assert(holds_id(s2.refs, x));
                if x != id {
                    assert(holds_id(s1.refs, x));
                    let j = choose|j: int| 0 <= j < s1.refs.len() && s1.refs[j].1 == x;
                    assert(s1.refs[j].1 < s1.next_id);
                }
            }
            assert forall|id0: u64| id0 < s.next_id implies #[trigger] aget(s2.forward, id0) == aget(s.forward, id0) by {
                lemma_aget_aset(s1.forward, id, pos, id0);
            }
        }
    }
}

proof fn lemma_update_parts(s: TrackerView, m: Seq<(usize, Vec<PaneNode>)>)
    requires
        tracker_wf(s),
    ensures ({
        let t = tiled_panes(m);
        let closed = refs_where(s.refs, t, false);
        let live = refs_where(s.refs, t, true);
        let (f, r) = placed(live, t);
        let s0 = TrackerView { next_id: s.next_id, refs: live, forward: f, reverse: r };
        &&& placed_wf(s0)
        &&& forall|i: int| 0 <= i < closed.len() ==> #[trigger] closed[i].1 < s.next_id
        &&& forall|x: (u32, u64)| s.refs.contains(x) && current_tab(t, x.0) is Some ==> #[trigger] aget(f, x.1) == current_tab(t, x.0)
    }),
{
    let t = tiled_panes(m);
    lemma_refs_where(s.refs, t, false);
    lemma_refs_where(s.refs, t, true);
    let closed = refs_where(s.refs, t, false);
    let live = refs_where(s.refs, t, true);
    lemma_placed(live, t);
    let (f, r) = placed(live, t);
    assert forall|i: int| 0 <= i < live.len() implies aget(f, #[trigger] live[i].1) is Some && live[i].1 < s.next_id by {
        assert(live.contains(live[i]));
        let k = choose|k: int| 0 <= k < s.refs.len() && s.refs[k] == live[i];
        assert(s.refs[k].1 < s.next_id);
    }
    assert forall|i: int| 0 <= i < closed.len() implies #[trigger] closed[i].1 < s.next_id by {
        assert(closed.contains(closed[i]));
        let k = choose|k: int| 0 <= k < s.refs.len() && s.refs[k] == closed[i];
        assert(s.refs[k].1 < s.next_id);
    }
    assert forall|x: (u32, u64)| s.refs.contains(x) && current_tab(t, x.0) is Some implies #[trigger] aget(f, x.1) == current_tab(t, x.0) by {
        assert(live.contains(x));
    }
}

/// Updating keeps a tracker valid: no two references share a stable ID and
/// every stable ID stays below the next fresh one.
pub proof fn law_update_keeps_tracker_valid(s: TrackerView, m: Seq<(usize, Vec<PaneNode>)>)
    requires
        tracker_wf(s),
        s.next_id + m.len() <= u64::MAX,
    ensures
        tracker_wf(update_spec(s, m).0),
{
    lemma_update_parts(s, m);
    let t = tiled_panes(m);
    let closed = refs_where(s.refs, t, false);
    let live = refs_where(s.refs, t, true);
    let (f, r) = placed(live, t);
    let s0 = TrackerView { next_id: s.next_id, refs: live, forward: f, reverse: r };
    lemma_reassigned(s0, closed, m);
    let s1 = reassigned(s0, closed, m);
    lemma_fresh_ids(s1, m);
}

/// A stable ID follows its reference pane: when the pane is still a tiled
/// pane after an update, the ID's tab is the one the pane is in now, wherever
/// the tabs moved.
pub proof fn law_stable_id_follows_reference(s: TrackerView, m: Seq<(usize, Vec<PaneNode>)>, pane: u32, id: u64, pos: usize)
    requires
        tracker_wf(s),
        s.next_id + m.len() <= u64::MAX,
        s.refs.contains((pane, id)),
        current_tab(tiled_panes(m), pane) == Some(pos),
    ensures
        aget(update_spec(s, m).0.forward, id) == Some(pos),
{
    lemma_update_parts(s, m);
    let t = tiled_panes(m);
    let closed = refs_where(s.refs, t, false);
    let live = refs_where(s.refs, t, true);
    let (f, r) = placed(live, t);
    let s0 = TrackerView { next_id: s.next_id, refs: live, forward: f, reverse: r };
    let x = (pane, id);
    assert(aget(f, x.1) == current_tab(t, x.0));
    assert(aget(f, id) == Some(pos));
    lemma_reassigned(s0, closed, m);
    let s1 = reassigned(s0, closed, m);
    assert(aget(s1.forward, id) == Some(pos));
    lemma_fresh_ids(s1, m);
    let k = choose|k: int| 0 <= k < s.refs.len() && s.refs[k] == (pane, id);
    assert(s.refs[k].1 < s.next_id);
}

/// The two tables name each other: a stable ID is at a position exactly when
/// that position names the stable ID.
pub open spec fn tables_inverse(forward: Seq<(u64, usize)>, reverse: Seq<(usize, u64)>) -> bool {
    forall|id: u64, p: usize| #![trigger aget(forward, id), aget(reverse, p)]
        aget(forward, id) == Some(p) <==> aget(reverse, p) == Some(id)
}

/// No two references whose pane is still tiled sit in the same tab.
pub open spec fn refs_in_distinct_tabs(refs: Seq<(u32, u64)>, t: Seq<(u32, usize)>) -> bool {
    forall|i: int, j: int|
        0 <= i < refs.len() && 0 <= j < refs.len() && i != j && current_tab(t, #[trigger] refs[i].0) is Some
            ==> current_tab(t, refs[i].0) != current_tab(t, #[trigger] refs[j].0)
}

/// Some reference's pane is in the tab at `p`.
spec fn sits_at(refs: Seq<(u32, u64)>, t: Seq<(u32, usize)>, p: usize) -> bool {
    exists|k: int| 0 <= k < refs.len() && current_tab(t, refs[k].0) == Some(p)
}

/// Inverse tables with every stable ID below the next fresh one.
spec fn maps_inverse(v: TrackerView) -> bool {
    &&& tables_inverse(v.forward, v.reverse)
    &&& forall|id: u64| #[trigger] aget(v.forward, id) is Some ==> id < v.next_id
}

proof fn lemma_aset_pair(f: Seq<(u64, usize)>, r: Seq<(usize, u64)>, id: u64, pos: usize)
    requires
        tables_inverse(f, r),
        aget(f, id) is None,
        aget(r, pos) is None,
    ensures
        tables_inverse(aset(f, id, pos), aset(r, pos, id)),
{
    assert forall|id2: u64, p2: usize| #![trigger aget(aset(f, id, pos), id2), aget(aset(r, pos, id), p2)]
        aget(aset(f, id, pos), id2) == Some(p2) <==> aget(aset(r, pos, id), p2) == Some(id2) by {
        lemma_aget_aset(f, id, pos, id2);
        lemma_aget_aset(r, pos, id, p2);
        if aget(f, id2) == Some(p2) {
            assert(aget(r, p2) == Some(id2));
        }
        if aget(r, p2) == Some(id2) {
            assert(aget(f, id2) == Some(p2));
        }
    }
}

proof fn lemma_placed_inverse(live: Seq<(u32, u64)>, t: Seq<(u32, usize)>)
    requires
        ids_distinct(live),
        forall|i: int| 0 <= i < live.len() ==> current_tab(t, #[trigger] live[i].0) is Some,
        refs_in_distinct_tabs(live, t),
    ensures
        tables_inverse(placed(live, t).0, placed(live, t).1),
        forall|id: u64| #[trigger] aget(placed(live, t).0, id) is Some ==> holds_id(live, id),
        forall|p: usize| #[trigger] aget(placed(live, t).1, p) is Some ==> sits_at(live, t, p),
    decreases live.len(),
{
    if live.len() > 0 {
        let d = live.drop_last();
        let n = live.len() - 1;
        assert forall|i: int, j: int| 0 <= i < j < d.len() implies #[trigger] d[i].1 != #[trigger] d[j].1 by {
            assert(d[i] == live[i] && d[j] == live[j]);
        }
        assert forall|i: int| 0 <= i < d.len() implies current_tab(t, #[trigger] d[i].0) is Some by {
            assert(d[i] == live[i]);
        }
        assert forall|i: int, j: int|
            0 <= i < d.len() && 0 <= j < d.len() && i != j && current_tab(t, #[trigger] d[i].0) is Some
            implies current_tab(t, d[i].0) != current_tab(t, #[trigger] d[j].0) by {
            assert(d[i] == live[i] && d[j] == live[j]);
        }
        lemma_placed_inverse(d, t);
        let (f, r) = placed(d, t);
        let last = live[n];
        assert(last == live.last());
        assert(current_tab(t, live[n].0) is Some);
        let pos = current_tab(t, last.0)->Some_0;
        if aget(f, last.1) is Some {
            assert(holds_id(d, last.1));
            let k = choose|k: int| 0 <= k < d.len() && d[k].1 == last.1;
            assert(d[k] == live[k]);
        }
        if aget(r, pos) is Some {
            assert(sits_at(d, t, pos));
            let k = choose|k: int| 0 <= k < d.len() && current_tab(t, d[k].0) == Some(pos);
            assert(d[k] == live[k]);
            assert(current_tab(t, live[n].0) != current_tab(t, live[k].0));
        }
        lemma_aset_pair(f, r, last.1, pos);
        assert forall|id: u64| #[trigger] aget(placed(live, t).0, id) is Some implies holds_id(live, id) by {
            lemma_aget_aset(f, last.1, pos, id);
            if id == last.1 {
                assert(live[n].1 == id);
            } else {
                assert(holds_id(d, id));
                let k = choose|k: int| 0 <= k < d.len() && d[k].1 == id;
                assert(live[k] == d[k]);
            }
        }
        assert forall|p: usize| #[trigger] aget(placed(live, t).1, p) is Some implies sits_at(live, t, p) by {
            lemma_aget_aset(r, pos, last.1, p);
            if p == pos {
                assert(current_tab(t, live[n].0) == Some(p));
            } else {
                assert(sits_at(d, t, p));
                let k = choose|k: int| 0 <= k < d.len() && current_tab(t, d[k].0) == Some(p);
                assert(live[k] == d[k]);
            }
        }
    }
}

proof fn lemma_free_tab_unnamed(m: Seq<(usize, Vec<PaneNode>)>, reverse: Seq<(usize, u64)>)
    ensures
        match free_tab(m, reverse) {
            Some((pos, pane)) => aget(reverse, pos) is None,
            None => true,
        },
    decreases m.len(),
{
    if m.len() > 0 {
        lemma_free_tab_unnamed(m.drop_last(), reverse);
    }
}

proof fn lemma_reassigned_inverse(s: TrackerView, closed: Seq<(u32, u64)>, m: Seq<(usize, Vec<PaneNode>)>)
    requires
        maps_inverse(s),
        forall|i: int| 0 <= i < closed.len() ==> #[trigger] closed[i].1 < s.next_id,
    ensures
        maps_inverse(reassigned(s, closed, m)),
        reassigned(s, closed, m).next_id == s.next_id,
    decreases closed.len(),
{
    if closed.len() > 0 {
        let d = closed.drop_last();
        assert forall|i: int| 0 <= i < d.len() implies #[trigger] d[i].1 < s.next_id by {
            assert(d[i] == closed[i]);
        }
        lemma_reassigned_inverse(s, d, m);
        let s1 = reassigned(s, d, m);
        let id = closed.last().1;
        assert(id < s.next_id) by { assert(closed[closed.len() - 1].1 < s.next_id); }
        if aget(s1.forward, id) is None {
            lemma_free_tab_unnamed(m, s1.reverse);
            match free_tab(m, s1.reverse) {
                Some((pos, pane)) => {
                    lemma_aset_pair(s1.forward, s1.reverse, id, pos);
                    let s2 = reassigned(s, closed, m);
                    assert forall|x: u64| #[trigger] aget(s2.forward, x) is Some implies x < s2.next_id by {
                        lemma_aget_aset(s1.forward, id, pos, x);
                    }
                },
                None => {},
            }
        }
    }
}

proof fn lemma_fresh_ids_inverse(s: TrackerView, m: Seq<(usize, Vec<PaneNode>)>)
    requires
        maps_inverse(s),
        s.next_id + m.len() <= u64::MAX,
    ensures
        maps_inverse(fresh_ids(s, m)),
        s.next_id <= fresh_ids(s, m).next_id <= s.next_id + m.len(),
    decreases m.len(),
{
    if m.len() > 0 {
        lemma_fresh_ids_inverse(s, m.drop_last());
        let s1 = fresh_ids(s, m.drop_last());
        let (pos, panes) = m.last();
        if aget(s1.reverse, pos) is None && first_tiled(panes@) is Some {
            let id = s1.next_id;
            if aget(s1.forward, id) is Some {
                assert(id < s1.next_id);
            }
            lemma_aset_pair(s1.forward, s1.reverse, id, pos);
            let s2 = fresh_ids(s, m);
            assert forall|x: u64| #[trigger] aget(s2.forward, x) is Some implies x < s2.next_id by {
                lemma_aget_aset(s1.forward, id, pos, x);
            }
        }
    }
}

/// After an update the two tables stay each other's inverse: a stable ID is
/// at a position exactly when that position names the stable ID. This holds
/// whenever the reference panes that are still tiled sit in different tabs,
/// as they do when tabs are only reordered.
pub proof fn law_update_keeps_tables_inverse(s: TrackerView, m: Seq<(usize, Vec<PaneNode>)>)
    requires
        tracker_wf(s),
        s.next_id + m.len() <= u64::MAX,
        refs_in_distinct_tabs(s.refs, tiled_panes(m)),
    ensures
        tables_inverse(update_spec(s, m).0.forward, update_spec(s, m).0.reverse),
{
    let t = tiled_panes(m);
    lemma_refs_where(s.refs, t, false);
    lemma_refs_where(s.refs, t, true);
    let closed = refs_where(s.refs, t, false);
    let live = refs_where(s.refs, t, true);
    assert forall|i: int| 0 <= i < live.len() implies current_tab(t, #[trigger] live[i].0) is Some by {
        assert(live.contains(live[i]));
    }
    assert forall|i: int, j: int|
        0 <= i < live.len() && 0 <= j < live.len() && i != j && current_tab(t, #[trigger] live[i].0) is Some
        implies current_tab(t, live[i].0) != current_tab(t, #[trigger] live[j].0) by {
        assert(live.contains(live[i]) && live.contains(live[j]));
        let k1 = choose|k: int| 0 <= k < s.refs.len() && s.refs[k] == live[i];
        let k2 = choose|k: int| 0 <= k < s.refs.len() && s.refs[k] == live[j];
        if i < j { assert(live[i].1 != live[j].1); } else { assert(live[j].1 != live[i].1); }
        assert(k1 != k2);
        assert(current_tab(t, s.refs[k1].0) != current_tab(t, s.refs[k2].0));
    }
    lemma_placed_inverse(live, t);
    let (f, r) = placed(live, t);
    let s0 = TrackerView { next_id: s.next_id, refs: live, forward: f, reverse: r };
    assert forall|id: u64| #[trigger] aget(s0.forward, id) is Some implies id < s0.next_id by {
        assert(holds_id(live, id));
        let k = choose|k: int| 0 <= k < live.len() && live[k].1 == id;
        assert(live.contains(live[k]));
        let k2 = choose|k2: int| 0 <= k2 < s.refs.len() && s.refs[k2] == live[k];
        assert(s.refs[k2].1 < s.next_id);
    }
    assert forall|i: int| 0 <= i < closed.len() implies #[trigger] closed[i].1 < s.next_id by {
        assert(closed.contains(closed[i]));
        let k = choose|k: int| 0 <= k < s.refs.len() && s.refs[k] == closed[i];
        assert(s.refs[k].1 < s.next_id);
    }
    lemma_reassigned_inverse(s0, closed, m);
    let s1 = reassigned(s0, closed, m);
    lemma_fresh_ids_inverse(s1, m);
}

/// The empty tracker is valid.
pub proof fn law_empty_tracker_valid()
    ensures
        tracker_wf(TrackerView { next_id: 0, refs: Seq::empty(), forward: Seq::empty(), reverse: Seq::empty() }),
{
}

} // verus!
