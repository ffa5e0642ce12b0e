//! The session tree: every tab with its tiled and floating panes.

use vstd::prelude::*;
use crate::stable_tabs::{aget, StableTabTracker};

verus! {

/// The full session tree returned by the `tree` command.
#[derive(Debug)]
pub struct SessionTree {
    pub tabs: Vec<TabNode>,
}

/// A tab with every field zellij reports, its stable ID, and its panes.
#[derive(Debug)]
pub struct TabNode {
    pub stable_id: Option<u64>,
    pub position: usize,
    pub name: String,
    pub active: bool,
    pub panes_to_hide: usize,
    pub is_fullscreen_active: bool,
    pub is_sync_panes_active: bool,
    pub are_floating_panes_visible: bool,
    pub active_swap_layout_name: Option<String>,
    pub is_swap_layout_dirty: bool,
    pub tiled_panes: Vec<PaneNode>,
    pub floating_panes: Vec<PaneNode>,
}

/// A pane with every field zellij reports.
#[derive(Debug, Clone)]
pub struct PaneNode {
    pub id: u32,
    pub is_plugin: bool,
    pub is_focused: bool,
    pub is_fullscreen: bool,
    pub is_floating: bool,
    pub is_suppressed: bool,
    pub title: String,
    pub exited: bool,
    pub exit_status: Option<i32>,
    pub is_held: bool,
    pub pane_x: usize,
    pub pane_content_x: usize,
    pub pane_y: usize,
    pub pane_content_y: usize,
    pub pane_rows: usize,
    pub pane_content_rows: usize,
    pub pane_columns: usize,
    pub pane_content_columns: usize,
    pub cursor_coordinates_in_pane: Option<(usize, usize)>,
    pub terminal_command: Option<String>,
    pub plugin_url: Option<String>,
    pub is_selectable: bool,
}


/// What zellij reports of a tab.
#[derive(Debug, Clone)]
pub struct TabDescription {
    pub position: usize,
    pub name: String,
    pub active: bool,
    pub panes_to_hide: usize,
    pub is_fullscreen_active: bool,
    pub is_sync_panes_active: bool,
    pub are_floating_panes_visible: bool,
    pub active_swap_layout_name: Option<String>,
    pub is_swap_layout_dirty: bool,
}

/// The panes of a tab position in the manifest (the first entry of that
/// position); none for an unknown position.
pub open spec fn panes_at(m: Seq<(usize, Vec<PaneNode>)>, pos: usize) -> Seq<PaneNode>
    decreases m.len(),
{
    if m.len() == 0 {
        Seq::empty()
    } else if panes_at(m.drop_last(), pos) != Seq::<PaneNode>::empty() || has_position(m.drop_last(), pos) {
        panes_at(m.drop_last(), pos)
    } else if m.last().0 == pos {
        m.last().1@
    } else {
        Seq::empty()
    }
}

pub open spec fn has_position(m: Seq<(usize, Vec<PaneNode>)>, pos: usize) -> bool {
    exists|i: int| 0 <= i < m.len() && #[trigger] m[i].0 == pos
}

/// The panes that are (or are not) floating, in order.
pub open spec fn floating_filter(panes: Seq<PaneNode>, floating: bool) -> Seq<PaneNode>
    decreases panes.len(),
{
    if panes.len() == 0 {
        Seq::empty()
    } else {
        let rest = floating_filter(panes.drop_last(), floating);
        if panes.last().is_floating == floating { rest.push(panes.last()) } else { rest }
    }
}

/// Whether a tab node describes a tab with these panes and this stable ID.
pub open spec fn node_of(n: TabNode, tab: TabDescription, panes: Seq<PaneNode>, stable_id: Option<u64>) -> bool {
    &&& n.stable_id == stable_id
    &&& n.position == tab.position
    &&& n.name == tab.name
    &&& n.active == tab.active
    &&& n.panes_to_hide == tab.panes_to_hide
    &&& n.is_fullscreen_active == tab.is_fullscreen_active
    &&& n.is_sync_panes_active == tab.is_sync_panes_active
    &&& n.are_floating_panes_visible == tab.are_floating_panes_visible
    &&& n.active_swap_layout_name == tab.active_swap_layout_name
    &&& n.is_swap_layout_dirty == tab.is_swap_layout_dirty
    &&& n.tiled_panes@ == floating_filter(panes, false)
    &&& n.floating_panes@ == floating_filter(panes, true)
}

/// Insert a tab after every tab whose position is not greater.
pub open spec fn insert_by_position(s: Seq<TabDescription>, t: TabDescription) -> Seq<TabDescription>
    decreases s.len(),
{
    if s.len() == 0 {
        seq![t]
    } else if t.position < s.last().position {
        insert_by_position(s.drop_last(), t).push(s.last())
    } else {
        s.push(t)
    }
}

/// The tabs ordered by position; tabs at the same position keep their order.
pub open spec fn by_position(s: Seq<TabDescription>) -> Seq<TabDescription>
    decreases s.len(),
{
    if s.len() == 0 {
        Seq::empty()
    } else {
        insert_by_position(by_position(s.drop_last()), s.last())
    }
}

proof fn lemma_by_position_len(s: Seq<TabDescription>)
    ensures
        by_position(s).len() == s.len(),
    decreases s.len(),
{
    if s.len() > 0 {
        lemma_by_position_len(s.drop_last());
        lemma_insert_by_position_len(by_position(s.drop_last()), s.last());
    }
}

proof fn lemma_insert_by_position_len(s: Seq<TabDescription>, t: TabDescription)
    ensures
        insert_by_position(s, t).len() == s.len() + 1,
    decreases s.len(),
{
    if s.len() > 0 && t.position < s.last().position {
        lemma_insert_by_position_len(s.drop_last(), t);
    }
}

proof fn lemma_insert_by_position(s: Seq<TabDescription>, t: TabDescription, k: int)
    requires
        0 <= k <= s.len(),
        forall|j: int| k <= j < s.len() ==> t.position < #[trigger] s[j].position,
        k > 0 ==> s[k - 1].position <= t.position,
    ensures
        insert_by_position(s, t) == s.insert(k, t),
    decreases s.len(),
{
    if s.len() == 0 {
        assert(s.insert(k, t) =~= seq![t]);
    } else if t.position < s.last().position {
        let d = s.drop_last();
        assert forall|j: int| k <= j < d.len() implies t.position < #[trigger] d[j].position by { assert(d[j] == s[j]); }
        if k > 0 && k < s.len() { assert(d[k - 1] == s[k - 1]); }
        if k == s.len() { assert(s[k - 1].position <= t.position); }
        lemma_insert_by_position(d, t, k);
        assert(d.insert(k, t).push(s.last()) =~= s.insert(k, t));
    } else {
        if k < s.len() { assert(t.position < s[s.len() - 1].position); }
        assert(s.push(t) =~= s.insert(k, t));
    }
}

fn copy_text(o: &Option<String>) -> (r: Option<String>)
    ensures
        r == *o,
{
    match o {
        Some(s) => Some(s.clone()),
        None => None,
    }
}

fn copy_pane(p: &PaneNode) -> (r: PaneNode)
    ensures
        r == *p,
{
    PaneNode {
        id: p.id,
        is_plugin: p.is_plugin,
        is_focused: p.is_focused,
        is_fullscreen: p.is_fullscreen,
        is_floating: p.is_floating,
        is_suppressed: p.is_suppressed,
        title: p.title.clone(),
        exited: p.exited,
        exit_status: p.exit_status,
        is_held: p.is_held,
        pane_x: p.pane_x,
        pane_content_x: p.pane_content_x,
        pane_y: p.pane_y,
        pane_content_y: p.pane_content_y,
        pane_rows: p.pane_rows,
        pane_content_rows: p.pane_content_rows,
        pane_columns: p.pane_columns,
        pane_content_columns: p.pane_content_columns,
        cursor_coordinates_in_pane: p.cursor_coordinates_in_pane,
        terminal_command: copy_text(&p.terminal_command),
        plugin_url: copy_text(&p.plugin_url),
        is_selectable: p.is_selectable,
    }
}

proof fn lemma_panes_at(m: Seq<(usize, Vec<PaneNode>)>, pos: usize)
    ensures
        !has_position(m, pos) ==> panes_at(m, pos) == Seq::<PaneNode>::empty(),
        forall|i: int| 0 <= i < m.len() && m[i].0 == pos && (forall|j: int| 0 <= j < i ==> #[trigger] m[j].0 != pos)
            ==> panes_at(m, pos) == m[i].1@,
    decreases m.len(),
{
    if m.len() > 0 {
        let d = m.drop_last();
        lemma_panes_at(d, pos);
        assert forall|i: int| 0 <= i < d.len() implies #[trigger] d[i] == m[i] by {}
        if has_position(d, pos) {
            let w = choose|i: int| 0 <= i < d.len() && #[trigger] d[i].0 == pos;
            assert(m[w].0 == pos);
        }
        assert forall|i: int| 0 <= i < m.len() && m[i].0 == pos && (forall|j: int| 0 <= j < i ==> #[trigger] m[j].0 != pos)
            implies panes_at(m, pos) == m[i].1@ by {
            if i < d.len() {
                assert(d[i].0 == pos);
                assert(has_position(d, pos));
                assert forall|j: int| 0 <= j < i implies #[trigger] d[j].0 != pos by { assert(m[j].0 != pos); }
            } else {
                assert forall|j: int| 0 <= j < d.len() implies #[trigger] d[j].0 != pos by { assert(m[j].0 != pos); }
                assert(!has_position(d, pos));
            }
        }
        if !has_position(m, pos) {
            assert(!has_position(d, pos)) by {
                if has_position(d, pos) {
                    let w = choose|i: int| 0 <= i < d.len() && #[trigger] d[i].0 == pos;
                    assert(m[w].0 == pos);
                }
            }
            assert(m.last().0 != pos) by { assert(m[m.len() - 1].0 != pos); }
        }
    }
}

/// The panes of a tab position, split into tiled and floating.
fn split_panes(m: &[(usize, Vec<PaneNode>)], pos: usize) -> (r: (Vec<PaneNode>, Vec<PaneNode>))
    ensures
        r.0@ == floating_filter(panes_at(m@, pos), false),
        r.1@ == floating_filter(panes_at(m@, pos), true),
{
    proof { lemma_panes_at(m@, pos); }
    let mut tiled: Vec<PaneNode> = Vec::new();
    let mut floating: Vec<PaneNode> = Vec::new();
    let mut i: usize = 0;
    while i < m.len()
        invariant
            i <= m@.len(),
            forall|j: int| 0 <= j < i ==> #[trigger] m@[j].0 != pos,
            tiled@ == Seq::<PaneNode>::empty(),
            floating@ == Seq::<PaneNode>::empty(),
        decreases m.len() - i,
    {
        if m[i].0 == pos {
            let panes = &m[i].1;
            proof {
                lemma_panes_at(m@, pos);
                assert(m@[i as int].0 == pos);
            }
            assert(panes_at(m@, pos) == panes@);
            let mut j: usize = 0;
            while j < panes.len()
                invariant
                    j <= panes@.len(),
                    tiled@ == floating_filter(panes@.subrange(0, j as int), false),
                    floating@ == floating_filter(panes@.subrange(0, j as int), true),
                decreases panes.len() - j,
            {
                assert(panes@.subrange(0, j + 1).drop_last() =~= panes@.subrange(0, j as int));
                let p = copy_pane(&panes[j]);
                if p.is_floating {
                    floating.push(p);
                } else {
                    tiled.push(p);
                }
                j = j + 1;
            }
            assert(panes@.subrange(0, panes@.len() as int) =~= panes@);
            return (tiled, floating);
        }
        i = i + 1;
    }
    assert(!has_position(m@, pos)) by {
        if has_position(m@, pos) {
            let w = choose|k: int| 0 <= k < m@.len() && #[trigger] m@[k].0 == pos;
            assert(m@[w].0 != pos);
        }
    }
    (tiled, floating)
}

/// Build the session tree: each tab with its stable ID and its tiled and
/// floating panes, ordered by position (tabs at one position keep their order).
pub fn build_tree(tab_infos: &[TabDescription], pane_manifest: &[(usize, Vec<PaneNode>)], tab_tracker: &StableTabTracker) -> (r: SessionTree)
    ensures
        r.tabs@.len() == tab_infos@.len(),
        forall|i: int| 0 <= i < r.tabs@.len() ==> {
            let t = #[trigger] by_position(tab_infos@)[i];
            node_of(r.tabs@[i], t, panes_at(pane_manifest@, t.position), aget(tab_tracker@.reverse, t.position))
        },
{
    let mut tabs: Vec<TabNode> = Vec::new();
    let ghost mut ds: Seq<TabDescription> = Seq::empty();
    let mut i: usize = 0;
    while i < tab_infos.len()
        invariant
            i <= tab_infos@.len(),
            ds == by_position(tab_infos@.subrange(0, i as int)),
            tabs@.len() == ds.len(),
            forall|j: int| 0 <= j < tabs@.len() ==>
                node_of(#[trigger] tabs@[j], ds[j], panes_at(pane_manifest@, ds[j].position), aget(tab_tracker@.reverse, ds[j].position)),
        decreases tab_infos.len() - i,
    {
        assert(tab_infos@.subrange(0, i + 1).drop_last() =~= tab_infos@.subrange(0, i as int));
        let tab = &tab_infos[i];
        let (tiled_panes, floating_panes) = split_panes(pane_manifest, tab.position);
        let node = TabNode {
            stable_id: tab_tracker.get_stable_id(tab.position),
            position: tab.position,
            name: tab.name.clone(),
            active: tab.active,
            panes_to_hide: tab.panes_to_hide,
            is_fullscreen_active: tab.is_fullscreen_active,
            is_sync_panes_active: tab.is_sync_panes_active,
            are_floating_panes_visible: tab.are_floating_panes_visible,
            active_swap_layout_name: copy_text(&tab.active_swap_layout_name),
            is_swap_layout_dirty: tab.is_swap_layout_dirty,
            tiled_panes,
            floating_panes,
        };
        let mut k = tabs.len();
        while k > 0 && tabs[k - 1].position > tab.position
            invariant
                k <= tabs@.len(),
                tabs@.len() == ds.len(),
                forall|j: int| 0 <= j < tabs@.len() ==> (#[trigger] tabs@[j]).position == ds[j].position,
                forall|j: int| k <= j < ds.len() ==> tab.position < #[trigger] ds[j].position,
            decreases k,
        {
            assert(tabs@[k - 1].position == ds[k - 1].position);
            k = k - 1;
        }
        proof {
            if k > 0 { assert(tabs@[k - 1].position == ds[k - 1].position); }
            lemma_insert_by_position(ds, *tab, k as int);
        }
        let ghost old_tabs = tabs@;
        let ghost old_ds = ds;
        tabs.insert(k, node);
        proof {
            ds = ds.insert(k as int, *tab);
            assert forall|j: int| 0 <= j < tabs@.len() implies
                node_of(#[trigger] tabs@[j], ds[j], panes_at(pane_manifest@, ds[j].position), aget(tab_tracker@.reverse, ds[j].position)) by {
                if j < k {
                    assert(tabs@[j] == old_tabs[j] && ds[j] == old_ds[j]);
                } else if j > k {
                    assert(tabs@[j] == old_tabs[j - 1] && ds[j] == old_ds[j - 1]);
                }
            }
        }
        i = i + 1;
    }
    assert(tab_infos@.subrange(0, tab_infos@.len() as int) =~= tab_infos@);
    proof { lemma_by_position_len(tab_infos@); }
    SessionTree { tabs }
}

} // verus!
