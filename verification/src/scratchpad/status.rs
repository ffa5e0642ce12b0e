//! The display states of scratchpads as the status bar integration sees them.

use vstd::prelude::*;
use crate::scratchpad::config::opt_view;
use crate::scratchpad::configs::{sort_names, texts_view};
use crate::scratchpad::manager::{
    flags_of, get_key, keyed_view, kget, lemma_manager_view, toggle_target, KeyView, ManagerView, PaneFlags, ScratchpadContext, ScratchpadManager,
};
use crate::stable_tabs::aget;
use crate::text::to_string;
use crate::tree::PaneNode;

verus! {

/// What the status bar shows of a scratchpad.
#[derive(Debug, Clone, Copy, PartialEq, Eq, Structural)]
pub enum ScratchpadDisplayState {
    Visible,
    Hidden,
    Closed,
}

pub open spec fn display_state_text(s: ScratchpadDisplayState) -> Seq<char> {
    match s {
        ScratchpadDisplayState::Visible => "visible"@,
        ScratchpadDisplayState::Hidden => "hidden"@,
        ScratchpadDisplayState::Closed => "closed"@,
    }
}

impl ScratchpadDisplayState {
    /// The lower-case name of the state.
    pub fn as_str(self) -> (s: &'static str)
        ensures
            s@ == display_state_text(self),
    {
        match self {
            ScratchpadDisplayState::Visible => "visible",
            ScratchpadDisplayState::Hidden => "hidden",
            ScratchpadDisplayState::Closed => "closed",
        }
    }
}

/// One scratchpad, or one instance of it, as a status item.
#[derive(Debug, Clone, PartialEq, Eq)]
pub struct ScratchpadStatusItem {
    pub name: String,
    pub title: String,
    pub state: ScratchpadDisplayState,
    pub pane_id: Option<u32>,
    pub tab_id: Option<usize>,
    pub tab_position: Option<usize>,
    pub is_focused: bool,
    pub is_mru: bool,
}

/// The status items of the current tab and of the whole session.
#[derive(Debug, Clone, Default, PartialEq, Eq)]
pub struct ScratchpadStatusSnapshot {
    pub current_items: Vec<ScratchpadStatusItem>,
    pub global_count_items: Vec<ScratchpadStatusItem>,
    pub global_items: Vec<ScratchpadStatusItem>,
}


/// A status item with its texts as character sequences.
pub struct StatusView {
    pub name: Seq<char>,
    pub title: Seq<char>,
    pub state: ScratchpadDisplayState,
    pub pane_id: Option<u32>,
    pub tab_id: Option<usize>,
    pub tab_position: Option<usize>,
    pub is_focused: bool,
    pub is_mru: bool,
}

pub open spec fn status_view(i: ScratchpadStatusItem) -> StatusView {
    StatusView {
        name: i.name@,
        title: i.title@,
        state: i.state,
        pane_id: i.pane_id,
        tab_id: i.tab_id,
        tab_position: i.tab_position,
        is_focused: i.is_focused,
        is_mru: i.is_mru,
    }
}

pub open spec fn statuses_view(v: Seq<ScratchpadStatusItem>) -> Seq<StatusView> {
    v.map_values(|i: ScratchpadStatusItem| status_view(i))
}

/// A live pane of a scratchpad on one tab.
#[derive(Clone, Copy)]
pub struct Instance {
    pub pane_id: u32,
    pub tab_id: usize,
    pub tab_position: usize,
    pub state: ScratchpadDisplayState,
    pub is_focused: bool,
}

/// The last terminal pane with an ID among these.
pub open spec fn lookup_in(panes: Seq<PaneNode>, id: u32) -> Option<PaneFlags>
    decreases panes.len(),
{
    if panes.len() == 0 {
        None
    } else if !panes.last().is_plugin && panes.last().id == id {
        Some(flags_of(panes.last()))
    } else {
        lookup_in(panes.drop_last(), id)
    }
}

/// The terminal pane with an ID at a tab position; a later entry wins.
pub open spec fn lookup_pane(m: Seq<(usize, Vec<PaneNode>)>, pos: usize, id: u32) -> Option<PaneFlags>
    decreases m.len(),
{
    if m.len() == 0 {
        None
    } else if m.last().0 == pos && lookup_in(m.last().1@, id) is Some {
        lookup_in(m.last().1@, id)
    } else {
        lookup_pane(m.drop_last(), pos, id)
    }
}

/// A scratchpad's pane on a tab, if it is live (neither exited nor held):
/// visible when floating and not suppressed, else hidden; focused when just
/// shown or focused.
pub open spec fn live_instance(m: ManagerView, c: ScratchpadContext, pane: u32, tab: usize) -> Option<Instance> {
    match aget(c.tab_id_to_position@, tab) {
        None => None,
        Some(pos) => match lookup_pane(c.pane_manifest@, pos, pane) {
            None => None,
            Some(f) => if f.exited || f.is_held {
                None
            } else {
                Some(Instance {
                    pane_id: pane,
                    tab_id: tab,
                    tab_position: pos,
                    state: if f.is_floating && !f.is_suppressed { ScratchpadDisplayState::Visible } else { ScratchpadDisplayState::Hidden },
                    is_focused: m.just_shown == Some(pane) || f.is_focused,
                })
            },
        },
    }
}

/// The title a scratchpad shows: its configured title, else its name.
pub open spec fn status_title(m: ManagerView, name: Seq<char>) -> Seq<char> {
    if m.configs.contains_key(name) && m.configs[name]@.title is Some {
        m.configs[name]@.title->Some_0
    } else {
        name
    }
}

pub open spec fn closed_item(name: Seq<char>, title: Seq<char>) -> StatusView {
    StatusView {
        name,
        title,
        state: ScratchpadDisplayState::Closed,
        pane_id: None,
        tab_id: None,
        tab_position: None,
        is_focused: false,
        is_mru: false,
    }
}

pub open spec fn instance_item(name: Seq<char>, title: Seq<char>, i: Instance) -> StatusView {
    StatusView {
        name,
        title,
        state: i.state,
        pane_id: Some(i.pane_id),
        tab_id: Some(i.tab_id),
        tab_position: Some(i.tab_position),
        is_focused: i.is_focused,
        is_mru: false,
    }
}

/// A scratchpad on the targeted tab, marked as the most recently used when
/// it is the one a toggle without a name would target.
pub open spec fn current_item(m: ManagerView, c: ScratchpadContext, name: Seq<char>) -> StatusView {
    let title = status_title(m, name);
    let base = match c.current_tab_id {
        None => closed_item(name, title),
        Some(t) => match kget(m.panes, (name, t)) {
            None => closed_item(name, title),
            Some(p) => match live_instance(m, c, p, t) {
                Some(i) => instance_item(name, title, i),
                None => closed_item(name, title),
            },
        },
    };
    StatusView { is_mru: toggle_target(m, c, None) == Some(name), ..base }
}

/// The live panes of a scratchpad on every tab, in record order.
pub open spec fn live_instances(m: ManagerView, c: ScratchpadContext, name: Seq<char>, s: Seq<(KeyView, u32)>) -> Seq<Instance>
    decreases s.len(),
{
    if s.len() == 0 {
        Seq::empty()
    } else {
        let rest = live_instances(m, c, name, s.drop_last());
        let (k, p) = s.last();
        if k.0 == name && live_instance(m, c, p, k.1) is Some {
            rest.push(live_instance(m, c, p, k.1)->Some_0)
        } else {
            rest
        }
    }
}

/// A scratchpad's counted items: one per live pane, or one closed item.
pub open spec fn count_items(m: ManagerView, c: ScratchpadContext, name: Seq<char>) -> Seq<StatusView> {
    let title = status_title(m, name);
    let insts = live_instances(m, c, name, m.panes);
    if insts.len() == 0 {
        seq![closed_item(name, title)]
    } else {
        insts.map_values(|i: Instance| instance_item(name, title, i))
    }
}

/// How an instance ranks for the session-wide item: focused and visible
/// first, then visible, focused hidden, hidden.
pub open spec fn rank(i: Instance) -> int {
    match (i.is_focused, i.state) {
        (true, ScratchpadDisplayState::Visible) => 0,
        (false, ScratchpadDisplayState::Visible) => 1,
        (true, ScratchpadDisplayState::Hidden) => 2,
        (false, ScratchpadDisplayState::Hidden) => 3,
        (_, ScratchpadDisplayState::Closed) => 4,
    }
}

/// Whether an instance goes before another: by rank, then tab position, then pane ID.
pub open spec fn before(a: Instance, b: Instance) -> bool {
    rank(a) < rank(b)
        || (rank(a) == rank(b) && (a.tab_position < b.tab_position
            || (a.tab_position == b.tab_position && a.pane_id < b.pane_id)))
}

/// The first of the best instances.
pub open spec fn best_instance(s: Seq<Instance>) -> Instance
    recommends
        s.len() > 0,
    decreases s.len(),
{
    if s.len() <= 1 {
        s[0]
    } else {
        let b = best_instance(s.drop_last());
        if before(s.last(), b) { s.last() } else { b }
    }
}

/// A scratchpad across the session: its best live pane, else closed.
pub open spec fn global_item(m: ManagerView, c: ScratchpadContext, name: Seq<char>) -> StatusView {
    let title = status_title(m, name);
    let insts = live_instances(m, c, name, m.panes);
    if insts.len() == 0 {
        closed_item(name, title)
    } else {
        let b = best_instance(insts);
        StatusView {
            state: if b.state == ScratchpadDisplayState::Visible { ScratchpadDisplayState::Visible } else { ScratchpadDisplayState::Hidden },
            ..instance_item(name, title, b)
        }
    }
}

pub open spec fn all_count_items(m: ManagerView, c: ScratchpadContext, names: Seq<Seq<char>>) -> Seq<StatusView>
    decreases names.len(),
{
    if names.len() == 0 {
        Seq::empty()
    } else {
        all_count_items(m, c, names.drop_last()) + count_items(m, c, names.last())
    }
}

/// The status of every configured scratchpad, by name: on the targeted
/// tab, every live pane (for counting), and across the session.
pub open spec fn snapshot_spec(m: ManagerView, c: ScratchpadContext) -> (Seq<StatusView>, Seq<StatusView>, Seq<StatusView>) {
    let names = sort_names(m.config_names);
    (
        names.map_values(|n: Seq<char>| current_item(m, c, n)),
        all_count_items(m, c, names),
        names.map_values(|n: Seq<char>| global_item(m, c, n)),
    )
}


fn lookup_in_panes(panes: &Vec<PaneNode>, id: u32) -> (r: Option<PaneFlags>)
    ensures
        r == lookup_in(panes@, id),
{
    let mut j = panes.len();
    assert(panes@.subrange(0, j as int) =~= panes@);
    while j > 0
        invariant
            j <= panes@.len(),
            lookup_in(panes@, id) == lookup_in(panes@.subrange(0, j as int), id),
        decreases j,
    {
        assert(panes@.subrange(0, j as int).drop_last() =~= panes@.subrange(0, j - 1));
        assert(panes@.subrange(0, j as int).last() == panes@[j - 1]);
        let p = &panes[j - 1];
        if !p.is_plugin && p.id == id {
            return Some(PaneFlags {
                id: p.id,
                is_floating: p.is_floating,
                is_suppressed: p.is_suppressed,
                is_focused: p.is_focused,
                exited: p.exited,
                is_held: p.is_held,
            });
        }
        j = j - 1;
    }
    None
}

fn lookup_pane_at(m: &Vec<(usize, Vec<PaneNode>)>, pos: usize, id: u32) -> (r: Option<PaneFlags>)
    ensures
        r == lookup_pane(m@, pos, id),
{
    let mut i = m.len();
    assert(m@.subrange(0, i as int) =~= m@);
    while i > 0
        invariant
            i <= m@.len(),
            lookup_pane(m@, pos, id) == lookup_pane(m@.subrange(0, i as int), pos, id),
        decreases i,
    {
        assert(m@.subrange(0, i as int).drop_last() =~= m@.subrange(0, i - 1));
        assert(m@.subrange(0, i as int).last() == m@[i - 1]);
        if m[i - 1].0 == pos {
            let found = lookup_in_panes(&m[i - 1].1, id);
            if found.is_some() {
                return found;
            }
        }
        i = i - 1;
    }
    None
}

fn position_of_tab(v: &Vec<(usize, usize)>, tab: usize) -> (r: Option<usize>)
    ensures
        r == aget(v@, tab),
{
    proof { crate::stable_tabs::lemma_aindex(v@, tab); }
    let mut i: usize = 0;
    while i < v.len()
        invariant
            i <= v@.len(),
            forall|j: int| 0 <= j < i ==> #[trigger] v@[j].0 != tab,
            match crate::stable_tabs::aindex(v@, tab) {
                Some(k) => 0 <= k < v@.len() && v@[k].0 == tab && forall|j: int| 0 <= j < k ==> #[trigger] v@[j].0 != tab,
                None => forall|j: int| 0 <= j < v@.len() ==> #[trigger] v@[j].0 != tab,
            },
        decreases v.len() - i,
    {
        if v[i].0 == tab {
            proof {
                match crate::stable_tabs::aindex(v@, tab) {
                    Some(k) => {
                        if k < i { assert(v@[k].0 != tab); }
                        if k > i { assert(v@[i as int].0 != tab); }
                    },
                    None => { assert(v@[i as int].0 != tab); },
                }
            }
            return Some(v[i].1);
        }
        i = i + 1;
    }
    None
}

fn closed_status(name: &str, title: String) -> (r: ScratchpadStatusItem)
    ensures
        status_view(r) == closed_item(name@, title@),
{
    ScratchpadStatusItem {
        name: to_string(name),
        title,
        state: ScratchpadDisplayState::Closed,
        pane_id: None,
        tab_id: None,
        tab_position: None,
        is_focused: false,
        is_mru: false,
    }
}

fn instance_status(name: &str, title: String, i: &Instance) -> (r: ScratchpadStatusItem)
    ensures
        status_view(r) == instance_item(name@, title@, *i),
{
    ScratchpadStatusItem {
        name: to_string(name),
        title,
        state: i.state,
        pane_id: Some(i.pane_id),
        tab_id: Some(i.tab_id),
        tab_position: Some(i.tab_position),
        is_focused: i.is_focused,
        is_mru: false,
    }
}

fn rank_of(i: &Instance) -> (r: u8)
    ensures
        r as int == rank(*i),
{
    match (i.is_focused, i.state) {
        (true, ScratchpadDisplayState::Visible) => 0,
        (false, ScratchpadDisplayState::Visible) => 1,
        (true, ScratchpadDisplayState::Hidden) => 2,
        (false, ScratchpadDisplayState::Hidden) => 3,
        (_, ScratchpadDisplayState::Closed) => 4,
    }
}

fn goes_before(a: &Instance, b: &Instance) -> (r: bool)
    ensures
        r == before(*a, *b),
{
    let ra = rank_of(a);
    let rb = rank_of(b);
    ra < rb || (ra == rb && (a.tab_position < b.tab_position
        || (a.tab_position == b.tab_position && a.pane_id < b.pane_id)))
}

impl ScratchpadManager {
    fn live_instance_of(&self, c: &ScratchpadContext, pane: u32, tab: usize) -> (r: Option<Instance>)
        ensures
            r == live_instance(self@, *c, pane, tab),
    {
        proof { lemma_manager_view(self); }
        let pos = match position_of_tab(&c.tab_id_to_position, tab) {
            Some(p) => p,
            None => return None,
        };
        let f = match lookup_pane_at(&c.pane_manifest, pos, pane) {
            Some(f) => f,
            None => return None,
        };
        if f.exited || f.is_held {
            return None;
        }
        Some(Instance {
            pane_id: pane,
            tab_id: tab,
            tab_position: pos,
            state: if f.is_floating && !f.is_suppressed { ScratchpadDisplayState::Visible } else { ScratchpadDisplayState::Hidden },
            is_focused: self.just_shown == Some(pane) || f.is_focused,
        })
    }

    fn title_of(&self, name: &str) -> (r: String)
        ensures
            r@ == status_title(self@, name@),
    {
        proof { lemma_manager_view(self); }
        match self.configs.get(name) {
            Some(cfg) => match &cfg.title {
                Some(t) => t.clone(),
                None => to_string(name),
            },
            None => to_string(name),
        }
    }

    fn instances_of(&self, c: &ScratchpadContext, name: &str) -> (r: Vec<Instance>)
        ensures
            r@ == live_instances(self@, *c, name@, self@.panes),
    {
        proof { lemma_manager_view(self); }
        let ghost ps = self@.panes;
        let mut r: Vec<Instance> = Vec::new();
        let mut i: usize = 0;
        while i < self.panes.len()
            invariant
                i <= self.panes@.len(),
                ps == self@.panes,
                ps == keyed_view(self.panes@),
                ps.len() == self.panes@.len(),
                r@ == live_instances(self@, *c, name@, ps.subrange(0, i as int)),
            decreases self.panes.len() - i,
        {
            assert(ps.subrange(0, i + 1).drop_last() =~= ps.subrange(0, i as int));
            assert(ps.subrange(0, i + 1).last() == ps[i as int]);
            assert(ps[i as int] == ((self.panes@[i as int].0.0@, self.panes@[i as int].0.1), self.panes@[i as int].1));
            if crate::text::str_equals(self.panes[i].0.0.as_str(), name) {
                match self.live_instance_of(c, self.panes[i].1, self.panes[i].0.1) {
                    Some(inst) => r.push(inst),
                    None => {},
                }
            }
            i = i + 1;
        }
        assert(ps.subrange(0, ps.len() as int) =~= ps);
        r
    }

    fn current_status(&self, c: &ScratchpadContext, name: &str, mru: &Option<String>) -> (r: ScratchpadStatusItem)
        requires
            opt_view(*mru) == toggle_target(self@, *c, None),
        ensures
            status_view(r) == current_item(self@, *c, name@),
    {
        proof { lemma_manager_view(self); }
        let title = self.title_of(name);
        let mut item = match c.current_tab_id {
            None => closed_status(name, title),
            Some(t) => match get_key(&self.panes, name, t) {
                None => closed_status(name, title),
                Some(p) => match self.live_instance_of(c, p, t) {
                    Some(inst) => instance_status(name, title, &inst),
                    None => closed_status(name, title),
                },
            },
        };
        item.is_mru = match mru {
            Some(m) => crate::text::str_equals(m.as_str(), name),
            None => false,
        };
        item
    }

    fn count_statuses(&self, c: &ScratchpadContext, name: &str, out: &mut Vec<ScratchpadStatusItem>)
        ensures
            statuses_view(final(out)@) == statuses_view(old(out)@) + count_items(self@, *c, name@),
    {
        let title = self.title_of(name);
        let insts = self.instances_of(c, name);
        let ghost start = statuses_view(out@);
        if insts.len() == 0 {
            out.push(closed_status(name, title));
            assert(statuses_view(out@) =~= start + count_items(self@, *c, name@));
            return;
        }
        let mut j: usize = 0;
        while j < insts.len()
            invariant
                j <= insts@.len(),
                title@ == status_title(self@, name@),
                statuses_view(out@) == start + insts@.subrange(0, j as int).map_values(|i: Instance| instance_item(name@, title@, i)),
            decreases insts.len() - j,
        {
            let t = title.clone();
            let ghost before = statuses_view(out@);
            let item = instance_status(name, t, &insts[j]);
            out.push(item);
            assert(statuses_view(out@) =~= before.push(instance_item(name@, title@, insts@[j as int])));
            assert(insts@.subrange(0, j + 1).map_values(|i: Instance| instance_item(name@, title@, i))
                =~= insts@.subrange(0, j as int).map_values(|i: Instance| instance_item(name@, title@, i)).push(instance_item(name@, title@, insts@[j as int])));
            assert(statuses_view(out@) =~= start + insts@.subrange(0, j + 1).map_values(|i: Instance| instance_item(name@, title@, i)));
            j = j + 1;
        }
        assert(insts@.subrange(0, insts@.len() as int) =~= insts@);
    }

    fn global_status(&self, c: &ScratchpadContext, name: &str) -> (r: ScratchpadStatusItem)
        ensures
            status_view(r) == global_item(self@, *c, name@),
    {
        let title = self.title_of(name);
        let insts = self.instances_of(c, name);
        if insts.len() == 0 {
            return closed_status(name, title);
        }
        let mut best = insts[0];
        let mut j: usize = 1;
        assert(insts@.subrange(0, 1) =~= seq![insts@[0]]);
        while j < insts.len()
            invariant
                1 <= j <= insts@.len(),
                best == best_instance(insts@.subrange(0, j as int)),
            decreases insts.len() - j,
        {
            assert(insts@.subrange(0, j + 1).drop_last() =~= insts@.subrange(0, j as int));
            assert(insts@.subrange(0, j + 1).last() == insts@[j as int]);
            if goes_before(&insts[j], &best) {
                best = insts[j];
            }
            j = j + 1;
        }
        assert(insts@.subrange(0, insts@.len() as int) =~= insts@);
        let mut item = instance_status(name, title, &best);
        item.state = match best.state {
            ScratchpadDisplayState::Visible => ScratchpadDisplayState::Visible,
            _ => ScratchpadDisplayState::Hidden,
        };
        item
    }

    /// The status of every configured scratchpad, ordered by name: on the
    /// targeted tab (marking the one a toggle without a name would target),
    /// one item per live pane for counting, and the best pane across the session.
    pub fn status_snapshot(&self, ctx: &ScratchpadContext) -> (r: ScratchpadStatusSnapshot)
        ensures
            (statuses_view(r.current_items@), statuses_view(r.global_count_items@), statuses_view(r.global_items@))
                == snapshot_spec(self@, *ctx),
    {
        proof { lemma_manager_view(self); }
        let names = self.configs.sorted_names();
        let ghost ns = texts_view(names@);
        let mru = self.default_target(ctx);
        let mut current_items: Vec<ScratchpadStatusItem> = Vec::new();
        let mut global_count_items: Vec<ScratchpadStatusItem> = Vec::new();
        let mut global_items: Vec<ScratchpadStatusItem> = Vec::new();
        assert(statuses_view(global_count_items@) =~= all_count_items(self@, *ctx, ns.subrange(0, 0)));
        let mut i: usize = 0;
        while i < names.len()
            invariant
                i <= names@.len(),
                ns == texts_view(names@),
                ns == sort_names(self@.config_names),
                opt_view(mru) == toggle_target(self@, *ctx, None),
                statuses_view(current_items@) == ns.subrange(0, i as int).map_values(|n: Seq<char>| current_item(self@, *ctx, n)),
                statuses_view(global_count_items@) == all_count_items(self@, *ctx, ns.subrange(0, i as int)),
                statuses_view(global_items@) == ns.subrange(0, i as int).map_values(|n: Seq<char>| global_item(self@, *ctx, n)),
            decreases names.len() - i,
        {
            let name = names[i].as_str();
            assert(ns[i as int] == name@);
            assert(ns.subrange(0, i + 1).drop_last() =~= ns.subrange(0, i as int));
            assert(ns.subrange(0, i + 1).last() == name@);
            let ghost c0 = statuses_view(current_items@);
            let ghost g0 = statuses_view(global_items@);
            current_items.push(self.current_status(ctx, name, &mru));
            assert(statuses_view(current_items@) =~= c0.push(current_item(self@, *ctx, name@)));
            assert(ns.subrange(0, i + 1).map_values(|n: Seq<char>| current_item(self@, *ctx, n))
                =~= ns.subrange(0, i as int).map_values(|n: Seq<char>| current_item(self@, *ctx, n)).push(current_item(self@, *ctx, name@)));
            self.count_statuses(ctx, name, &mut global_count_items);
            global_items.push(self.global_status(ctx, name));
            assert(statuses_view(global_items@) =~= g0.push(global_item(self@, *ctx, name@)));
            assert(ns.subrange(0, i + 1).map_values(|n: Seq<char>| global_item(self@, *ctx, n))
                =~= ns.subrange(0, i as int).map_values(|n: Seq<char>| global_item(self@, *ctx, n)).push(global_item(self@, *ctx, name@)));
            i = i + 1;
        }
        assert(ns.subrange(0, ns.len() as int) =~= ns);
        ScratchpadStatusSnapshot { current_items, global_count_items, global_items }
    }
}

/// The best instance is one of them, and none ranks before it.
proof fn lemma_best_instance(s: Seq<Instance>)
    requires
        s.len() > 0,
    ensures
        exists|k: int| 0 <= k < s.len() && s[k] == best_instance(s),
        forall|j: int| 0 <= j < s.len() ==> rank(best_instance(s)) <= rank(#[trigger] s[j]),
    decreases s.len(),
{
    if s.len() > 1 {
        let d = s.drop_last();
        lemma_best_instance(d);
        let b = best_instance(d);
        let k = choose|k: int| 0 <= k < d.len() && d[k] == b;
        assert(s[k] == d[k]);
        assert forall|j: int| 0 <= j < s.len() implies rank(best_instance(s)) <= rank(#[trigger] s[j]) by {
            if j < d.len() {
                assert(s[j] == d[j]);
                assert(rank(b) <= rank(d[j]));
            }
        }
        assert(s[s.len() - 1] == s.last());
    } else {
        assert(rank(best_instance(s)) <= rank(s[0]));
    }
}

/// Live instances are each visible or hidden.
proof fn lemma_live_instances_states(m: ManagerView, c: ScratchpadContext, name: Seq<char>, s: Seq<(KeyView, u32)>)
    ensures
        forall|j: int| 0 <= j < live_instances(m, c, name, s).len() ==>
            #[trigger] live_instances(m, c, name, s)[j].state != ScratchpadDisplayState::Closed,
    decreases s.len(),
{
    if s.len() > 0 {
        lemma_live_instances_states(m, c, name, s.drop_last());
    }
}

/// The session-wide item of a scratchpad shows its best live pane: it is
/// closed exactly when no pane of it is live, visible exactly when some live
/// pane is visible, focused and visible when some visible pane has focus,
/// and it names the pane and tab of one of the live panes.
pub proof fn law_global_item_prefers_visible(m: ManagerView, c: ScratchpadContext, name: Seq<char>)
    ensures ({
        let insts = live_instances(m, c, name, m.panes);
        let g = global_item(m, c, name);
        &&& (g.state == ScratchpadDisplayState::Closed) == (insts.len() == 0)
        &&& (g.state == ScratchpadDisplayState::Visible)
            == exists|i: int| 0 <= i < insts.len() && #[trigger] insts[i].state == ScratchpadDisplayState::Visible
        &&& (exists|i: int| 0 <= i < insts.len() && #[trigger] insts[i].state == ScratchpadDisplayState::Visible && insts[i].is_focused)
            ==> g.state == ScratchpadDisplayState::Visible && g.is_focused
        &&& insts.len() > 0 ==> exists|i: int| 0 <= i < insts.len()
            && g.pane_id == Some(#[trigger] insts[i].pane_id) && g.tab_id == Some(insts[i].tab_id)
    }),
{
    let insts = live_instances(m, c, name, m.panes);
    lemma_live_instances_states(m, c, name, m.panes);
    if insts.len() > 0 {
        lemma_best_instance(insts);
        let b = best_instance(insts);
        let k = choose|k: int| 0 <= k < insts.len() && insts[k] == b;
        assert(insts[k].state != ScratchpadDisplayState::Closed);
        if exists|i: int| 0 <= i < insts.len() && #[trigger] insts[i].state == ScratchpadDisplayState::Visible {
            let i = choose|i: int| 0 <= i < insts.len() && #[trigger] insts[i].state == ScratchpadDisplayState::Visible;
            assert(rank(b) <= rank(insts[i]));
        }
        if exists|i: int| 0 <= i < insts.len() && #[trigger] insts[i].state == ScratchpadDisplayState::Visible && insts[i].is_focused {
            let i = choose|i: int| 0 <= i < insts.len() && #[trigger] insts[i].state == ScratchpadDisplayState::Visible && insts[i].is_focused;
            assert(rank(b) <= rank(insts[i]));
        }
        if b.state == ScratchpadDisplayState::Visible {
            assert(insts[k].state == ScratchpadDisplayState::Visible);
        }
    }
}

} // verus!
