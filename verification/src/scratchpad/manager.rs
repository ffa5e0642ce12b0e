//! The scratchpad manager: configured scratchpads, their panes per tab, and
//! focus history. It decides what to do with panes and hands back commands
//! for the host to run.

use vstd::prelude::*;
use crate::scratchpad::configs::ScratchpadConfigs;
use crate::scratchpad::config::{opt_view, ResolvedCoordinates, ScratchpadAction, ScratchpadConfig};
use crate::scratchpad::persistence::PersistedState;
use crate::text::{str_equals, to_string};
use crate::tree::PaneNode;

verus! {

/// Resolved coordinates as texts.
pub struct CoordsView {
    pub x: Option<Seq<char>>,
    pub y: Option<Seq<char>>,
    pub width: Option<Seq<char>>,
    pub height: Option<Seq<char>>,
}

impl View for ResolvedCoordinates {
    type V = CoordsView;

    open spec fn view(&self) -> CoordsView {
        CoordsView { x: opt_view(self.x), y: opt_view(self.y), width: opt_view(self.width), height: opt_view(self.height) }
    }
}

fn copy_opt(o: &Option<String>) -> (r: Option<String>)
    ensures
        opt_view(r) == opt_view(*o),
{
    match o {
        Some(s) => Some(s.clone()),
        None => None,
    }
}

fn copy_coords(c: &ResolvedCoordinates) -> (r: ResolvedCoordinates)
    ensures
        r@ == c@,
{
    ResolvedCoordinates { x: copy_opt(&c.x), y: copy_opt(&c.y), width: copy_opt(&c.width), height: copy_opt(&c.height) }
}

/// Commands returned by the manager for the host to execute.
#[derive(Debug)]
pub enum ScratchpadCommand {
    /// Open a new floating pane running `command` (program, then arguments)
    /// in `cwd`; the host registers the pane it gets back under `name` and `tab_id`.
    OpenFloating { command: Vec<String>, cwd: Option<String>, coordinates: ResolvedCoordinates, name: String, tab_id: usize },
    /// Show and focus a pane, re-applying coordinates when given.
    ShowPane { pane_id: u32, coordinates: Option<ResolvedCoordinates> },
    /// Hide (suppress) a pane.
    HidePane { pane_id: u32 },
    /// Close a pane.
    ClosePane { pane_id: u32 },
    /// Set a pane's title.
    RenamePane { pane_id: u32, name: String },
}

/// A command with its texts as character sequences.
pub enum CommandView {
    OpenFloating { command: Seq<Seq<char>>, cwd: Option<Seq<char>>, coordinates: CoordsView, name: Seq<char>, tab_id: usize },
    ShowPane { pane_id: u32, coordinates: Option<CoordsView> },
    HidePane { pane_id: u32 },
    ClosePane { pane_id: u32 },
    RenamePane { pane_id: u32, name: Seq<char> },
}

impl View for ScratchpadCommand {
    type V = CommandView;

    open spec fn view(&self) -> CommandView {
        match self {
            ScratchpadCommand::OpenFloating { command, cwd, coordinates, name, tab_id } => CommandView::OpenFloating {
                command: command@.map_values(|s: String| s@),
                cwd: opt_view(*cwd),
                coordinates: coordinates@,
                name: name@,
                tab_id: *tab_id,
            },
            ScratchpadCommand::ShowPane { pane_id, coordinates } => CommandView::ShowPane {
                pane_id: *pane_id,
                coordinates: match coordinates { Some(c) => Some(c@), None => None },
            },
            ScratchpadCommand::HidePane { pane_id } => CommandView::HidePane { pane_id: *pane_id },
            ScratchpadCommand::ClosePane { pane_id } => CommandView::ClosePane { pane_id: *pane_id },
            ScratchpadCommand::RenamePane { pane_id, name } => CommandView::RenamePane { pane_id: *pane_id, name: name@ },
        }
    }
}

pub open spec fn commands_view(v: Seq<ScratchpadCommand>) -> Seq<CommandView> {
    v.map_values(|c: ScratchpadCommand| c@)
}

/// What the manager reads of the host's state.
pub struct ScratchpadContext {
    /// The panes of each tab, by tab position.
    pub pane_manifest: Vec<(usize, Vec<PaneNode>)>,
    pub current_tab_position: usize,
    /// The native ID of the tab the action targets.
    pub current_tab_id: Option<usize>,
    pub are_floating_panes_visible: bool,
    /// `(tab ID, tab position)` of each tab.
    pub tab_id_to_position: Vec<(usize, usize)>,
    /// The coordinates of each configured scratchpad on the current
    /// viewport, resolved by the host.
    pub placements: Vec<(String, ResolvedCoordinates)>,
}

/// The flags of a pane that the manager reads.
#[derive(Clone, Copy)]
pub struct PaneFlags {
    pub id: u32,
    pub is_floating: bool,
    pub is_suppressed: bool,
    pub is_focused: bool,
    pub exited: bool,
    pub is_held: bool,
}

pub open spec fn flags_of(p: PaneNode) -> PaneFlags {
    PaneFlags {
        id: p.id,
        is_floating: p.is_floating,
        is_suppressed: p.is_suppressed,
        is_focused: p.is_focused,
        exited: p.exited,
        is_held: p.is_held,
    }
}

/// The flags of every pane, tab by tab.
pub open spec fn manifest_flags(m: Seq<(usize, Vec<PaneNode>)>) -> Seq<PaneFlags>
    decreases m.len(),
{
    if m.len() == 0 {
        Seq::empty()
    } else {
        manifest_flags(m.drop_last()) + m.last().1@.map_values(|p: PaneNode| flags_of(p))
    }
}

/// The first entry of a tab position.
pub open spec fn position_index(m: Seq<(usize, Vec<PaneNode>)>, pos: usize) -> Option<int>
    decreases m.len(),
{
    if m.len() == 0 {
        None
    } else {
        match position_index(m.drop_last(), pos) {
            Some(i) => Some(i),
            None => if m.last().0 == pos { Some(m.len() - 1) } else { None },
        }
    }
}

/// The flags of the panes of one tab position; none for an unknown tab.
pub open spec fn tab_flags(m: Seq<(usize, Vec<PaneNode>)>, pos: usize) -> Seq<PaneFlags> {
    match position_index(m, pos) {
        Some(i) => m[i].1@.map_values(|p: PaneNode| flags_of(p)),
        None => Seq::empty(),
    }
}

/// A scratchpad name and a tab ID.
pub type KeyView = (Seq<char>, usize);

pub open spec fn keyed_view<T>(v: Seq<((String, usize), T)>) -> Seq<(KeyView, T)> {
    v.map_values(|e: ((String, usize), T)| ((e.0.0@, e.0.1), e.1))
}

pub open spec fn names_view(v: Seq<(String, usize)>) -> Seq<KeyView> {
    v.map_values(|e: (String, usize)| (e.0@, e.1))
}

/// The first entry with a key.
pub open spec fn key_index<T>(s: Seq<(KeyView, T)>, k: KeyView) -> Option<int>
    decreases s.len(),
{
    if s.len() == 0 {
        None
    } else {
        match key_index(s.drop_last(), k) {
            Some(i) => Some(i),
            None => if s.last().0 == k { Some(s.len() - 1) } else { None },
        }
    }
}

/// The value recorded under a key.
pub open spec fn kget<T>(s: Seq<(KeyView, T)>, k: KeyView) -> Option<T> {
    match key_index(s, k) {
        Some(i) => Some(s[i].1),
        None => None,
    }
}

/// Record a value under a key, in place if the key is recorded.
pub open spec fn kset<T>(s: Seq<(KeyView, T)>, k: KeyView, v: T) -> Seq<(KeyView, T)> {
    match key_index(s, k) {
        Some(i) => s.update(i, (k, v)),
        None => s.push((k, v)),
    }
}

/// Forget a key.
pub open spec fn kremove<T>(s: Seq<(KeyView, T)>, k: KeyView) -> Seq<(KeyView, T)>
    decreases s.len(),
{
    if s.len() == 0 {
        s
    } else {
        let rest = kremove(s.drop_last(), k);
        if s.last().0 == k { rest } else { rest.push(s.last()) }
    }
}

/// Forget a key in a set of keys.
pub open spec fn nremove(s: Seq<KeyView>, k: KeyView) -> Seq<KeyView>
    decreases s.len(),
{
    if s.len() == 0 {
        s
    } else {
        let rest = nremove(s.drop_last(), k);
        if s.last() == k { rest } else { rest.push(s.last()) }
    }
}

/// Add a key to a set of keys.
pub open spec fn nadd(s: Seq<KeyView>, k: KeyView) -> Seq<KeyView> {
    if s.contains(k) { s } else { s.push(k) }
}

pub proof fn lemma_key_index<T>(s: Seq<(KeyView, T)>, k: KeyView)
    ensures
        match key_index(s, k) {
            Some(i) => 0 <= i < s.len() && s[i].0 == k && forall|j: int| 0 <= j < i ==> #[trigger] s[j].0 != k,
            None => forall|j: int| 0 <= j < s.len() ==> #[trigger] s[j].0 != k,
        },
    decreases s.len(),
{
    if s.len() > 0 {
        lemma_key_index(s.drop_last(), k);
        assert forall|j: int| 0 <= j < s.len() - 1 implies #[trigger] s[j] == s.drop_last()[j] by {}
    }
}

fn find_key<T>(v: &Vec<((String, usize), T)>, name: &str, tab: usize) -> (r: Option<usize>)
    ensures
        match r {
            Some(i) => key_index(keyed_view(v@), (name@, tab)) == Some(i as int) && i < v@.len(),
            None => key_index(keyed_view(v@), (name@, tab)) is None,
        },
{
    let ghost s = keyed_view(v@);
    let ghost k = (name@, tab);
    proof { lemma_key_index(s, k); }
    let mut i: usize = 0;
    while i < v.len()
        invariant
            i <= v@.len(),
            s == keyed_view(v@),
            k == (name@, tab),
            s.len() == v@.len(),
            forall|j: int| 0 <= j < i ==> #[trigger] s[j].0 != k,
            match key_index(s, k) {
                Some(m) => 0 <= m < s.len() && s[m].0 == k && forall|j: int| 0 <= j < m ==> #[trigger] s[j].0 != k,
                None => forall|j: int| 0 <= j < s.len() ==> #[trigger] s[j].0 != k,
            },
        decreases v.len() - i,
    {
        assert(s[i as int].0 == (v@[i as int].0.0@, v@[i as int].0.1));
        if v[i].0.1 == tab && str_equals(v[i].0.0.as_str(), name) {
            proof {
                match key_index(s, k) {
                    Some(m) => {
                        if m < i { assert(s[m].0 != k); }
                        if m > i { assert(s[i as int].0 != k); }
                    },
                    None => { assert(s[i as int].0 != k); },
                }
            }
            return Some(i);
        }
        i = i + 1;
    }
    None
}

pub(crate) fn get_key<T: Copy>(v: &Vec<((String, usize), T)>, name: &str, tab: usize) -> (r: Option<T>)
    ensures
        r == kget(keyed_view(v@), (name@, tab)),
{
    match find_key(v, name, tab) {
        Some(i) => {
            assert(keyed_view(v@)[i as int].1 == v@[i as int].1);
            Some(v[i].1)
        },
        None => None,
    }
}

fn set_key<T: Copy>(v: &mut Vec<((String, usize), T)>, name: &str, tab: usize, value: T)
    ensures
        keyed_view(final(v)@) == kset(keyed_view(old(v)@), (name@, tab), value),
{
    let ghost before = keyed_view(v@);
    match find_key(v, name, tab) {
        Some(i) => {
            v.set(i, ((to_string(name), tab), value));
            assert(keyed_view(v@) =~= before.update(i as int, ((name@, tab), value)));
        },
        None => {
            v.push(((to_string(name), tab), value));
            assert(keyed_view(v@) =~= before.push(((name@, tab), value)));
        },
    }
}

fn remove_key<T: Copy>(v: &mut Vec<((String, usize), T)>, name: &str, tab: usize)
    ensures
        keyed_view(final(v)@) == kremove(keyed_view(old(v)@), (name@, tab)),
{
    let ghost s = keyed_view(v@);
    let mut kept: Vec<((String, usize), T)> = Vec::new();
    let mut i: usize = 0;
    while i < v.len()
        invariant
            i <= v@.len(),
            s == keyed_view(v@),
            keyed_view(kept@) == kremove(s.subrange(0, i as int), (name@, tab)),
        decreases v.len() - i,
    {
        assert(s.subrange(0, i + 1).drop_last() =~= s.subrange(0, i as int));
        assert(s.subrange(0, i + 1).last() == ((v@[i as int].0.0@, v@[i as int].0.1), v@[i as int].1));
        if !(v[i].0.1 == tab && str_equals(v[i].0.0.as_str(), name)) {
            let ghost before = keyed_view(kept@);
            kept.push(((v[i].0.0.clone(), v[i].0.1), v[i].1));
            assert(keyed_view(kept@) =~= before.push(s[i as int]));
        }
        i = i + 1;
    }
    assert(s.subrange(0, s.len() as int) =~= s);
    *v = kept;
}

fn has_name_key(v: &Vec<(String, usize)>, name: &str, tab: usize) -> (b: bool)
    ensures
        b == names_view(v@).contains((name@, tab)),
{
    let ghost s = names_view(v@);
    let mut i: usize = 0;
    while i < v.len()
        invariant
            i <= v@.len(),
            s == names_view(v@),
            forall|j: int| 0 <= j < i ==> #[trigger] s[j] != (name@, tab),
        decreases v.len() - i,
    {
        assert(s[i as int] == (v@[i as int].0@, v@[i as int].1));
        if v[i].1 == tab && str_equals(v[i].0.as_str(), name) {
            assert(s[i as int] == (name@, tab));
            return true;
        }
        i = i + 1;
    }
    false
}

fn add_name_key(v: &mut Vec<(String, usize)>, name: &str, tab: usize)
    ensures
        names_view(final(v)@) == nadd(names_view(old(v)@), (name@, tab)),
{
    if !has_name_key(v, name, tab) {
        let ghost before = names_view(v@);
        v.push((to_string(name), tab));
        assert(names_view(v@) =~= before.push((name@, tab)));
    }
}

fn remove_name_key(v: &mut Vec<(String, usize)>, name: &str, tab: usize)
    ensures
        names_view(final(v)@) == nremove(names_view(old(v)@), (name@, tab)),
{
    let ghost s = names_view(v@);
    let mut kept: Vec<(String, usize)> = Vec::new();
    let mut i: usize = 0;
    while i < v.len()
        invariant
            i <= v@.len(),
            s == names_view(v@),
            names_view(kept@) == nremove(s.subrange(0, i as int), (name@, tab)),
        decreases v.len() - i,
    {
        assert(s.subrange(0, i + 1).drop_last() =~= s.subrange(0, i as int));
        assert(s.subrange(0, i + 1).last() == (v@[i as int].0@, v@[i as int].1));
        if !(v[i].1 == tab && str_equals(v[i].0.as_str(), name)) {
            let ghost before = names_view(kept@);
            kept.push((v[i].0.clone(), v[i].1));
            assert(names_view(kept@) =~= before.push(s[i as int]));
        }
        i = i + 1;
    }
    assert(s.subrange(0, s.len() as int) =~= s);
    *v = kept;
}

/// The flags of every pane of the manifest, tab by tab.
fn all_flags(m: &Vec<(usize, Vec<PaneNode>)>) -> (r: Vec<PaneFlags>)
    ensures
        r@ == manifest_flags(m@),
{
    let mut r: Vec<PaneFlags> = Vec::new();
    let mut i: usize = 0;
    while i < m.len()
        invariant
            i <= m@.len(),
            r@ == manifest_flags(m@.subrange(0, i as int)),
        decreases m.len() - i,
    {
        assert(m@.subrange(0, i + 1).drop_last() =~= m@.subrange(0, i as int));
        let panes = &m[i].1;
        let ghost start = r@;
        let mut j: usize = 0;
        while j < panes.len()
            invariant
                j <= panes@.len(),
                panes@ == m@[i as int].1@,
                r@ == start + panes@.subrange(0, j as int).map_values(|p: PaneNode| flags_of(p)),
            decreases panes.len() - j,
        {
            let p = &panes[j];
            r.push(PaneFlags {
                id: p.id,
                is_floating: p.is_floating,
                is_suppressed: p.is_suppressed,
                is_focused: p.is_focused,
                exited: p.exited,
                is_held: p.is_held,
            });
            assert(panes@.subrange(0, j + 1).map_values(|p: PaneNode| flags_of(p))
                =~= panes@.subrange(0, j as int).map_values(|p: PaneNode| flags_of(p)).push(flags_of(panes@[j as int])));
            j = j + 1;
        }
        assert(panes@.subrange(0, panes@.len() as int) =~= panes@);
        i = i + 1;
    }
    assert(m@.subrange(0, m@.len() as int) =~= m@);
    r
}

pub proof fn lemma_position_index(m: Seq<(usize, Vec<PaneNode>)>, pos: usize)
    ensures
        match position_index(m, pos) {
            Some(i) => 0 <= i < m.len() && m[i].0 == pos && forall|j: int| 0 <= j < i ==> #[trigger] m[j].0 != pos,
            None => forall|j: int| 0 <= j < m.len() ==> #[trigger] m[j].0 != pos,
        },
    decreases m.len(),
{
    if m.len() > 0 {
        lemma_position_index(m.drop_last(), pos);
        assert forall|j: int| 0 <= j < m.len() - 1 implies #[trigger] m[j] == m.drop_last()[j] by {}
    }
}

/// The flags of the panes of one tab position.
fn flags_at(m: &Vec<(usize, Vec<PaneNode>)>, pos: usize) -> (r: Vec<PaneFlags>)
    ensures
        r@ == tab_flags(m@, pos),
{
    proof { lemma_position_index(m@, pos); }
    let mut i: usize = 0;
    while i < m.len()
        invariant
            i <= m@.len(),
            forall|j: int| 0 <= j < i ==> #[trigger] m@[j].0 != pos,
            match position_index(m@, pos) {
                Some(k) => 0 <= k < m@.len() && m@[k].0 == pos && forall|j: int| 0 <= j < k ==> #[trigger] m@[j].0 != pos,
                None => forall|j: int| 0 <= j < m@.len() ==> #[trigger] m@[j].0 != pos,
            },
        decreases m.len() - i,
    {
        if m[i].0 == pos {
            proof {
                match position_index(m@, pos) {
                    Some(k) => {
                        if k < i { assert(m@[k].0 != pos); }
                        if k > i { assert(m@[i as int].0 != pos); }
                    },
                    None => { assert(m@[i as int].0 != pos); },
                }
            }
            let panes = &m[i].1;
            let mut r: Vec<PaneFlags> = Vec::new();
            let mut j: usize = 0;
            while j < panes.len()
                invariant
                    j <= panes@.len(),
                    r@ == panes@.subrange(0, j as int).map_values(|p: PaneNode| flags_of(p)),
                decreases panes.len() - j,
            {
                let p = &panes[j];
                r.push(PaneFlags {
                    id: p.id,
                    is_floating: p.is_floating,
                    is_suppressed: p.is_suppressed,
                    is_focused: p.is_focused,
                    exited: p.exited,
                    is_held: p.is_held,
                });
                assert(panes@.subrange(0, j + 1).map_values(|p: PaneNode| flags_of(p))
                    =~= panes@.subrange(0, j as int).map_values(|p: PaneNode| flags_of(p)).push(flags_of(panes@[j as int])));
                j = j + 1;
            }
            assert(panes@.subrange(0, panes@.len() as int) =~= panes@);
            return r;
        }
        i = i + 1;
    }
    let r: Vec<PaneFlags> = Vec::new();
    assert(r@ =~= Seq::<PaneFlags>::empty());
    r
}


/// What the manager keeps: the configurations, the pane of each scratchpad on
/// each tab, focus stamps, the focus counter, the pane just shown, and the
/// scratchpads that left the configuration while their panes stayed.
pub struct ManagerView {
    pub configs: Map<Seq<char>, ScratchpadConfig>,
    /// The configured names, in the order they were added.
    pub config_names: Seq<Seq<char>>,
    pub panes: Seq<(KeyView, u32)>,
    pub focus: Seq<(KeyView, u64)>,
    pub counter: u64,
    pub just_shown: Option<u32>,
    pub orphaned: Seq<KeyView>,
}

/// Manages scratchpad state and decides what to do with panes.
pub struct ScratchpadManager {
    pub(crate) configs: ScratchpadConfigs,
    /// `((name, tab ID), pane ID)`, one entry per key.
    pub(crate) panes: Vec<((String, usize), u32)>,
    pub(crate) focus_counter: u64,
    /// `((name, tab ID), last focus stamp)`, one entry per key.
    pub(crate) focus_times: Vec<((String, usize), u64)>,
    /// The scratchpad pane just shown, before the next pane update confirms focus.
    pub(crate) just_shown: Option<u32>,
    /// `(name, tab ID)` of panes whose scratchpad left the configuration.
    pub(crate) orphaned: Vec<(String, usize)>,
}

impl View for ScratchpadManager {
    type V = ManagerView;

    closed spec fn view(&self) -> ManagerView {
        ManagerView {
            configs: self.configs@,
            config_names: self.configs.name_list(),
            panes: keyed_view(self.panes@),
            focus: keyed_view(self.focus_times@),
            counter: self.focus_counter,
            just_shown: self.just_shown,
            orphaned: names_view(self.orphaned@),
        }
    }
}

/// The manager's view, spelled out for the other scratchpad modules.
pub(crate) proof fn lemma_manager_view(m: &ScratchpadManager)
    ensures
        m@ == (ManagerView {
            configs: m.configs@,
            config_names: m.configs.name_list(),
            panes: keyed_view(m.panes@),
            focus: keyed_view(m.focus_times@),
            counter: m.focus_counter,
            just_shown: m.just_shown,
            orphaned: names_view(m.orphaned@),
        }),
{
}

fn copy_keyed<T: Copy>(v: &Vec<((String, usize), T)>) -> (r: Vec<((String, usize), T)>)
    ensures
        keyed_view(r@) == keyed_view(v@),
{
    let mut r: Vec<((String, usize), T)> = Vec::new();
    let mut i: usize = 0;
    while i < v.len()
        invariant
            i <= v@.len(),
            keyed_view(r@) == keyed_view(v@).subrange(0, i as int),
        decreases v.len() - i,
    {
        let ghost before = keyed_view(r@);
        r.push(((v[i].0.0.clone(), v[i].0.1), v[i].1));
        assert(keyed_view(r@) =~= before.push(keyed_view(v@)[i as int]));
        assert(keyed_view(v@).subrange(0, i + 1) =~= keyed_view(v@).subrange(0, i as int).push(keyed_view(v@)[i as int]));
        i = i + 1;
    }
    assert(keyed_view(v@).subrange(0, v@.len() as int) =~= keyed_view(v@));
    r
}

impl ScratchpadManager {
    /// A manager for the given scratchpads, with no panes yet.
    pub fn new(configs: ScratchpadConfigs) -> (m: ScratchpadManager)
        ensures
            m@.configs == configs@,
            m@.config_names == configs.name_list(),
            m@.panes == Seq::<(KeyView, u32)>::empty(),
            m@.focus == Seq::<(KeyView, u64)>::empty(),
            m@.counter == 0,
            m@.just_shown is None,
            m@.orphaned == Seq::<KeyView>::empty(),
    {
        let m = ScratchpadManager {
            configs,
            panes: Vec::new(),
            focus_counter: 0,
            focus_times: Vec::new(),
            just_shown: None,
            orphaned: Vec::new(),
        };
        assert(m@.panes =~= Seq::<(KeyView, u32)>::empty());
        assert(m@.focus =~= Seq::<(KeyView, u64)>::empty());
        assert(m@.orphaned =~= Seq::<KeyView>::empty());
        m
    }

    /// Forget the pane just shown (on a pane update).
    pub fn clear_just_shown(&mut self)
        ensures
            final(self)@ == (ManagerView { just_shown: None, ..old(self)@ }),
    {
        self.just_shown = None;
    }

    /// The state to keep across a reload: panes, focus stamps and counter.
    pub fn persisted_state(&self) -> (s: PersistedState)
        ensures
            keyed_view(s.panes@) == self@.panes,
            keyed_view(s.focus_times@) == self@.focus,
            s.focus_counter == self@.counter,
    {
        PersistedState {
            panes: copy_keyed(&self.panes),
            focus_times: copy_keyed(&self.focus_times),
            focus_counter: self.focus_counter,
        }
    }
}


// ---------------------------------------------------------------------------
// What the manager decides

pub open spec fn no_coords() -> CoordsView {
    CoordsView { x: None, y: None, width: None, height: None }
}

/// The first placement of a scratchpad.
pub open spec fn placement_index(ps: Seq<(String, ResolvedCoordinates)>, name: Seq<char>) -> Option<int>
    decreases ps.len(),
{
    if ps.len() == 0 {
        None
    } else {
        match placement_index(ps.drop_last(), name) {
            Some(i) => Some(i),
            None => if ps.last().0@ == name { Some(ps.len() - 1) } else { None },
        }
    }
}

/// Where a scratchpad's pane goes on the current viewport; no coordinates
/// when the host gave none.
pub open spec fn placement_of(c: ScratchpadContext, name: Seq<char>) -> CoordsView {
    match placement_index(c.placements@, name) {
        Some(i) => c.placements@[i].1@,
        None => no_coords(),
    }
}

/// The pane of a scratchpad on the targeted tab.
pub open spec fn pane_on_tab(m: ManagerView, c: ScratchpadContext, name: Seq<char>) -> Option<u32> {
    match c.current_tab_id {
        Some(t) => kget(m.panes, (name, t)),
        None => None,
    }
}

/// Whether a scratchpad on the targeted tab left the configuration.
pub open spec fn orphaned_here(m: ManagerView, c: ScratchpadContext, name: Seq<char>) -> bool {
    match c.current_tab_id {
        Some(t) => m.orphaned.contains((name, t)),
        None => false,
    }
}

/// The distinct IDs of hidden floating panes, in manifest order.
pub open spec fn hidden_ids(fs: Seq<PaneFlags>) -> Seq<u32>
    decreases fs.len(),
{
    if fs.len() == 0 {
        Seq::empty()
    } else {
        let rest = hidden_ids(fs.drop_last());
        let f = fs.last();
        if f.is_floating && f.is_suppressed && !rest.contains(f.id) { rest.push(f.id) } else { rest }
    }
}

/// Hide again every pane of `ids` but `pane`.
pub open spec fn rehide(ids: Seq<u32>, pane: u32) -> Seq<CommandView>
    decreases ids.len(),
{
    if ids.len() == 0 {
        Seq::empty()
    } else {
        let rest = rehide(ids.drop_last(), pane);
        if ids.last() != pane { rest.push(CommandView::HidePane { pane_id: ids.last() }) } else { rest }
    }
}

/// Record a focus on a scratchpad's tab pane with a fresh stamp.
pub open spec fn stamp(m: ManagerView, k: KeyView) -> ManagerView {
    let counter = (m.counter + 1) as u64;
    ManagerView { counter, focus: kset(m.focus, k, counter), ..m }
}

/// Show an existing pane with the scratchpad's placement, hide again the
/// floating panes that were hidden, and stamp the focus.
pub open spec fn show_pane_spec(m: ManagerView, c: ScratchpadContext, name: Seq<char>, pane: u32, tab: usize) -> (ManagerView, Seq<CommandView>) {
    let cmds = seq![CommandView::ShowPane { pane_id: pane, coordinates: Some(placement_of(c, name)) }]
        + rehide(hidden_ids(manifest_flags(c.pane_manifest@)), pane);
    (stamp(ManagerView { just_shown: Some(pane), ..m }, (name, tab)), cmds)
}

/// Show a configured scratchpad on the targeted tab: its pane if it has one,
/// else open one.
pub open spec fn show_spec(m: ManagerView, c: ScratchpadContext, name: Seq<char>) -> (ManagerView, Seq<CommandView>) {
    if !m.configs.contains_key(name) {
        (m, Seq::empty())
    } else {
        match c.current_tab_id {
            None => (m, Seq::empty()),
            Some(t) => if m.orphaned.contains((name, t)) {
                (m, Seq::empty())
            } else {
                match kget(m.panes, (name, t)) {
                    None => (m, seq![CommandView::OpenFloating {
                        command: m.configs[name]@.command,
                        cwd: m.configs[name]@.cwd,
                        coordinates: placement_of(c, name),
                        name,
                        tab_id: t,
                    }]),
                    Some(p) => show_pane_spec(m, c, name, p, t),
                }
            },
        }
    }
}

/// Hide a scratchpad's pane on the targeted tab.
pub open spec fn hide_spec(m: ManagerView, c: ScratchpadContext, name: Seq<char>) -> Seq<CommandView> {
    if orphaned_here(m, c, name) {
        Seq::empty()
    } else {
        match pane_on_tab(m, c, name) {
            Some(p) => seq![CommandView::HidePane { pane_id: p }],
            None => Seq::empty(),
        }
    }
}

/// Close a scratchpad's pane on the targeted tab and forget it.
pub open spec fn close_spec(m: ManagerView, c: ScratchpadContext, name: Seq<char>) -> (ManagerView, Seq<CommandView>) {
    match c.current_tab_id {
        None => (m, Seq::empty()),
        Some(t) => match kget(m.panes, (name, t)) {
            Some(p) => (
                ManagerView { panes: kremove(m.panes, (name, t)), focus: kremove(m.focus, (name, t)), ..m },
                seq![CommandView::ClosePane { pane_id: p }],
            ),
            None => (m, Seq::empty()),
        },
    }
}

/// Whether a pane is a shown, live floating pane among these.
pub open spec fn shows_pane(fs: Seq<PaneFlags>, p: u32) -> bool {
    exists|i: int| 0 <= i < fs.len() && #[trigger] fs[i].id == p
        && fs[i].is_floating && !fs[i].is_suppressed && !fs[i].exited && !fs[i].is_held
}

/// Whether a scratchpad's pane is shown on the current tab.
pub open spec fn visible_spec(m: ManagerView, c: ScratchpadContext, name: Seq<char>) -> bool {
    c.are_floating_panes_visible && match pane_on_tab(m, c, name) {
        Some(p) => shows_pane(tab_flags(c.pane_manifest@, c.current_tab_position), p),
        None => false,
    }
}

/// The first floating pane with an ID.
pub open spec fn floating_with_id(fs: Seq<PaneFlags>, id: u32) -> Option<PaneFlags>
    decreases fs.len(),
{
    if fs.len() == 0 {
        None
    } else {
        match floating_with_id(fs.drop_last(), id) {
            Some(f) => Some(f),
            None => if fs.last().id == id && fs.last().is_floating { Some(fs.last()) } else { None },
        }
    }
}

/// The first focused floating pane.
pub open spec fn focused_floating(fs: Seq<PaneFlags>) -> Option<PaneFlags>
    decreases fs.len(),
{
    if fs.len() == 0 {
        None
    } else {
        match focused_floating(fs.drop_last()) {
            Some(f) => Some(f),
            None => if fs.last().is_floating && fs.last().is_focused { Some(fs.last()) } else { None },
        }
    }
}

/// Whether a scratchpad's pane has focus: just shown, or the manifest says so.
pub open spec fn focused_spec(m: ManagerView, c: ScratchpadContext, name: Seq<char>) -> bool {
    match pane_on_tab(m, c, name) {
        None => false,
        Some(p) => c.are_floating_panes_visible && (m.just_shown == Some(p)
            || match floating_with_id(manifest_flags(c.pane_manifest@), p) {
                Some(f) => f.is_focused,
                None => false,
            }),
    }
}

/// The first recorded pane with an ID.
pub open spec fn pane_entry(s: Seq<(KeyView, u32)>, id: u32) -> Option<int>
    decreases s.len(),
{
    if s.len() == 0 {
        None
    } else {
        match pane_entry(s.drop_last(), id) {
            Some(i) => Some(i),
            None => if s.last().1 == id { Some(s.len() - 1) } else { None },
        }
    }
}

/// The scratchpad whose pane has focus.
pub open spec fn focused_scratchpad(m: ManagerView, c: ScratchpadContext) -> Option<Seq<char>> {
    if !c.are_floating_panes_visible {
        None
    } else {
        match focused_floating(manifest_flags(c.pane_manifest@)) {
            None => None,
            Some(f) => match pane_entry(m.panes, f.id) {
                Some(i) => Some(m.panes[i].0.0),
                None => None,
            },
        }
    }
}

/// The most recently focused scratchpad of a tab and its stamp; the later
/// entry wins a tie.
pub open spec fn latest(focus: Seq<(KeyView, u64)>, tab: usize) -> Option<(Seq<char>, u64)>
    decreases focus.len(),
{
    if focus.len() == 0 {
        None
    } else {
        let rest = latest(focus.drop_last(), tab);
        let e = focus.last();
        if e.0.1 == tab && (match rest { Some(r) => r.1 <= e.1, None => true }) {
            Some((e.0.0, e.1))
        } else {
            rest
        }
    }
}

/// The target of a toggle without a name: the focused scratchpad, else the
/// last focused on the targeted tab.
pub open spec fn toggle_target(m: ManagerView, c: ScratchpadContext, name: Option<Seq<char>>) -> Option<Seq<char>> {
    match name {
        Some(n) => Some(n),
        None => match focused_scratchpad(m, c) {
            Some(n) => Some(n),
            None => match c.current_tab_id {
                Some(t) => match latest(m.focus, t) {
                    Some(e) => Some(e.0),
                    None => None,
                },
                None => None,
            },
        },
    }
}

/// Toggle: hide a shown and focused scratchpad, else show it.
pub open spec fn toggle_spec(m: ManagerView, c: ScratchpadContext, name: Option<Seq<char>>) -> (ManagerView, Seq<CommandView>) {
    match toggle_target(m, c, name) {
        None => (m, Seq::empty()),
        Some(n) => if !m.configs.contains_key(n) || orphaned_here(m, c, n) {
            (m, Seq::empty())
        } else if visible_spec(m, c, n) && focused_spec(m, c, n) {
            (m, hide_spec(m, c, n))
        } else {
            show_spec(m, c, n)
        },
    }
}

/// The outcome of an action.
pub open spec fn action_spec(m: ManagerView, c: ScratchpadContext, a: ScratchpadAction) -> (ManagerView, Seq<CommandView>) {
    match a {
        ScratchpadAction::Toggle { name } => toggle_spec(m, c, opt_view(name)),
        ScratchpadAction::Show { name } => show_spec(m, c, name@),
        ScratchpadAction::Hide { name } => (m, hide_spec(m, c, name@)),
        ScratchpadAction::Close { name } => close_spec(m, c, name@),
    }
}

/// Focusing a pane that belongs to a managed scratchpad shows it with its
/// placement; any other pane is left to the host.
pub open spec fn focus_pane_spec(m: ManagerView, c: ScratchpadContext, pane: u32) -> (ManagerView, Option<Seq<CommandView>>) {
    match pane_entry(m.panes, pane) {
        None => (m, None),
        Some(i) => {
            let k = m.panes[i].0;
            if m.orphaned.contains(k) || !m.configs.contains_key(k.0) {
                (m, None)
            } else {
                let r = show_pane_spec(m, c, k.0, pane, k.1);
                (r.0, Some(r.1))
            }
        },
    }
}

/// The title a registered pane gets: the configured title, else the name.
pub open spec fn title_for(m: ManagerView, name: Seq<char>) -> Seq<char> {
    if m.configs.contains_key(name) && m.configs[name]@.title is Some {
        m.configs[name]@.title->Some_0
    } else {
        name
    }
}

/// Record a pane just opened for a scratchpad.
pub open spec fn register_spec(m: ManagerView, name: Seq<char>, tab: usize, pane: u32) -> (ManagerView, Seq<CommandView>) {
    (
        stamp(ManagerView { panes: kset(m.panes, (name, tab), pane), just_shown: Some(pane), ..m }, (name, tab)),
        seq![CommandView::RenamePane { pane_id: pane, name: title_for(m, name) }],
    )
}

/// Track a focus change made outside the manager.
pub open spec fn track_focus(m: ManagerView, c: ScratchpadContext) -> ManagerView {
    if !c.are_floating_panes_visible {
        m
    } else {
        match focused_floating(manifest_flags(c.pane_manifest@)) {
            None => m,
            Some(f) => match pane_entry(m.panes, f.id) {
                Some(i) => stamp(m, m.panes[i].0),
                None => m,
            },
        }
    }
}

/// Forget a scratchpad's pane on a tab everywhere.
pub open spec fn forget(m: ManagerView, k: KeyView) -> ManagerView {
    ManagerView { panes: kremove(m.panes, k), focus: kremove(m.focus, k), orphaned: nremove(m.orphaned, k), ..m }
}

pub open spec fn forget_all(m: ManagerView, ks: Seq<(KeyView, u32)>) -> ManagerView
    decreases ks.len(),
{
    if ks.len() == 0 { m } else { forget(forget_all(m, ks.drop_last()), ks.last().0) }
}

pub open spec fn has_id(fs: Seq<PaneFlags>, id: u32) -> bool {
    exists|i: int| 0 <= i < fs.len() && #[trigger] fs[i].id == id
}

pub open spec fn has_ended(fs: Seq<PaneFlags>, id: u32) -> bool {
    exists|i: int| 0 <= i < fs.len() && #[trigger] fs[i].id == id && (fs[i].exited || fs[i].is_held)
}

/// The recorded panes that exited, are held, or left the manifest.
pub open spec fn stale_entries(s: Seq<(KeyView, u32)>, fs: Seq<PaneFlags>) -> Seq<(KeyView, u32)>
    decreases s.len(),
{
    if s.len() == 0 {
        Seq::empty()
    } else {
        let rest = stale_entries(s.drop_last(), fs);
        if has_ended(fs, s.last().1) || !has_id(fs, s.last().1) { rest.push(s.last()) } else { rest }
    }
}

/// Close commands for the stale panes still in the manifest.
pub open spec fn close_ended(s: Seq<(KeyView, u32)>, fs: Seq<PaneFlags>) -> Seq<CommandView>
    decreases s.len(),
{
    if s.len() == 0 {
        Seq::empty()
    } else {
        let rest = close_ended(s.drop_last(), fs);
        if has_ended(fs, s.last().1) { rest.push(CommandView::ClosePane { pane_id: s.last().1 }) } else { rest }
    }
}

/// The recorded panes on closed tabs.
pub open spec fn entries_on_tabs(s: Seq<(KeyView, u32)>, tabs: Seq<usize>) -> Seq<(KeyView, u32)>
    decreases s.len(),
{
    if s.len() == 0 {
        Seq::empty()
    } else {
        let rest = entries_on_tabs(s.drop_last(), tabs);
        if tabs.contains(s.last().0.1) { rest.push(s.last()) } else { rest }
    }
}

pub open spec fn close_all(s: Seq<(KeyView, u32)>) -> Seq<CommandView> {
    s.map_values(|e: (KeyView, u32)| CommandView::ClosePane { pane_id: e.1 })
}

/// A pane update: track focus, close and forget panes that exited or are
/// held, forget panes that left, and close the panes of closed tabs.
pub open spec fn pane_update_spec(m: ManagerView, c: ScratchpadContext, closed_tabs: Seq<usize>) -> (ManagerView, Seq<CommandView>) {
    let fs = manifest_flags(c.pane_manifest@);
    let m1 = track_focus(m, c);
    let stale = stale_entries(m1.panes, fs);
    let m2 = forget_all(m1, stale);
    let gone = entries_on_tabs(m2.panes, closed_tabs);
    (forget_all(m2, gone), close_ended(m1.panes, fs) + close_all(gone))
}

/// Show again the panes of scratchpads that left the configuration and were
/// not orphaned yet.
pub open spec fn orphan_shows(s: Seq<(KeyView, u32)>, m: ManagerView, new: Map<Seq<char>, ScratchpadConfig>) -> Seq<CommandView>
    decreases s.len(),
{
    if s.len() == 0 {
        Seq::empty()
    } else {
        let rest = orphan_shows(s.drop_last(), m, new);
        let (k, p) = s.last();
        if m.configs.contains_key(k.0) && !new.contains_key(k.0) && !m.orphaned.contains(k) {
            rest.push(CommandView::ShowPane { pane_id: p, coordinates: None })
        } else {
            rest
        }
    }
}

/// Mark the panes of scratchpads that left the configuration as orphaned.
pub open spec fn orphan_marks(s: Seq<(KeyView, u32)>, o: Seq<KeyView>, m: ManagerView, new: Map<Seq<char>, ScratchpadConfig>) -> Seq<KeyView>
    decreases s.len(),
{
    if s.len() == 0 {
        o
    } else {
        let rest = orphan_marks(s.drop_last(), o, m, new);
        let k = s.last().0;
        if m.configs.contains_key(k.0) && !new.contains_key(k.0) { nadd(rest, k) } else { rest }
    }
}

/// The orphans whose scratchpad is not configured.
pub open spec fn unconfigured(o: Seq<KeyView>, configs: Map<Seq<char>, ScratchpadConfig>) -> Seq<KeyView>
    decreases o.len(),
{
    if o.len() == 0 {
        o
    } else {
        let rest = unconfigured(o.drop_last(), configs);
        if configs.contains_key(o.last().0) { rest } else { rest.push(o.last()) }
    }
}

/// Take a new configuration: orphan (and show) the panes of removed
/// scratchpads, resume managing re-added ones.
pub open spec fn reconcile_spec(m: ManagerView, new: Map<Seq<char>, ScratchpadConfig>, new_names: Seq<Seq<char>>) -> (ManagerView, Seq<CommandView>) {
    (
        ManagerView { configs: new, config_names: new_names, orphaned: unconfigured(orphan_marks(m.panes, m.orphaned, m, new), new), ..m },
        orphan_shows(m.panes, m, new),
    )
}

/// Record restored entries, later entries overriding earlier ones.
pub open spec fn kset_all<T>(s: Seq<(KeyView, T)>, es: Seq<(KeyView, T)>) -> Seq<(KeyView, T)>
    decreases es.len(),
{
    if es.len() == 0 { s } else { kset(kset_all(s, es.drop_last()), es.last().0, es.last().1) }
}

/// Orphan and show the restored panes of unconfigured scratchpads.
pub open spec fn restore_orphans(s: Seq<(KeyView, u32)>, m: ManagerView) -> (Seq<KeyView>, Seq<CommandView>)
    decreases s.len(),
{
    if s.len() == 0 {
        (m.orphaned, Seq::empty())
    } else {
        let (o, cmds) = restore_orphans(s.drop_last(), m);
        let (k, p) = s.last();
        if !m.configs.contains_key(k.0) && !o.contains(k) {
            (o.push(k), cmds.push(CommandView::ShowPane { pane_id: p, coordinates: None }))
        } else {
            (o, cmds)
        }
    }
}

/// Replace the panes, focus stamps and counter with a persisted state.
pub open spec fn restore_spec(m: ManagerView, panes: Seq<(KeyView, u32)>, focus: Seq<(KeyView, u64)>, counter: u64) -> (ManagerView, Seq<CommandView>) {
    let p = kset_all(Seq::empty(), panes);
    let m1 = ManagerView { panes: p, focus: kset_all(Seq::empty(), focus), counter, ..m };
    let (o, cmds) = restore_orphans(p, m1);
    (ManagerView { orphaned: o, ..m1 }, cmds)
}


// ---------------------------------------------------------------------------
// Queries

fn placement(c: &ScratchpadContext, name: &str) -> (r: ResolvedCoordinates)
    ensures
        r@ == placement_of(*c, name@),
{
    let ghost ps = c.placements@;
    let mut found: Option<usize> = None;
    let mut i: usize = 0;
    while i < c.placements.len()
        invariant
            i <= ps.len(),
            ps == c.placements@,
            match found {
                Some(j) => placement_index(ps.subrange(0, i as int), name@) == Some(j as int) && j < ps.len(),
                None => placement_index(ps.subrange(0, i as int), name@) is None,
            },
        decreases c.placements.len() - i,
    {
        assert(ps.subrange(0, i + 1).drop_last() =~= ps.subrange(0, i as int));
        if found.is_none() && str_equals(c.placements[i].0.as_str(), name) {
            found = Some(i);
        }
        i = i + 1;
    }
    assert(ps.subrange(0, ps.len() as int) =~= ps);
    match found {
        Some(j) => copy_coords(&c.placements[j].1),
        None => ResolvedCoordinates { x: None, y: None, width: None, height: None },
    }
}

fn hidden_list(fs: &Vec<PaneFlags>) -> (r: Vec<u32>)
    ensures
        r@ == hidden_ids(fs@),
{
    let mut r: Vec<u32> = Vec::new();
    let mut i: usize = 0;
    while i < fs.len()
        invariant
            i <= fs@.len(),
            r@ == hidden_ids(fs@.subrange(0, i as int)),
        decreases fs.len() - i,
    {
        assert(fs@.subrange(0, i + 1).drop_last() =~= fs@.subrange(0, i as int));
        let f = fs[i];
        if f.is_floating && f.is_suppressed {
            let mut seen = false;
            let mut k: usize = 0;
            while k < r.len()
                invariant
                    k <= r@.len(),
                    seen == (exists|j: int| 0 <= j < k && r@[j] == f.id),
                decreases r.len() - k,
            {
                if r[k] == f.id {
                    seen = true;
                }
                k = k + 1;
            }
            if !seen {
                r.push(f.id);
            }
        }
        i = i + 1;
    }
    assert(fs@.subrange(0, fs@.len() as int) =~= fs@);
    r
}

fn shows(fs: &Vec<PaneFlags>, p: u32) -> (b: bool)
    ensures
        b == shows_pane(fs@, p),
{
    let mut i: usize = 0;
    while i < fs.len()
        invariant
            i <= fs@.len(),
            forall|j: int| 0 <= j < i ==> !(#[trigger] fs@[j].id == p
                && fs@[j].is_floating && !fs@[j].is_suppressed && !fs@[j].exited && !fs@[j].is_held),
        decreases fs.len() - i,
    {
        let f = fs[i];
        if f.id == p && f.is_floating && !f.is_suppressed && !f.exited && !f.is_held {
            return true;
        }
        i = i + 1;
    }
    false
}

fn floating_id(fs: &Vec<PaneFlags>, id: u32) -> (r: Option<PaneFlags>)
    ensures
        r == floating_with_id(fs@, id),
{
    let mut found: Option<PaneFlags> = None;
    let mut i: usize = 0;
    while i < fs.len()
        invariant
            i <= fs@.len(),
            found == floating_with_id(fs@.subrange(0, i as int), id),
        decreases fs.len() - i,
    {
        assert(fs@.subrange(0, i + 1).drop_last() =~= fs@.subrange(0, i as int));
        if found.is_none() && fs[i].id == id && fs[i].is_floating {
            found = Some(fs[i]);
        }
        i = i + 1;
    }
    assert(fs@.subrange(0, fs@.len() as int) =~= fs@);
    found
}

fn focused_pane(fs: &Vec<PaneFlags>) -> (r: Option<PaneFlags>)
    ensures
        r == focused_floating(fs@),
{
    let mut found: Option<PaneFlags> = None;
    let mut i: usize = 0;
    while i < fs.len()
        invariant
            i <= fs@.len(),
            found == focused_floating(fs@.subrange(0, i as int)),
        decreases fs.len() - i,
    {
        assert(fs@.subrange(0, i + 1).drop_last() =~= fs@.subrange(0, i as int));
        if found.is_none() && fs[i].is_floating && fs[i].is_focused {
            found = Some(fs[i]);
        }
        i = i + 1;
    }
    assert(fs@.subrange(0, fs@.len() as int) =~= fs@);
    found
}

fn has_pane_id(fs: &Vec<PaneFlags>, id: u32) -> (b: bool)
    ensures
        b == has_id(fs@, id),
{
    let mut i: usize = 0;
    while i < fs.len()
        invariant
            i <= fs@.len(),
            forall|j: int| 0 <= j < i ==> #[trigger] fs@[j].id != id,
        decreases fs.len() - i,
    {
        if fs[i].id == id {
            return true;
        }
        i = i + 1;
    }
    false
}

fn has_ended_pane(fs: &Vec<PaneFlags>, id: u32) -> (b: bool)
    ensures
        b == has_ended(fs@, id),
{
    let mut i: usize = 0;
    while i < fs.len()
        invariant
            i <= fs@.len(),
            forall|j: int| 0 <= j < i ==> !(#[trigger] fs@[j].id == id && (fs@[j].exited || fs@[j].is_held)),
        decreases fs.len() - i,
    {
        if fs[i].id == id && (fs[i].exited || fs[i].is_held) {
            return true;
        }
        i = i + 1;
    }
    false
}

fn copy_strings(v: &Vec<String>) -> (r: Vec<String>)
    ensures
        r@.map_values(|s: String| s@) == v@.map_values(|s: String| s@),
{
    let mut r: Vec<String> = Vec::new();
    let mut i: usize = 0;
    while i < v.len()
        invariant
            i <= v@.len(),
            r@.len() == i,
            forall|j: int| 0 <= j < i ==> (#[trigger] r@[j])@ == v@[j]@,
        decreases v.len() - i,
    {
        let x = v[i].clone();
        assert(x@ == v@[i as int]@);
        r.push(x);
        i = i + 1;
    }
    assert(r@.map_values(|s: String| s@) =~= v@.map_values(|s: String| s@));
    r
}

impl ScratchpadManager {
    /// The pane of a scratchpad on the targeted tab.
    pub fn get_pane(&self, name: &str, c: &ScratchpadContext) -> (r: Option<u32>)
        ensures
            r == pane_on_tab(self@, *c, name@),
    {
        self.pane_here(c, name)
    }

    fn pane_here(&self, c: &ScratchpadContext, name: &str) -> (r: Option<u32>)
        ensures
            r == pane_on_tab(self@, *c, name@),
    {
        match c.current_tab_id {
            Some(t) => get_key(&self.panes, name, t),
            None => None,
        }
    }

    fn orphaned_at(&self, c: &ScratchpadContext, name: &str) -> (b: bool)
        ensures
            b == orphaned_here(self@, *c, name@),
    {
        match c.current_tab_id {
            Some(t) => has_name_key(&self.orphaned, name, t),
            None => false,
        }
    }

    fn entry_of_pane(&self, id: u32) -> (r: Option<usize>)
        ensures
            match r {
                Some(i) => pane_entry(self@.panes, id) == Some(i as int) && i < self.panes@.len(),
                None => pane_entry(self@.panes, id) is None,
            },
    {
        let ghost s = self@.panes;
        let mut found: Option<usize> = None;
        let mut i: usize = 0;
        while i < self.panes.len()
            invariant
                i <= self.panes@.len(),
                s == self@.panes,
                s.len() == self.panes@.len(),
                match found {
                    Some(j) => pane_entry(s.subrange(0, i as int), id) == Some(j as int) && j < i,
                    None => pane_entry(s.subrange(0, i as int), id) is None,
                },
            decreases self.panes.len() - i,
        {
            assert(s.subrange(0, i + 1).drop_last() =~= s.subrange(0, i as int));
            assert(s.subrange(0, i + 1).last().1 == self.panes@[i as int].1);
            if found.is_none() && self.panes[i].1 == id {
                found = Some(i);
            }
            i = i + 1;
        }
        assert(s.subrange(0, s.len() as int) =~= s);
        found
    }

    /// The scratchpad a toggle without a name targets: the focused one, else
    /// the last focused on the targeted tab.
    pub fn default_target(&self, c: &ScratchpadContext) -> (r: Option<String>)
        ensures
            opt_view(r) == toggle_target(self@, *c, None),
    {
        match self.focused_name(c) {
            Some(n) => Some(n),
            None => match c.current_tab_id {
                Some(t) => self.latest_on(t),
                None => None,
            },
        }
    }

    fn is_visible(&self, c: &ScratchpadContext, name: &str) -> (b: bool)
        ensures
            b == visible_spec(self@, *c, name@),
    {
        if !c.are_floating_panes_visible {
            return false;
        }
        match self.pane_here(c, name) {
            Some(p) => {
                let fs = flags_at(&c.pane_manifest, c.current_tab_position);
                shows(&fs, p)
            },
            None => false,
        }
    }

    fn is_focused(&self, c: &ScratchpadContext, name: &str) -> (b: bool)
        ensures
            b == focused_spec(self@, *c, name@),
    {
        let p = match self.pane_here(c, name) {
            Some(p) => p,
            None => return false,
        };
        if !c.are_floating_panes_visible {
            return false;
        }
        if self.just_shown == Some(p) {
            return true;
        }
        let fs = all_flags(&c.pane_manifest);
        match floating_id(&fs, p) {
            Some(f) => f.is_focused,
            None => false,
        }
    }

    fn focused_name(&self, c: &ScratchpadContext) -> (r: Option<String>)
        ensures
            opt_view(r) == focused_scratchpad(self@, *c),
    {
        if !c.are_floating_panes_visible {
            return None;
        }
        let fs = all_flags(&c.pane_manifest);
        match focused_pane(&fs) {
            None => None,
            Some(f) => match self.entry_of_pane(f.id) {
                Some(i) => {
                    assert(self@.panes[i as int].0.0 == self.panes@[i as int].0.0@);
                    let n = self.panes[i].0.0.clone();
                    assert(n@ == self.panes@[i as int].0.0@);
                    Some(n)
                },
                None => None,
            },
        }
    }

    fn latest_on(&self, tab: usize) -> (r: Option<String>)
        ensures
            opt_view(r) == (match latest(self@.focus, tab) { Some(e) => Some(e.0), None => None::<Seq<char>> }),
    {
        let ghost s = self@.focus;
        let mut best: Option<(usize, u64)> = None;
        let mut i: usize = 0;
        while i < self.focus_times.len()
            invariant
                i <= self.focus_times@.len(),
                s == self@.focus,
                s.len() == self.focus_times@.len(),
                match best {
                    Some((j, t)) => j < i && latest(s.subrange(0, i as int), tab) == Some((s[j as int].0.0, t)),
                    None => latest(s.subrange(0, i as int), tab) is None,
                },
            decreases self.focus_times.len() - i,
        {
            assert(s.subrange(0, i + 1).drop_last() =~= s.subrange(0, i as int));
            assert(s.subrange(0, i + 1).last() == s[i as int]);
            assert(s[i as int] == ((self.focus_times@[i as int].0.0@, self.focus_times@[i as int].0.1), self.focus_times@[i as int].1));
            let e_tab = self.focus_times[i].0.1;
            let e_time = self.focus_times[i].1;
            if e_tab == tab {
                let take = match best {
                    Some((_, t)) => t <= e_time,
                    None => true,
                };
                if take {
                    best = Some((i, e_time));
                }
            }
            i = i + 1;
        }
        assert(s.subrange(0, s.len() as int) =~= s);
        match best {
            Some((j, _)) => Some(self.focus_times[j].0.0.clone()),
            None => None,
        }
    }
}


// ---------------------------------------------------------------------------
// Decisions

fn has_tab_id(tabs: &[usize], t: usize) -> (b: bool)
    ensures
        b == tabs@.contains(t),
{
    let mut i: usize = 0;
    while i < tabs.len()
        invariant
            i <= tabs@.len(),
            forall|j: int| 0 <= j < i ==> tabs@[j] != t,
        decreases tabs.len() - i,
    {
        if tabs[i] == t {
            assert(tabs@[i as int] == t);
            return true;
        }
        i = i + 1;
    }
    false
}

impl ScratchpadManager {
    fn stamp_focus(&mut self, name: &str, tab: usize)
        requires
            old(self)@.counter < u64::MAX,
        ensures
            final(self)@ == stamp(old(self)@, (name@, tab)),
    {
        self.focus_counter = self.focus_counter + 1;
        set_key(&mut self.focus_times, name, tab, self.focus_counter);
    }

    fn forget_key(&mut self, name: &str, tab: usize)
        ensures
            final(self)@ == forget(old(self)@, (name@, tab)),
    {
        remove_key(&mut self.panes, name, tab);
        remove_key(&mut self.focus_times, name, tab);
        remove_name_key(&mut self.orphaned, name, tab);
    }

    fn show_pane(&mut self, c: &ScratchpadContext, name: &str, pane: u32, tab: usize) -> (r: Vec<ScratchpadCommand>)
        requires
            old(self)@.counter < u64::MAX,
        ensures
            (final(self)@, commands_view(r@)) == show_pane_spec(old(self)@, *c, name@, pane, tab),
    {
        let fs = all_flags(&c.pane_manifest);
        let hidden = hidden_list(&fs);
        let mut cmds: Vec<ScratchpadCommand> = Vec::new();
        cmds.push(ScratchpadCommand::ShowPane { pane_id: pane, coordinates: Some(placement(c, name)) });
        let ghost head = seq![CommandView::ShowPane { pane_id: pane, coordinates: Some(placement_of(*c, name@)) }];
        assert(commands_view(cmds@) =~= head + rehide(hidden@.subrange(0, 0), pane));
        let mut i: usize = 0;
        while i < hidden.len()
            invariant
                i <= hidden@.len(),
                commands_view(cmds@) == head + rehide(hidden@.subrange(0, i as int), pane),
            decreases hidden.len() - i,
        {
            assert(hidden@.subrange(0, i + 1).drop_last() =~= hidden@.subrange(0, i as int));
            if hidden[i] != pane {
                let ghost before = commands_view(cmds@);
                cmds.push(ScratchpadCommand::HidePane { pane_id: hidden[i] });
                assert(commands_view(cmds@) =~= before.push(CommandView::HidePane { pane_id: hidden@[i as int] }));
            }
            i = i + 1;
        }
        assert(hidden@.subrange(0, hidden@.len() as int) =~= hidden@);
        self.just_shown = Some(pane);
        self.stamp_focus(name, tab);
        cmds
    }

    fn handle_show(&mut self, c: &ScratchpadContext, name: &str) -> (r: Vec<ScratchpadCommand>)
        requires
            old(self)@.counter < u64::MAX,
        ensures
            (final(self)@, commands_view(r@)) == show_spec(old(self)@, *c, name@),
    {
        let mut cmds: Vec<ScratchpadCommand> = Vec::new();
        assert(commands_view(cmds@) =~= Seq::<CommandView>::empty());
        if !self.configs.contains_key(name) {
            return cmds;
        }
        let tab = match c.current_tab_id {
            Some(t) => t,
            None => return cmds,
        };
        if has_name_key(&self.orphaned, name, tab) {
            return cmds;
        }
        match get_key(&self.panes, name, tab) {
            None => {
                match self.configs.get(name) {
                    Some(cfg) => {
                        cmds.push(ScratchpadCommand::OpenFloating {
                            command: copy_strings(&cfg.command),
                            cwd: copy_opt(&cfg.cwd),
                            coordinates: placement(c, name),
                            name: to_string(name),
                            tab_id: tab,
                        });
                        assert(commands_view(cmds@) =~= show_spec(self@, *c, name@).1);
                    },
                    None => {},
                }
                cmds
            },
            Some(p) => self.show_pane(c, name, p, tab),
        }
    }

    fn handle_hide(&self, c: &ScratchpadContext, name: &str) -> (r: Vec<ScratchpadCommand>)
        ensures
            commands_view(r@) == hide_spec(self@, *c, name@),
    {
        let mut cmds: Vec<ScratchpadCommand> = Vec::new();
        if !self.orphaned_at(c, name) {
            match self.pane_here(c, name) {
                Some(p) => cmds.push(ScratchpadCommand::HidePane { pane_id: p }),
                None => {},
            }
        }
        assert(commands_view(cmds@) =~= hide_spec(self@, *c, name@));
        cmds
    }

    fn handle_close(&mut self, c: &ScratchpadContext, name: &str) -> (r: Vec<ScratchpadCommand>)
        ensures
            (final(self)@, commands_view(r@)) == close_spec(old(self)@, *c, name@),
    {
        let mut cmds: Vec<ScratchpadCommand> = Vec::new();
        assert(commands_view(cmds@) =~= Seq::<CommandView>::empty());
        let tab = match c.current_tab_id {
            Some(t) => t,
            None => return cmds,
        };
        match get_key(&self.panes, name, tab) {
            Some(p) => {
                remove_key(&mut self.panes, name, tab);
                remove_key(&mut self.focus_times, name, tab);
                cmds.push(ScratchpadCommand::ClosePane { pane_id: p });
                assert(commands_view(cmds@) =~= seq![CommandView::ClosePane { pane_id: p }]);
            },
            None => {},
        }
        cmds
    }

    fn handle_toggle(&mut self, c: &ScratchpadContext, name: Option<String>) -> (r: Vec<ScratchpadCommand>)
        requires
            old(self)@.counter < u64::MAX,
        ensures
            (final(self)@, commands_view(r@)) == toggle_spec(old(self)@, *c, opt_view(name)),
    {
        let none: Vec<ScratchpadCommand> = Vec::new();
        assert(commands_view(none@) =~= Seq::<CommandView>::empty());
        let target = match name {
            Some(n) => n,
            None => match self.focused_name(c) {
                Some(n) => n,
                None => match c.current_tab_id {
                    Some(t) => match self.latest_on(t) {
                        Some(n) => n,
                        None => return none,
                    },
                    None => return none,
                },
            },
        };
        assert(toggle_target(self@, *c, opt_view(name)) == Some(target@));
        if !self.configs.contains_key(target.as_str()) || self.orphaned_at(c, target.as_str()) {
            return none;
        }
        if self.is_visible(c, target.as_str()) && self.is_focused(c, target.as_str()) {
            self.handle_hide(c, target.as_str())
        } else {
            self.handle_show(c, target.as_str())
        }
    }

    /// Carry out a scratchpad action on the targeted tab; gives the commands
    /// for the host to run.
    pub fn handle_action(&mut self, action: ScratchpadAction, ctx: &ScratchpadContext) -> (r: Vec<ScratchpadCommand>)
        requires
            old(self)@.counter < u64::MAX,
        ensures
            (final(self)@, commands_view(r@)) == action_spec(old(self)@, *ctx, action),
    {
        match action {
            ScratchpadAction::Toggle { name } => self.handle_toggle(ctx, name),
            ScratchpadAction::Show { name } => self.handle_show(ctx, name.as_str()),
            ScratchpadAction::Hide { name } => self.handle_hide(ctx, name.as_str()),
            ScratchpadAction::Close { name } => self.handle_close(ctx, name.as_str()),
        }
    }

    /// If the pane belongs to a managed scratchpad, show it with its
    /// placement and give the commands; `None` leaves the pane to the host.
    pub fn handle_focus_pane(&mut self, terminal_pane_id: u32, ctx: &ScratchpadContext) -> (r: Option<Vec<ScratchpadCommand>>)
        requires
            old(self)@.counter < u64::MAX,
        ensures
            (final(self)@, match r { Some(v) => Some(commands_view(v@)), None => None::<Seq<CommandView>> })
                == focus_pane_spec(old(self)@, *ctx, terminal_pane_id),
    {
        let i = match self.entry_of_pane(terminal_pane_id) {
            Some(i) => i,
            None => return None,
        };
        let name = self.panes[i].0.0.clone();
        let tab = self.panes[i].0.1;
        assert(self@.panes[i as int].0 == (name@, tab));
        if has_name_key(&self.orphaned, name.as_str(), tab) || !self.configs.contains_key(name.as_str()) {
            return None;
        }
        Some(self.show_pane(ctx, name.as_str(), terminal_pane_id, tab))
    }

    /// Record a pane the host just opened for a scratchpad, and title it.
    pub fn register_pane(&mut self, name: &str, tab_id: usize, pane_id: u32) -> (r: Vec<ScratchpadCommand>)
        requires
            old(self)@.counter < u64::MAX,
        ensures
            (final(self)@, commands_view(r@)) == register_spec(old(self)@, name@, tab_id, pane_id),
    {
        let title = match self.configs.get(name) {
            Some(cfg) => match &cfg.title {
                Some(t) => t.clone(),
                None => to_string(name),
            },
            None => to_string(name),
        };
        set_key(&mut self.panes, name, tab_id, pane_id);
        self.just_shown = Some(pane_id);
        self.stamp_focus(name, tab_id);
        let mut cmds: Vec<ScratchpadCommand> = Vec::new();
        cmds.push(ScratchpadCommand::RenamePane { pane_id, name: title });
        assert(commands_view(cmds@) =~= register_spec(old(self)@, name@, tab_id, pane_id).1);
        cmds
    }
}


impl ScratchpadManager {
    fn track_focus_change(&mut self, c: &ScratchpadContext)
        requires
            old(self)@.counter < u64::MAX,
        ensures
            final(self)@ == track_focus(old(self)@, *c),
    {
        if !c.are_floating_panes_visible {
            return;
        }
        let fs = all_flags(&c.pane_manifest);
        let focused = match focused_pane(&fs) {
            Some(f) => f,
            None => return,
        };
        match self.entry_of_pane(focused.id) {
            Some(i) => {
                let name = self.panes[i].0.0.clone();
                let tab = self.panes[i].0.1;
                assert(self@.panes[i as int].0 == (name@, tab));
                self.stamp_focus(name.as_str(), tab);
            },
            None => {},
        }
    }

    fn forget_entries(&mut self, ks: &Vec<((String, usize), u32)>)
        ensures
            final(self)@ == forget_all(old(self)@, keyed_view(ks@)),
    {
        let ghost m = self@;
        let ghost kv = keyed_view(ks@);
        let mut j: usize = 0;
        while j < ks.len()
            invariant
                j <= ks@.len(),
                kv == keyed_view(ks@),
                self@ == forget_all(m, kv.subrange(0, j as int)),
            decreases ks.len() - j,
        {
            assert(kv.subrange(0, j + 1).drop_last() =~= kv.subrange(0, j as int));
            assert(kv.subrange(0, j + 1).last().0 == (ks@[j as int].0.0@, ks@[j as int].0.1));
            self.forget_key(ks[j].0.0.as_str(), ks[j].0.1);
            j = j + 1;
        }
        assert(kv.subrange(0, kv.len() as int) =~= kv);
    }

    /// On a pane update: track focus changes made outside the manager, close
    /// and forget panes that exited or are held, silently forget panes that
    /// left the manifest, and close the panes on tabs that closed.
    pub fn on_pane_update(&mut self, ctx: &ScratchpadContext, orphaned_tabs: &[usize]) -> (r: Vec<ScratchpadCommand>)
        requires
            old(self)@.counter < u64::MAX,
        ensures
            (final(self)@, commands_view(r@)) == pane_update_spec(old(self)@, *ctx, orphaned_tabs@),
    {
        self.track_focus_change(ctx);
        let fs = all_flags(&ctx.pane_manifest);
        let ghost m1 = self@;
        let ghost p1 = m1.panes;
        let mut stale: Vec<((String, usize), u32)> = Vec::new();
        let mut cmds: Vec<ScratchpadCommand> = Vec::new();
        assert(keyed_view(stale@) =~= stale_entries(p1.subrange(0, 0), fs@));
        assert(commands_view(cmds@) =~= close_ended(p1.subrange(0, 0), fs@));
        let mut i: usize = 0;
        while i < self.panes.len()
            invariant
                i <= self.panes@.len(),
                self@ == m1,
                p1 == m1.panes,
                p1 == keyed_view(self.panes@),
                keyed_view(stale@) == stale_entries(p1.subrange(0, i as int), fs@),
                commands_view(cmds@) == close_ended(p1.subrange(0, i as int), fs@),
            decreases self.panes.len() - i,
        {
            assert(p1.subrange(0, i + 1).drop_last() =~= p1.subrange(0, i as int));
            assert(p1.subrange(0, i + 1).last() == p1[i as int]);
            assert(p1[i as int] == ((self.panes@[i as int].0.0@, self.panes@[i as int].0.1), self.panes@[i as int].1));
            let pane = self.panes[i].1;
            let ended = has_ended_pane(&fs, pane);
            if ended || !has_pane_id(&fs, pane) {
                let ghost before = keyed_view(stale@);
                stale.push(((self.panes[i].0.0.clone(), self.panes[i].0.1), pane));
                assert(keyed_view(stale@) =~= before.push(p1[i as int]));
            }
            if ended {
                let ghost before = commands_view(cmds@);
                cmds.push(ScratchpadCommand::ClosePane { pane_id: pane });
                assert(commands_view(cmds@) =~= before.push(CommandView::ClosePane { pane_id: pane }));
            }
            i = i + 1;
        }
        assert(p1.subrange(0, p1.len() as int) =~= p1);
        self.forget_entries(&stale);

        let ghost m2 = self@;
        let ghost p2 = m2.panes;
        let mut gone: Vec<((String, usize), u32)> = Vec::new();
        assert(keyed_view(gone@) =~= entries_on_tabs(p2.subrange(0, 0), orphaned_tabs@));
        let mut i: usize = 0;
        while i < self.panes.len()
            invariant
                i <= self.panes@.len(),
                self@ == m2,
                p2 == m2.panes,
                p2 == keyed_view(self.panes@),
                keyed_view(gone@) == entries_on_tabs(p2.subrange(0, i as int), orphaned_tabs@),
            decreases self.panes.len() - i,
        {
            assert(p2.subrange(0, i + 1).drop_last() =~= p2.subrange(0, i as int));
            assert(p2.subrange(0, i + 1).last() == p2[i as int]);
            assert(p2[i as int] == ((self.panes@[i as int].0.0@, self.panes@[i as int].0.1), self.panes@[i as int].1));
            if has_tab_id(orphaned_tabs, self.panes[i].0.1) {
                let ghost before = keyed_view(gone@);
                gone.push(((self.panes[i].0.0.clone(), self.panes[i].0.1), self.panes[i].1));
                assert(keyed_view(gone@) =~= before.push(p2[i as int]));
            }
            i = i + 1;
        }
        assert(p2.subrange(0, p2.len() as int) =~= p2);
        let ghost head = commands_view(cmds@);
        let ghost gv = keyed_view(gone@);
        let mut j: usize = 0;
        assert(close_all(gv.subrange(0, 0)) =~= Seq::<CommandView>::empty());
        assert(commands_view(cmds@) =~= head + close_all(gv.subrange(0, 0)));
        while j < gone.len()
            invariant
                j <= gone@.len(),
                gv == keyed_view(gone@),
                commands_view(cmds@) == head + close_all(gv.subrange(0, j as int)),
            decreases gone.len() - j,
        {
            let ghost before = commands_view(cmds@);
            cmds.push(ScratchpadCommand::ClosePane { pane_id: gone[j].1 });
            assert(commands_view(cmds@) =~= before.push(CommandView::ClosePane { pane_id: gv[j as int].1 }));
            assert(close_all(gv.subrange(0, j + 1)) =~= close_all(gv.subrange(0, j as int)).push(CommandView::ClosePane { pane_id: gv[j as int].1 }));
            j = j + 1;
        }
        assert(gv.subrange(0, gv.len() as int) =~= gv);
        self.forget_entries(&gone);
        cmds
    }

    /// Take a reloaded configuration: panes of scratchpads that left it are
    /// orphaned and shown (once), re-added scratchpads are managed again.
    pub fn reconcile_config(&mut self, new_configs: ScratchpadConfigs) -> (r: Vec<ScratchpadCommand>)
        ensures
            (final(self)@, commands_view(r@)) == reconcile_spec(old(self)@, new_configs@, new_configs.name_list()),
    {
        let ghost m = self@;
        let ghost ps = m.panes;
        let mut cmds: Vec<ScratchpadCommand> = Vec::new();
        assert(commands_view(cmds@) =~= orphan_shows(ps.subrange(0, 0), m, new_configs@));
        let mut i: usize = 0;
        while i < self.panes.len()
            invariant
                i <= self.panes@.len(),
                self@ == m,
                ps == m.panes,
                ps == keyed_view(self.panes@),
                commands_view(cmds@) == orphan_shows(ps.subrange(0, i as int), m, new_configs@),
            decreases self.panes.len() - i,
        {
            assert(ps.subrange(0, i + 1).drop_last() =~= ps.subrange(0, i as int));
            assert(ps.subrange(0, i + 1).last() == ps[i as int]);
            assert(ps[i as int] == ((self.panes@[i as int].0.0@, self.panes@[i as int].0.1), self.panes@[i as int].1));
            let name = self.panes[i].0.0.as_str();
            let tab = self.panes[i].0.1;
            if self.configs.contains_key(name) && !new_configs.contains_key(name) && !has_name_key(&self.orphaned, name, tab) {
                let ghost before = commands_view(cmds@);
                cmds.push(ScratchpadCommand::ShowPane { pane_id: self.panes[i].1, coordinates: None });
                assert(commands_view(cmds@) =~= before.push(CommandView::ShowPane { pane_id: ps[i as int].1, coordinates: None }));
            }
            i = i + 1;
        }
        assert(ps.subrange(0, ps.len() as int) =~= ps);

        let mut i: usize = 0;
        while i < self.panes.len()
            invariant
                i <= self.panes@.len(),
                ps == m.panes,
                ps == keyed_view(self.panes@),
                self.configs@ == m.configs,
                keyed_view(self.focus_times@) == m.focus,
                self.focus_counter == m.counter,
                self.just_shown == m.just_shown,
                names_view(self.orphaned@) == orphan_marks(ps.subrange(0, i as int), m.orphaned, m, new_configs@),
            decreases self.panes.len() - i,
        {
            assert(ps.subrange(0, i + 1).drop_last() =~= ps.subrange(0, i as int));
            assert(ps.subrange(0, i + 1).last() == ps[i as int]);
            assert(ps[i as int].0 == (self.panes@[i as int].0.0@, self.panes@[i as int].0.1));
            let name = self.panes[i].0.0.as_str();
            let tab = self.panes[i].0.1;
            if self.configs.contains_key(name) && !new_configs.contains_key(name) {
                add_name_key(&mut self.orphaned, name, tab);
            }
            i = i + 1;
        }
        assert(ps.subrange(0, ps.len() as int) =~= ps);

        let ghost o = names_view(self.orphaned@);
        let mut kept: Vec<(String, usize)> = Vec::new();
        assert(names_view(kept@) =~= unconfigured(o.subrange(0, 0), new_configs@));
        let mut i: usize = 0;
        while i < self.orphaned.len()
            invariant
                i <= self.orphaned@.len(),
                o == names_view(self.orphaned@),
                names_view(kept@) == unconfigured(o.subrange(0, i as int), new_configs@),
            decreases self.orphaned.len() - i,
        {
            assert(o.subrange(0, i + 1).drop_last() =~= o.subrange(0, i as int));
            assert(o.subrange(0, i + 1).last() == (self.orphaned@[i as int].0@, self.orphaned@[i as int].1));
            if !new_configs.contains_key(self.orphaned[i].0.as_str()) {
                let ghost before = names_view(kept@);
                kept.push((self.orphaned[i].0.clone(), self.orphaned[i].1));
                assert(names_view(kept@) =~= before.push(o[i as int]));
            }
            i = i + 1;
        }
        assert(o.subrange(0, o.len() as int) =~= o);
        self.orphaned = kept;
        self.configs = new_configs;
        cmds
    }

    /// Replace the panes, focus stamps and counter with a persisted state
    /// (later entries win), and orphan and show the panes of scratchpads
    /// that are not configured.
    pub fn restore_state(&mut self, state: PersistedState) -> (r: Vec<ScratchpadCommand>)
        ensures
            (final(self)@, commands_view(r@))
                == restore_spec(old(self)@, keyed_view(state.panes@), keyed_view(state.focus_times@), state.focus_counter),
    {
        let ghost sp = keyed_view(state.panes@);
        let ghost sf = keyed_view(state.focus_times@);
        let mut panes: Vec<((String, usize), u32)> = Vec::new();
        assert(keyed_view(panes@) =~= kset_all(Seq::<(KeyView, u32)>::empty(), sp.subrange(0, 0)));
        let mut i: usize = 0;
        while i < state.panes.len()
            invariant
                i <= state.panes@.len(),
                sp == keyed_view(state.panes@),
                keyed_view(panes@) == kset_all(Seq::<(KeyView, u32)>::empty(), sp.subrange(0, i as int)),
            decreases state.panes.len() - i,
        {
            assert(sp.subrange(0, i + 1).drop_last() =~= sp.subrange(0, i as int));
            assert(sp.subrange(0, i + 1).last() == ((state.panes@[i as int].0.0@, state.panes@[i as int].0.1), state.panes@[i as int].1));
            set_key(&mut panes, state.panes[i].0.0.as_str(), state.panes[i].0.1, state.panes[i].1);
            i = i + 1;
        }
        assert(sp.subrange(0, sp.len() as int) =~= sp);
        let mut focus: Vec<((String, usize), u64)> = Vec::new();
        assert(keyed_view(focus@) =~= kset_all(Seq::<(KeyView, u64)>::empty(), sf.subrange(0, 0)));
        let mut i: usize = 0;
        while i < state.focus_times.len()
            invariant
                i <= state.focus_times@.len(),
                sf == keyed_view(state.focus_times@),
                keyed_view(focus@) == kset_all(Seq::<(KeyView, u64)>::empty(), sf.subrange(0, i as int)),
            decreases state.focus_times.len() - i,
        {
            assert(sf.subrange(0, i + 1).drop_last() =~= sf.subrange(0, i as int));
            assert(sf.subrange(0, i + 1).last() == ((state.focus_times@[i as int].0.0@, state.focus_times@[i as int].0.1), state.focus_times@[i as int].1));
            set_key(&mut focus, state.focus_times[i].0.0.as_str(), state.focus_times[i].0.1, state.focus_times[i].1);
            i = i + 1;
        }
        assert(sf.subrange(0, sf.len() as int) =~= sf);
        self.panes = panes;
        self.focus_times = focus;
        self.focus_counter = state.focus_counter;

        let ghost m1 = self@;
        let ghost ps = m1.panes;
        let mut cmds: Vec<ScratchpadCommand> = Vec::new();
        assert((names_view(self.orphaned@), commands_view(cmds@)) =~= restore_orphans(ps.subrange(0, 0), m1));
        let mut i: usize = 0;
        while i < self.panes.len()
            invariant
                i <= self.panes@.len(),
                ps == m1.panes,
                ps == keyed_view(self.panes@),
                self.configs@ == m1.configs,
                self.configs.name_list() == m1.config_names,
                keyed_view(self.focus_times@) == m1.focus,
                self.focus_counter == m1.counter,
                self.just_shown == m1.just_shown,
                (names_view(self.orphaned@), commands_view(cmds@)) == restore_orphans(ps.subrange(0, i as int), m1),
            decreases self.panes.len() - i,
        {
            assert(ps.subrange(0, i + 1).drop_last() =~= ps.subrange(0, i as int));
            assert(ps.subrange(0, i + 1).last() == ps[i as int]);
            assert(ps[i as int] == ((self.panes@[i as int].0.0@, self.panes@[i as int].0.1), self.panes@[i as int].1));
            let tab = self.panes[i].0.1;
            if !self.configs.contains_key(self.panes[i].0.0.as_str())
                && !has_name_key(&self.orphaned, self.panes[i].0.0.as_str(), tab) {
                let ghost o0 = names_view(self.orphaned@);
                let ghost c0 = commands_view(cmds@);
                let name = self.panes[i].0.0.clone();
                self.orphaned.push((name, tab));
                cmds.push(ScratchpadCommand::ShowPane { pane_id: self.panes[i].1, coordinates: None });
                assert(names_view(self.orphaned@) =~= o0.push(ps[i as int].0));
                assert(commands_view(cmds@) =~= c0.push(CommandView::ShowPane { pane_id: ps[i as int].1, coordinates: None }));
            }
            i = i + 1;
        }
        assert(ps.subrange(0, ps.len() as int) =~= ps);
        cmds
    }
}


// ---------------------------------------------------------------------------
// Laws

proof fn lemma_kget_push<T>(s: Seq<(KeyView, T)>, x: (KeyView, T), k: KeyView)
    ensures
        kget(s.push(x), k) == match kget(s, k) {
            Some(v) => Some(v),
            None => if x.0 == k { Some(x.1) } else { None },
        },
{
    let t = s.push(x);
    assert(t.drop_last() =~= s);
    lemma_key_index(s, k);
    match key_index(s, k) {
        Some(i) => { assert(t[i] == s[i]); },
        None => {},
    }
}

proof fn lemma_kget_kremove<T>(s: Seq<(KeyView, T)>, k: KeyView, k2: KeyView)
    ensures
        kget(kremove(s, k), k2) == if k2 == k { None } else { kget(s, k2) },
    decreases s.len(),
{
    if s.len() == 0 {
        assert(key_index(s, k2) is None);
    } else {
        lemma_kget_kremove(s.drop_last(), k, k2);
        assert(s.drop_last().push(s.last()) =~= s);
        lemma_kget_push(s.drop_last(), s.last(), k2);
        if s.last().0 != k {
            lemma_kget_push(kremove(s.drop_last(), k), s.last(), k2);
        }
    }
}

proof fn lemma_key_index_first<T>(s: Seq<(KeyView, T)>, k: KeyView, i: int)
    requires
        0 <= i < s.len(),
        s[i].0 == k,
        forall|j: int| 0 <= j < i ==> #[trigger] s[j].0 != k,
    ensures
        key_index(s, k) == Some(i),
{
    lemma_key_index(s, k);
    match key_index(s, k) {
        Some(m) => {
            if m < i { assert(s[m].0 != k); }
            if m > i { assert(s[i].0 != k); }
        },
        None => { assert(s[i].0 != k); },
    }
}

proof fn lemma_kget_kset<T>(s: Seq<(KeyView, T)>, k: KeyView, v: T, k2: KeyView)
    ensures
        kget(kset(s, k, v), k2) == if k2 == k { Some(v) } else { kget(s, k2) },
{
    lemma_key_index(s, k);
    match key_index(s, k) {
        Some(i) => {
            let t = s.update(i, (k, v));
            lemma_key_index(s, k2);
            match key_index(s, k2) {
                Some(j) => {
                    assert forall|m: int| 0 <= m < j implies #[trigger] t[m].0 != k2 by {
                        assert(s[m].0 != k2);
                    }
                    lemma_key_index_first(t, k2, j);
                    if k2 == k {
                        lemma_key_index_first(s, k, j);
                    } else {
                        assert(j != i);
                    }
                },
                None => {
                    assert(k2 != k);
                    lemma_key_index(t, k2);
                    assert forall|m: int| 0 <= m < t.len() implies #[trigger] t[m].0 != k2 by {
                        assert(s[m].0 != k2);
                    }
                },
            }
        },
        None => {
            lemma_kget_push(s, (k, v), k2);
            if k2 == k {
                assert(kget(s, k) is None);
            }
        },
    }
}

/// Instances are tab-local: an action on a tab leaves the pane recorded for
/// every scratchpad on every other tab as it was.
pub proof fn law_actions_are_tab_local(
    m: ManagerView,
    c: ScratchpadContext,
    a: ScratchpadAction,
    tab: usize,
    other: KeyView,
)
    requires
        c.current_tab_id == Some(tab),
        other.1 != tab,
    ensures
        kget(action_spec(m, c, a).0.panes, other) == kget(m.panes, other),
{
    match a {
        ScratchpadAction::Close { name } => {
            lemma_kget_kremove(m.panes, (name@, tab), other);
        },
        _ => {},
    }
}

/// Hiding keeps the pane: the manager's state does not change, and a
/// recorded pane on the targeted tab is only hidden.
pub proof fn law_hide_keeps_pane(m: ManagerView, c: ScratchpadContext, name: String, tab: usize, pane: u32)
    requires
        c.current_tab_id == Some(tab),
        kget(m.panes, (name@, tab)) == Some(pane),
        !m.orphaned.contains((name@, tab)),
    ensures
        action_spec(m, c, ScratchpadAction::Hide { name }) == (m, seq![CommandView::HidePane { pane_id: pane }]),
{
}

/// Closing terminates the pane and forgets it: the recorded pane on the
/// targeted tab is closed and no pane is recorded there afterwards.
pub proof fn law_close_forgets_pane(m: ManagerView, c: ScratchpadContext, name: String, tab: usize, pane: u32)
    requires
        c.current_tab_id == Some(tab),
        kget(m.panes, (name@, tab)) == Some(pane),
    ensures
        action_spec(m, c, ScratchpadAction::Close { name }).1 == seq![CommandView::ClosePane { pane_id: pane }],
        kget(action_spec(m, c, ScratchpadAction::Close { name }).0.panes, (name@, tab)) is None,
        kget(action_spec(m, c, ScratchpadAction::Close { name }).0.focus, (name@, tab)) is None,
        forall|e: (Seq<char>, u64)| latest(action_spec(m, c, ScratchpadAction::Close { name }).0.focus, tab) == Some(e)
            ==> e.0 != name@,
{
    lemma_kget_kremove(m.panes, (name@, tab), (name@, tab));
    lemma_kget_kremove(m.focus, (name@, tab), (name@, tab));
    let f = action_spec(m, c, ScratchpadAction::Close { name }).0.focus;
    lemma_key_index(f, (name@, tab));
    lemma_latest_entry(f, tab);
    assert forall|e: (Seq<char>, u64)| latest(f, tab) == Some(e) implies e.0 != name@ by {
        let j = choose|j: int| 0 <= j < f.len() && #[trigger] f[j] == ((e.0, tab), e.1);
        assert(f[j].0 != (name@, tab));
    }
}

/// A registered pane is the one a later close on its tab terminates.
pub proof fn law_register_then_close(m: ManagerView, c: ScratchpadContext, name: String, tab: usize, pane: u32)
    requires
        c.current_tab_id == Some(tab),
    ensures
        kget(register_spec(m, name@, tab, pane).0.panes, (name@, tab)) == Some(pane),
        action_spec(register_spec(m, name@, tab, pane).0, c, ScratchpadAction::Close { name }).1
            == seq![CommandView::ClosePane { pane_id: pane }],
{
    lemma_kget_kset(m.panes, (name@, tab), pane, (name@, tab));
    let r = register_spec(m, name@, tab, pane).0;
    lemma_kget_kremove(r.panes, (name@, tab), (name@, tab));
}

/// A scratchpad that left the configuration while its pane stayed on the
/// targeted tab ignores show, hide and named toggles.
pub proof fn law_orphans_ignore_actions(m: ManagerView, c: ScratchpadContext, name: String, tab: usize)
    requires
        c.current_tab_id == Some(tab),
        m.orphaned.contains((name@, tab)),
    ensures
        action_spec(m, c, ScratchpadAction::Show { name }) == (m, Seq::<CommandView>::empty()),
        action_spec(m, c, ScratchpadAction::Hide { name }) == (m, Seq::<CommandView>::empty()),
        action_spec(m, c, ScratchpadAction::Toggle { name: Some(name) }) == (m, Seq::<CommandView>::empty()),
{
}

/// No key is recorded twice.
pub open spec fn keys_distinct<T>(s: Seq<(KeyView, T)>) -> bool {
    forall|i: int, j: int| 0 <= i < j < s.len() ==> #[trigger] s[i].0 != #[trigger] s[j].0
}

proof fn lemma_kset_all_distinct<T>(s: Seq<(KeyView, T)>)
    requires
        keys_distinct(s),
    ensures
        kset_all(Seq::<(KeyView, T)>::empty(), s) == s,
    decreases s.len(),
{
    if s.len() > 0 {
        let d = s.drop_last();
        assert forall|i: int, j: int| 0 <= i < j < d.len() implies #[trigger] d[i].0 != #[trigger] d[j].0 by {
            assert(d[i] == s[i] && d[j] == s[j]);
        }
        lemma_kset_all_distinct(d);
        lemma_key_index(d, s.last().0);
        match key_index(d, s.last().0) {
            Some(i) => {
                assert(d[i] == s[i]);
                assert(s[i].0 != s[s.len() - 1].0);
            },
            None => {},
        }
        assert(d.push(s.last()) =~= s);
    }
}

proof fn lemma_restore_orphans_configured(s: Seq<(KeyView, u32)>, m: ManagerView)
    requires
        forall|i: int| 0 <= i < s.len() ==> m.configs.contains_key(#[trigger] s[i].0.0),
    ensures
        restore_orphans(s, m) == (m.orphaned, Seq::<CommandView>::empty()),
    decreases s.len(),
{
    if s.len() > 0 {
        let d = s.drop_last();
        assert forall|i: int| 0 <= i < d.len() implies m.configs.contains_key(#[trigger] d[i].0.0) by {
            assert(d[i] == s[i]);
        }
        lemma_restore_orphans_configured(d, m);
        assert(m.configs.contains_key(s[s.len() - 1].0.0));
    }
}

/// Restoring what `persisted_state` keeps gives back the same panes, focus
/// stamps and counter and shows no pane, when no key is recorded twice and
/// every scratchpad with a pane is configured.
pub proof fn law_restore_round_trips(m: ManagerView, target: ManagerView)
    requires
        keys_distinct(m.panes),
        keys_distinct(m.focus),
        forall|i: int| 0 <= i < m.panes.len() ==> target.configs.contains_key(#[trigger] m.panes[i].0.0),
    ensures
        restore_spec(target, m.panes, m.focus, m.counter).0.panes == m.panes,
        restore_spec(target, m.panes, m.focus, m.counter).0.focus == m.focus,
        restore_spec(target, m.panes, m.focus, m.counter).0.counter == m.counter,
        restore_spec(target, m.panes, m.focus, m.counter).0.orphaned == target.orphaned,
        restore_spec(target, m.panes, m.focus, m.counter).1 == Seq::<CommandView>::empty(),
{
    lemma_kset_all_distinct(m.panes);
    lemma_kset_all_distinct(m.focus);
    let m1 = ManagerView { panes: m.panes, focus: m.focus, counter: m.counter, ..target };
    lemma_restore_orphans_configured(m.panes, m1);
}

/// Some entry has this key.
pub open spec fn has_key<T>(s: Seq<(KeyView, T)>, k: KeyView) -> bool {
    exists|j: int| 0 <= j < s.len() && s[j].0 == k
}

proof fn lemma_kset_keys_distinct<T>(s: Seq<(KeyView, T)>, k: KeyView, v: T)
    requires
        keys_distinct(s),
    ensures
        keys_distinct(kset(s, k, v)),
{
    lemma_key_index(s, k);
    let r = kset(s, k, v);
    match key_index(s, k) {
        Some(i) => {
            assert forall|a: int, b: int| 0 <= a < b < r.len() implies #[trigger] r[a].0 != #[trigger] r[b].0 by {
                assert(r[a].0 == s[a].0 && r[b].0 == s[b].0);
            }
        },
        None => {
            assert forall|a: int, b: int| 0 <= a < b < r.len() implies #[trigger] r[a].0 != #[trigger] r[b].0 by {
                assert(r[a] == s[a]);
                if b < s.len() { assert(r[b] == s[b]); }
            }
        },
    }
}

proof fn lemma_kremove_keys_distinct<T>(s: Seq<(KeyView, T)>, k: KeyView)
    requires
        keys_distinct(s),
    ensures
        keys_distinct(kremove(s, k)),
        forall|x: KeyView| has_key(kremove(s, k), x) ==> #[trigger] has_key(s, x),
    decreases s.len(),
{
    if s.len() > 0 {
        let d = s.drop_last();
        assert forall|i: int, j: int| 0 <= i < j < d.len() implies #[trigger] d[i].0 != #[trigger] d[j].0 by {
            assert(d[i] == s[i] && d[j] == s[j]);
        }
        lemma_kremove_keys_distinct(d, k);
        let rest = kremove(d, k);
        let last = s[s.len() - 1];
        assert(s.last() == last);
        assert forall|x: KeyView| has_key(d, x) implies #[trigger] has_key(s, x) by {
            let j = choose|j: int| 0 <= j < d.len() && d[j].0 == x;
            assert(s[j] == d[j]);
        }
        if last.0 != k {
            let r = rest.push(last);
            assert(kremove(s, k) == r);
            assert forall|a: int, b: int| 0 <= a < b < r.len() implies #[trigger] r[a].0 != #[trigger] r[b].0 by {
                assert(r[a] == rest[a]);
                if b < rest.len() {
                    assert(r[b] == rest[b]);
                } else {
                    assert(has_key(rest, rest[a].0));
                    assert(has_key(d, rest[a].0));
                    let j = choose|j: int| 0 <= j < d.len() && d[j].0 == rest[a].0;
                    assert(s[j] == d[j]);
                }
            }
            assert forall|x: KeyView| has_key(r, x) implies #[trigger] has_key(s, x) by {
                let j = choose|j: int| 0 <= j < r.len() && r[j].0 == x;
                if j < rest.len() {
                    assert(r[j] == rest[j]);
                    assert(has_key(rest, x));
                } else {
                    assert(s[s.len() - 1].0 == x);
                }
            }
        } else {
            assert forall|x: KeyView| has_key(kremove(s, k), x) implies #[trigger] has_key(s, x) by {
                assert(has_key(rest, x));
            }
        }
    }
}

proof fn lemma_forget_all_keys_distinct(m: ManagerView, ks: Seq<(KeyView, u32)>)
    requires
        keys_distinct(m.panes),
        keys_distinct(m.focus),
    ensures
        keys_distinct(forget_all(m, ks).panes),
        keys_distinct(forget_all(m, ks).focus),
    decreases ks.len(),
{
    if ks.len() > 0 {
        lemma_forget_all_keys_distinct(m, ks.drop_last());
        let m1 = forget_all(m, ks.drop_last());
        lemma_kremove_keys_distinct(m1.panes, ks.last().0);
        lemma_kremove_keys_distinct(m1.focus, ks.last().0);
    }
}

proof fn lemma_kset_all_keys_distinct<T>(s: Seq<(KeyView, T)>, es: Seq<(KeyView, T)>)
    requires
        keys_distinct(s),
    ensures
        keys_distinct(kset_all(s, es)),
    decreases es.len(),
{
    if es.len() > 0 {
        lemma_kset_all_keys_distinct(s, es.drop_last());
        lemma_kset_keys_distinct(kset_all(s, es.drop_last()), es.last().0, es.last().1);
    }
}

/// The manager keeps one entry per key: every operation (an action, a focus
/// on a pane, registering a pane, a pane update, a new configuration, a
/// restore) leaves no key recorded twice among the panes or the focus stamps.
pub proof fn law_one_entry_per_key(
    m: ManagerView,
    c: ScratchpadContext,
    a: ScratchpadAction,
    pane: u32,
    name: Seq<char>,
    tab: usize,
    closed_tabs: Seq<usize>,
    new: Map<Seq<char>, ScratchpadConfig>,
    new_names: Seq<Seq<char>>,
    panes: Seq<(KeyView, u32)>,
    focus: Seq<(KeyView, u64)>,
    counter: u64,
)
    requires
        keys_distinct(m.panes),
        keys_distinct(m.focus),
    ensures
        keys_distinct(action_spec(m, c, a).0.panes) && keys_distinct(action_spec(m, c, a).0.focus),
        keys_distinct(focus_pane_spec(m, c, pane).0.panes) && keys_distinct(focus_pane_spec(m, c, pane).0.focus),
        keys_distinct(register_spec(m, name, tab, pane).0.panes) && keys_distinct(register_spec(m, name, tab, pane).0.focus),
        keys_distinct(pane_update_spec(m, c, closed_tabs).0.panes) && keys_distinct(pane_update_spec(m, c, closed_tabs).0.focus),
        keys_distinct(reconcile_spec(m, new, new_names).0.panes) && keys_distinct(reconcile_spec(m, new, new_names).0.focus),
        keys_distinct(restore_spec(m, panes, focus, counter).0.panes) && keys_distinct(restore_spec(m, panes, focus, counter).0.focus),
{
    // An action: only a show stamps the focus, only a close removes.
    match c.current_tab_id {
        Some(t) => {
            match a {
                ScratchpadAction::Close { name: n } => {
                    lemma_kremove_keys_distinct(m.panes, (n@, t));
                    lemma_kremove_keys_distinct(m.focus, (n@, t));
                },
                ScratchpadAction::Show { name: n } => {
                    lemma_kset_keys_distinct(m.focus, (n@, t), (m.counter + 1) as u64);
                },
                ScratchpadAction::Toggle { name: n } => {
                    match toggle_target(m, c, opt_view(n)) {
                        Some(tn) => { lemma_kset_keys_distinct(m.focus, (tn, t), (m.counter + 1) as u64); },
                        None => {},
                    }
                },
                _ => {},
            }
        },
        None => {},
    }
    // A focus on a managed pane stamps its key.
    match pane_entry(m.panes, pane) {
        Some(i) => { lemma_kset_keys_distinct(m.focus, m.panes[i].0, (m.counter + 1) as u64); },
        None => {},
    }
    // Registering records the pane and stamps its key.
    lemma_kset_keys_distinct(m.panes, (name, tab), pane);
    lemma_kset_keys_distinct(m.focus, (name, tab), (m.counter + 1) as u64);
    // A pane update: track the focus, then forget stale panes and those of closed tabs.
    let m1 = track_focus(m, c);
    if c.are_floating_panes_visible {
        match focused_floating(manifest_flags(c.pane_manifest@)) {
            Some(f) => match pane_entry(m.panes, f.id) {
                Some(i) => { lemma_kset_keys_distinct(m.focus, m.panes[i].0, (m.counter + 1) as u64); },
                None => {},
            },
            None => {},
        }
    }
    let fs = manifest_flags(c.pane_manifest@);
    let stale = stale_entries(m1.panes, fs);
    lemma_forget_all_keys_distinct(m1, stale);
    let m2 = forget_all(m1, stale);
    lemma_forget_all_keys_distinct(m2, entries_on_tabs(m2.panes, closed_tabs));
    // A restore records the entries one by one.
    lemma_kset_all_keys_distinct(Seq::<(KeyView, u32)>::empty(), panes);
    lemma_kset_all_keys_distinct(Seq::<(KeyView, u64)>::empty(), focus);
}

/// The most recent focus of a tab is a recorded entry of that tab.
proof fn lemma_latest_entry(focus: Seq<(KeyView, u64)>, tab: usize)
    ensures
        match latest(focus, tab) {
            Some(e) => exists|j: int| 0 <= j < focus.len() && #[trigger] focus[j] == ((e.0, tab), e.1),
            None => true,
        },
    decreases focus.len(),
{
    if focus.len() > 0 {
        let d = focus.drop_last();
        lemma_latest_entry(d, tab);
        let rest = latest(d, tab);
        let e = focus.last();
        if e.0.1 == tab && (match rest { Some(r) => r.1 <= e.1, None => true }) {
            assert(focus[focus.len() - 1] == ((e.0.0, tab), e.1));
        } else {
            match rest {
                Some(r) => {
                    let j = choose|j: int| 0 <= j < d.len() && #[trigger] d[j] == ((r.0, tab), r.1);
                    assert(focus[j] == d[j]);
                },
                None => {},
            }
        }
    }
}

/// While floating panes are hidden, no scratchpad pane is shown, so a
/// toggle of a named scratchpad does exactly what showing it does.
pub proof fn law_toggle_shows_when_floating_hidden(m: ManagerView, c: ScratchpadContext, name: String)
    requires
        !c.are_floating_panes_visible,
    ensures
        action_spec(m, c, ScratchpadAction::Toggle { name: Some(name) })
            == action_spec(m, c, ScratchpadAction::Show { name }),
{
}

/// A toggle hides a named scratchpad only when its pane on the targeted tab
/// is shown: floating panes are visible and the manifest shows that pane on
/// the current tab; otherwise the toggle does what a show does.
pub proof fn law_toggle_hides_only_shown_panes(m: ManagerView, c: ScratchpadContext, name: String)
    ensures
        action_spec(m, c, ScratchpadAction::Toggle { name: Some(name) })
            != action_spec(m, c, ScratchpadAction::Show { name }) ==> {
            &&& c.are_floating_panes_visible
            &&& c.current_tab_id is Some
            &&& kget(m.panes, (name@, c.current_tab_id->Some_0)) is Some
            &&& shows_pane(tab_flags(c.pane_manifest@, c.current_tab_position),
                    kget(m.panes, (name@, c.current_tab_id->Some_0))->Some_0)
        },
{
}

/// A toggle of a configured scratchpad whose pane on the targeted tab is
/// shown and has focus (it was just shown, or the manifest focuses it) hides
/// that pane and changes nothing else.
pub proof fn law_toggle_hides_shown_focused_pane(m: ManagerView, c: ScratchpadContext, name: String, tab: usize, pane: u32)
    requires
        c.are_floating_panes_visible,
        c.current_tab_id == Some(tab),
        m.configs.contains_key(name@),
        !m.orphaned.contains((name@, tab)),
        kget(m.panes, (name@, tab)) == Some(pane),
        shows_pane(tab_flags(c.pane_manifest@, c.current_tab_position), pane),
        m.just_shown == Some(pane)
            || (floating_with_id(manifest_flags(c.pane_manifest@), pane) is Some
                && floating_with_id(manifest_flags(c.pane_manifest@), pane)->Some_0.is_focused),
    ensures
        action_spec(m, c, ScratchpadAction::Toggle { name: Some(name) }) == (m, seq![CommandView::HidePane { pane_id: pane }]),
{
}

} // verus!
