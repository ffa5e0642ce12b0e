//! The shapes of a scratchpad listing.

use vstd::prelude::*;
use crate::scratchpad::configs::{lemma_name_list, texts_view};
use crate::scratchpad::manager::{lemma_manager_view, keyed_view, KeyView, ManagerView, ScratchpadManager};
use crate::stable_tabs::{aget, aindex, lemma_aindex};
use crate::text::str_equals;
use crate::tree::PaneNode;
use crate::zjstatus::render::{name_less, text_lt};

verus! {

/// Which scratchpads a listing shows.
pub struct ScratchpadListQuery {
    /// Only scratchpads with these names (empty: all).
    pub names: Vec<String>,
    /// Only instances on this tab (`None`: all tabs).
    pub tab_id: Option<u64>,
    /// Include the full pane of each instance.
    pub full: bool,
}

/// One scratchpad in a listing.
#[derive(Debug)]
pub struct ScratchpadListEntry {
    pub name: String,
    pub command: Option<Vec<String>>,
    pub orphaned: bool,
    pub instances: Vec<ScratchpadInstanceInfo>,
}

/// One instance of a scratchpad, on one tab.
#[derive(Debug, PartialEq, Eq)]
pub struct ScratchpadInstanceInfo {
    pub tab_id: u64,
    pub tab_position: Option<usize>,
    pub pane_id: u32,
    pub visible: bool,
    /// The pane, when the full listing was asked for.
    pub pane: Option<PaneNodeCompact>,
}

/// The pane of an instance in a full listing.
#[derive(Debug, PartialEq, Eq)]
pub struct PaneNodeCompact {
    pub is_plugin: bool,
    pub is_focused: bool,
    pub is_fullscreen: bool,
    pub is_floating: bool,
    pub is_suppressed: bool,
    pub title: String,
    pub exited: bool,
    pub exit_status: Option<i32>,
    pub is_held: bool,
    pub pane_x: usize,
    pub pane_y: usize,
    pub pane_rows: usize,
    pub pane_columns: usize,
    pub terminal_command: Option<String>,
    pub plugin_url: Option<String>,
    pub is_selectable: bool,
}


/// The listed form of a pane.
pub open spec fn compact_of(p: PaneNode) -> PaneNodeCompact {
    PaneNodeCompact {
        is_plugin: p.is_plugin,
        is_focused: p.is_focused,
        is_fullscreen: p.is_fullscreen,
        is_floating: p.is_floating,
        is_suppressed: p.is_suppressed,
        title: p.title,
        exited: p.exited,
        exit_status: p.exit_status,
        is_held: p.is_held,
        pane_x: p.pane_x,
        pane_y: p.pane_y,
        pane_rows: p.pane_rows,
        pane_columns: p.pane_columns,
        terminal_command: p.terminal_command,
        plugin_url: p.plugin_url,
        is_selectable: p.is_selectable,
    }
}

/// The last pane with an ID among these.
pub open spec fn last_with_id(panes: Seq<PaneNode>, id: u32) -> Option<PaneNode>
    decreases panes.len(),
{
    if panes.len() == 0 {
        None
    } else if panes.last().id == id {
        Some(panes.last())
    } else {
        last_with_id(panes.drop_last(), id)
    }
}

/// The pane with an ID on any tab; a later entry wins.
pub open spec fn pane_by_id(m: Seq<(usize, Vec<PaneNode>)>, id: u32) -> Option<PaneNode>
    decreases m.len(),
{
    if m.len() == 0 {
        None
    } else if last_with_id(m.last().1@, id) is Some {
        last_with_id(m.last().1@, id)
    } else {
        pane_by_id(m.drop_last(), id)
    }
}

/// One listed instance: a scratchpad's pane on a tab.
pub open spec fn instance_of(
    k: KeyView,
    pane: u32,
    manifest: Seq<(usize, Vec<PaneNode>)>,
    positions: Seq<(u64, usize)>,
    full: bool,
) -> ScratchpadInstanceInfo {
    let info = pane_by_id(manifest, pane);
    ScratchpadInstanceInfo {
        tab_id: k.1 as u64,
        tab_position: aget(positions, k.1 as u64),
        pane_id: pane,
        visible: match info {
            Some(p) => p.is_floating && !p.is_suppressed && !p.exited && !p.is_held,
            None => false,
        },
        pane: if full { match info { Some(p) => Some(compact_of(p)), None => None } } else { None },
    }
}

/// The instances of a scratchpad, on the asked tab or on all, in record order.
pub open spec fn instances_for(
    s: Seq<(KeyView, u32)>,
    name: Seq<char>,
    tab: Option<u64>,
    manifest: Seq<(usize, Vec<PaneNode>)>,
    positions: Seq<(u64, usize)>,
    full: bool,
) -> Seq<ScratchpadInstanceInfo>
    decreases s.len(),
{
    if s.len() == 0 {
        Seq::empty()
    } else {
        let rest = instances_for(s.drop_last(), name, tab, manifest, positions, full);
        let (k, p) = s.last();
        if k.0 == name && (tab is None || tab == Some(k.1 as u64)) {
            rest.push(instance_of(k, p, manifest, positions, full))
        } else {
            rest
        }
    }
}

/// A listing entry with its texts as character sequences.
pub struct EntryView {
    pub name: Seq<char>,
    pub command: Option<Seq<Seq<char>>>,
    pub orphaned: bool,
    pub instances: Seq<ScratchpadInstanceInfo>,
}

pub open spec fn entry_view(e: ScratchpadListEntry) -> EntryView {
    EntryView {
        name: e.name@,
        command: match e.command { Some(c) => Some(texts_view(c@)), None => None },
        orphaned: e.orphaned,
        instances: e.instances@,
    }
}

pub open spec fn entries_view(v: Seq<ScratchpadListEntry>) -> Seq<EntryView> {
    v.map_values(|e: ScratchpadListEntry| entry_view(e))
}

/// Whether the asked names let a scratchpad through (none asked: all).
pub open spec fn asked(names: Seq<Seq<char>>, name: Seq<char>) -> bool {
    names.len() == 0 || names.contains(name)
}

/// The distinct names of orphaned scratchpads that are not configured, in
/// the order they were orphaned.
pub open spec fn orphan_names(o: Seq<KeyView>, m: ManagerView) -> Seq<Seq<char>>
    decreases o.len(),
{
    if o.len() == 0 {
        Seq::empty()
    } else {
        let rest = orphan_names(o.drop_last(), m);
        let n = o.last().0;
        if !m.configs.contains_key(n) && !rest.contains(n) { rest.push(n) } else { rest }
    }
}

/// Insert an entry after every entry whose name is not greater.
pub open spec fn insert_entry(s: Seq<EntryView>, e: EntryView) -> Seq<EntryView>
    decreases s.len(),
{
    if s.len() == 0 {
        seq![e]
    } else if text_lt(e.name, s.last().name) {
        insert_entry(s.drop_last(), e).push(s.last())
    } else {
        s.push(e)
    }
}

/// The listing before ordering: the asked configured scratchpads, then the
/// asked orphaned ones, each entry going in by name.
pub open spec fn list_entries(
    m: ManagerView,
    names: Seq<Seq<char>>,
    query_names: Seq<Seq<char>>,
    orphaned: bool,
    tab: Option<u64>,
    manifest: Seq<(usize, Vec<PaneNode>)>,
    positions: Seq<(u64, usize)>,
    full: bool,
    acc: Seq<EntryView>,
) -> Seq<EntryView>
    decreases names.len(),
{
    if names.len() == 0 {
        acc
    } else {
        let before = list_entries(m, names.drop_last(), query_names, orphaned, tab, manifest, positions, full, acc);
        let n = names.last();
        if asked(query_names, n) {
            insert_entry(before, EntryView {
                name: n,
                command: if orphaned {
                    None
                } else if m.configs.contains_key(n) {
                    Some(m.configs[n]@.command)
                } else {
                    Some(Seq::empty())
                },
                orphaned,
                instances: instances_for(m.panes, n, tab, manifest, positions, full),
            })
        } else {
            before
        }
    }
}

/// The listing, ordered by name.
pub open spec fn list_spec(
    m: ManagerView,
    query_names: Seq<Seq<char>>,
    tab: Option<u64>,
    manifest: Seq<(usize, Vec<PaneNode>)>,
    positions: Seq<(u64, usize)>,
    full: bool,
) -> Seq<EntryView> {
    let configured = list_entries(m, m.config_names, query_names, false, tab, manifest, positions, full, Seq::empty());
    list_entries(m, orphan_names(m.orphaned, m), query_names, true, tab, manifest, positions, full, configured)
}

proof fn lemma_insert_entry(s: Seq<EntryView>, e: EntryView, k: int)
    requires
        0 <= k <= s.len(),
        forall|j: int| k <= j < s.len() ==> text_lt(e.name, #[trigger] s[j].name),
        k > 0 ==> !text_lt(e.name, s[k - 1].name),
    ensures
        insert_entry(s, e) == s.insert(k, e),
    decreases s.len(),
{
    if s.len() == 0 {
        assert(s.insert(k, e) =~= seq![e]);
    } else if text_lt(e.name, s.last().name) {
        let d = s.drop_last();
        assert forall|j: int| k <= j < d.len() implies text_lt(e.name, #[trigger] d[j].name) by { assert(d[j] == s[j]); }
        if k == s.len() { assert(!text_lt(e.name, s[k - 1].name)); }
        if k > 0 && k < s.len() { assert(d[k - 1] == s[k - 1]); }
        lemma_insert_entry(d, e, k);
        assert(d.insert(k, e).push(s.last()) =~= s.insert(k, e));
    } else {
        if k < s.len() { assert(text_lt(e.name, s[s.len() - 1].name)); }
        assert(s.push(e) =~= s.insert(k, e));
    }
}

fn last_pane_with_id(panes: &Vec<PaneNode>, id: u32) -> (r: Option<usize>)
    ensures
        match r {
            Some(j) => j < panes@.len() && last_with_id(panes@, id) == Some(panes@[j as int]),
            None => last_with_id(panes@, id) is None,
        },
{
    let mut j = panes.len();
    assert(panes@.subrange(0, j as int) =~= panes@);
    while j > 0
        invariant
            j <= panes@.len(),
            last_with_id(panes@, id) == last_with_id(panes@.subrange(0, j as int), id),
        decreases j,
    {
        assert(panes@.subrange(0, j as int).drop_last() =~= panes@.subrange(0, j - 1));
        assert(panes@.subrange(0, j as int).last() == panes@[j - 1]);
        if panes[j - 1].id == id {
            return Some(j - 1);
        }
        j = j - 1;
    }
    None
}

fn find_pane_by_id(m: &Vec<(usize, Vec<PaneNode>)>, id: u32) -> (r: Option<(usize, usize)>)
    ensures
        match r {
            Some((i, j)) => i < m@.len() && j < m@[i as int].1@.len() && pane_by_id(m@, id) == Some(m@[i as int].1@[j as int]),
            None => pane_by_id(m@, id) is None,
        },
{
    let mut i = m.len();
    assert(m@.subrange(0, i as int) =~= m@);
    while i > 0
        invariant
            i <= m@.len(),
            pane_by_id(m@, id) == pane_by_id(m@.subrange(0, i as int), id),
        decreases i,
    {
        assert(m@.subrange(0, i as int).drop_last() =~= m@.subrange(0, i - 1));
        assert(m@.subrange(0, i as int).last() == m@[i - 1]);
        match last_pane_with_id(&m[i - 1].1, id) {
            Some(j) => return Some((i - 1, j)),
            None => {},
        }
        i = i - 1;
    }
    None
}

fn position_of(v: &[(u64, usize)], k: u64) -> (r: Option<usize>)
    ensures
        r == aget(v@, k),
{
    proof { lemma_aindex(v@, k); }
    let mut i: usize = 0;
    while i < v.len()
        invariant
            i <= v@.len(),
            forall|j: int| 0 <= j < i ==> #[trigger] v@[j].0 != k,
            match aindex(v@, k) {
                Some(x) => 0 <= x < v@.len() && v@[x].0 == k && forall|j: int| 0 <= j < x ==> #[trigger] v@[j].0 != k,
                None => forall|j: int| 0 <= j < v@.len() ==> #[trigger] v@[j].0 != k,
            },
        decreases v.len() - i,
    {
        if v[i].0 == k {
            proof {
                match aindex(v@, k) {
                    Some(x) => {
                        if x < i { assert(v@[x].0 != k); }
                        if x > i { assert(v@[i as int].0 != k); }
                    },
                    None => { assert(v@[i as int].0 != k); },
                }
            }
            return Some(v[i].1);
        }
        i = i + 1;
    }
    None
}

fn copy_text(o: &Option<String>) -> (r: Option<String>)
    ensures
        r == *o,
{
    match o {
        Some(s) => Some(s.clone()),
        None => None,
    }
}

fn compact(p: &PaneNode) -> (r: PaneNodeCompact)
    ensures
        r == compact_of(*p),
{
    PaneNodeCompact {
        is_plugin: p.is_plugin,
        is_focused: p.is_focused,
        is_fullscreen: p.is_fullscreen,
        is_floating: p.is_floating,
        is_suppressed: p.is_suppressed,
        title: p.title.clone(),
        exited: p.exited,
        exit_status: p.exit_status,
        is_held: p.is_held,
        pane_x: p.pane_x,
        pane_y: p.pane_y,
        pane_rows: p.pane_rows,
        pane_columns: p.pane_columns,
        terminal_command: copy_text(&p.terminal_command),
        plugin_url: copy_text(&p.plugin_url),
        is_selectable: p.is_selectable,
    }
}

fn asked_name(names: &Vec<String>, name: &str) -> (b: bool)
    ensures
        b == asked(texts_view(names@), name@),
{
    if names.len() == 0 {
        return true;
    }
    let mut i: usize = 0;
    while i < names.len()
        invariant
            i <= names@.len(),
            names@.len() > 0,
            forall|j: int| 0 <= j < i ==> #[trigger] texts_view(names@)[j] != name@,
        decreases names.len() - i,
    {
        if str_equals(names[i].as_str(), name) {
            assert(texts_view(names@)[i as int] == name@);
            return true;
        }
        i = i + 1;
    }
    false
}

fn insert_listed(entries: &mut Vec<ScratchpadListEntry>, e: ScratchpadListEntry)
    ensures
        entries_view(final(entries)@) == insert_entry(entries_view(old(entries)@), entry_view(e)),
{
    let ghost s = entries_view(entries@);
    let mut k = entries.len();
    while k > 0 && name_less(e.name.as_str(), entries[k - 1].name.as_str())
        invariant
            k <= entries@.len(),
            s == entries_view(entries@),
            forall|j: int| k <= j < s.len() ==> text_lt(e.name@, #[trigger] s[j].name),
        decreases k,
    {
        assert(s[k - 1].name == entries@[k - 1].name@);
        k = k - 1;
    }
    proof {
        if k > 0 { assert(s[k - 1].name == entries@[k - 1].name@); }
        lemma_insert_entry(s, entry_view(e), k as int);
    }
    let ghost ev = entry_view(e);
    entries.insert(k, e);
    assert(entries_view(entries@) =~= s.insert(k as int, ev));
}

impl ScratchpadManager {
    fn instances_of_name(
        &self,
        name: &str,
        tab: Option<u64>,
        full: bool,
        manifest: &Vec<(usize, Vec<PaneNode>)>,
        positions: &[(u64, usize)],
    ) -> (r: Vec<ScratchpadInstanceInfo>)
        ensures
            r@ == instances_for(self@.panes, name@, tab, manifest@, positions@, full),
    {
        proof { lemma_manager_view(self); }
        let ghost ps = self@.panes;
        let mut r: Vec<ScratchpadInstanceInfo> = Vec::new();
        let mut i: usize = 0;
        while i < self.panes.len()
            invariant
                i <= self.panes@.len(),
                ps == keyed_view(self.panes@),
                r@ == instances_for(ps.subrange(0, i as int), name@, tab, manifest@, positions@, full),
            decreases self.panes.len() - i,
        {
            assert(ps.subrange(0, i + 1).drop_last() =~= ps.subrange(0, i as int));
            assert(ps.subrange(0, i + 1).last() == ps[i as int]);
            assert(ps[i as int] == ((self.panes@[i as int].0.0@, self.panes@[i as int].0.1), self.panes@[i as int].1));
            let t = self.panes[i].0.1;
            let pane = self.panes[i].1;
            let tab_ok = match tab {
                None => true,
                Some(x) => x == t as u64,
            };
            if str_equals(self.panes[i].0.0.as_str(), name) && tab_ok {
                let info = find_pane_by_id(manifest, pane);
                let visible = match info {
                    Some((a, b)) => {
                        let p = &manifest[a].1[b];
                        p.is_floating && !p.is_suppressed && !p.exited && !p.is_held
                    },
                    None => false,
                };
                let listed = if full {
                    match info {
                        Some((a, b)) => Some(compact(&manifest[a].1[b])),
                        None => None,
                    }
                } else {
                    None
                };
                r.push(ScratchpadInstanceInfo {
                    tab_id: t as u64,
                    tab_position: position_of(positions, t as u64),
                    pane_id: pane,
                    visible,
                    pane: listed,
                });
            }
            i = i + 1;
        }
        assert(ps.subrange(0, ps.len() as int) =~= ps);
        r
    }

    /// The scratchpads asked for (all when no name is given), configured ones
    /// with their command and orphaned ones without, each with its panes on
    /// the asked tab (or all tabs), ordered by name. `tab_positions` maps
    /// tab IDs to positions.
    pub fn list(
        &self,
        query: &ScratchpadListQuery,
        pane_manifest: &Vec<(usize, Vec<PaneNode>)>,
        tab_positions: &[(u64, usize)],
    ) -> (r: Vec<ScratchpadListEntry>)
        ensures
            entries_view(r@) == list_spec(self@, texts_view(query.names@), query.tab_id, pane_manifest@, tab_positions@, query.full),
    {
        proof {
            lemma_manager_view(self);
            lemma_name_list(&self.configs);
        }
        let ghost qn = texts_view(query.names@);
        let mut entries: Vec<ScratchpadListEntry> = Vec::new();
        assert(entries_view(entries@) =~= Seq::<EntryView>::empty());
        let mut i: usize = 0;
        while i < self.configs.names.len()
            invariant
                i <= self@.config_names.len(),
                self@.config_names == texts_view(self.configs.names@),
                self@.configs == self.configs@,
                qn == texts_view(query.names@),
                entries_view(entries@) == list_entries(self@, self@.config_names.subrange(0, i as int), qn, false,
                    query.tab_id, pane_manifest@, tab_positions@, query.full, Seq::empty()),
            decreases self.configs.names.len() - i,
        {
            let ghost cn = self@.config_names;
            assert(cn.subrange(0, i + 1).drop_last() =~= cn.subrange(0, i as int));
            assert(cn.subrange(0, i + 1).last() == self.configs.names@[i as int]@);
            let name = self.configs.names[i].as_str();
            if asked_name(&query.names, name) {
                let command = match self.configs.get(name) {
                    Some(cfg) => {
                        let c = copy_strings(&cfg.command);
                        assert(texts_view(cfg.command@) =~= cfg@.command);
                        c
                    },
                    None => {
                        let c: Vec<String> = Vec::new();
                        assert(texts_view(c@) =~= Seq::<Seq<char>>::empty());
                        c
                    },
                };
                let instances = self.instances_of_name(name, query.tab_id, query.full, pane_manifest, tab_positions);
                let e = ScratchpadListEntry { name: crate::text::to_string(name), command: Some(command), orphaned: false, instances };
                insert_listed(&mut entries, e);
            }
            i = i + 1;
        }
        assert(self@.config_names.subrange(0, self@.config_names.len() as int) =~= self@.config_names);
        let ghost configured = entries_view(entries@);
        let orphans = self.orphan_name_list();
        let ghost on = texts_view(orphans@);
        let mut i: usize = 0;
        assert(on.subrange(0, 0) =~= Seq::<Seq<char>>::empty());
        while i < orphans.len()
            invariant
                i <= orphans@.len(),
                on == texts_view(orphans@),
                on == orphan_names(self@.orphaned, self@),
                self@.configs == self.configs@,
                qn == texts_view(query.names@),
                entries_view(entries@) == list_entries(self@, on.subrange(0, i as int), qn, true,
                    query.tab_id, pane_manifest@, tab_positions@, query.full, configured),
            decreases orphans.len() - i,
        {
            assert(on.subrange(0, i + 1).drop_last() =~= on.subrange(0, i as int));
            assert(on.subrange(0, i + 1).last() == orphans@[i as int]@);
            let name = orphans[i].as_str();
            if asked_name(&query.names, name) {
                let instances = self.instances_of_name(name, query.tab_id, query.full, pane_manifest, tab_positions);
                let e = ScratchpadListEntry { name: crate::text::to_string(name), command: None, orphaned: true, instances };
                insert_listed(&mut entries, e);
            }
            i = i + 1;
        }
        assert(on.subrange(0, on.len() as int) =~= on);
        entries
    }

    fn orphan_name_list(&self) -> (r: Vec<String>)
        ensures
            texts_view(r@) == orphan_names(self@.orphaned, self@),
    {
        proof { lemma_manager_view(self); }
        let ghost o = self@.orphaned;
        let mut r: Vec<String> = Vec::new();
        let mut i: usize = 0;
        assert(texts_view(r@) =~= orphan_names(o.subrange(0, 0), self@));
        while i < self.orphaned.len()
            invariant
                i <= self.orphaned@.len(),
                o == self@.orphaned,
                o == crate::scratchpad::manager::names_view(self.orphaned@),
                self@.configs == self.configs@,
                texts_view(r@) == orphan_names(o.subrange(0, i as int), self@),
            decreases self.orphaned.len() - i,
        {
            assert(o.subrange(0, i + 1).drop_last() =~= o.subrange(0, i as int));
            assert(o.subrange(0, i + 1).last() == (self.orphaned@[i as int].0@, self.orphaned@[i as int].1));
            let name = self.orphaned[i].0.as_str();
            if !self.configs.contains_key(name) && !contains_name(&r, name) {
                let ghost before = texts_view(r@);
                r.push(self.orphaned[i].0.clone());
                assert(texts_view(r@) =~= before.push(name@));
            }
            i = i + 1;
        }
        assert(o.subrange(0, o.len() as int) =~= o);
        r
    }
}

fn contains_name(v: &Vec<String>, name: &str) -> (b: bool)
    ensures
        b == texts_view(v@).contains(name@),
{
    let mut i: usize = 0;
    while i < v.len()
        invariant
            i <= v@.len(),
            forall|j: int| 0 <= j < i ==> #[trigger] texts_view(v@)[j] != name@,
        decreases v.len() - i,
    {
        if str_equals(v[i].as_str(), name) {
            assert(texts_view(v@)[i as int] == name@);
            return true;
        }
        i = i + 1;
    }
    false
}

fn copy_strings(v: &Vec<String>) -> (r: Vec<String>)
    ensures
        texts_view(r@) == texts_view(v@),
{
    let mut r: Vec<String> = Vec::new();
    let mut i: usize = 0;
    while i < v.len()
        invariant
            i <= v@.len(),
            texts_view(r@) == texts_view(v@).subrange(0, i as int),
        decreases v.len() - i,
    {
        let ghost before = texts_view(r@);
        let x = v[i].clone();
        r.push(x);
        assert(texts_view(r@) =~= before.push(v@[i as int]@));
        assert(texts_view(v@).subrange(0, i + 1) =~= texts_view(v@).subrange(0, i as int).push(v@[i as int]@));
        i = i + 1;
    }
    assert(texts_view(v@).subrange(0, v@.len() as int) =~= texts_view(v@));
    r
}

/// A listed pane carries every field of the manifest pane it stands for.
pub open spec fn carries_pane(c: PaneNodeCompact, p: PaneNode) -> bool {
    &&& c.is_plugin == p.is_plugin
    &&& c.is_focused == p.is_focused
    &&& c.is_fullscreen == p.is_fullscreen
    &&& c.is_floating == p.is_floating
    &&& c.is_suppressed == p.is_suppressed
    &&& c.title == p.title
    &&& c.exited == p.exited
    &&& c.exit_status == p.exit_status
    &&& c.is_held == p.is_held
    &&& c.pane_x == p.pane_x
    &&& c.pane_y == p.pane_y
    &&& c.pane_rows == p.pane_rows
    &&& c.pane_columns == p.pane_columns
    &&& c.terminal_command == p.terminal_command
    &&& c.plugin_url == p.plugin_url
    &&& c.is_selectable == p.is_selectable
}

/// Some entry of a listing has this name.
pub open spec fn lists_name(s: Seq<EntryView>, n: Seq<char>) -> bool {
    exists|i: int| 0 <= i < s.len() && #[trigger] s[i].name == n
}

proof fn lemma_insert_entry_contains(s: Seq<EntryView>, e: EntryView)
    ensures
        forall|x: EntryView| #[trigger] insert_entry(s, e).contains(x) <==> s.contains(x) || x == e,
    decreases s.len(),
{
    let r = insert_entry(s, e);
    if s.len() == 0 {
        assert(r =~= seq![e]);
        assert forall|x: EntryView| #[trigger] r.contains(x) <==> s.contains(x) || x == e by {
            if r.contains(x) { let j = choose|j: int| 0 <= j < r.len() && r[j] == x; }
            if x == e { assert(r[0] == e); }
        }
    } else if text_lt(e.name, s.last().name) {
        let d = s.drop_last();
        lemma_insert_entry_contains(d, e);
        let q = insert_entry(d, e);
        assert(r == q.push(s.last()));
        assert forall|x: EntryView| #[trigger] r.contains(x) <==> s.contains(x) || x == e by {
            if r.contains(x) {
                let j = choose|j: int| 0 <= j < r.len() && r[j] == x;
                if j < q.len() { assert(q[j] == x); assert(q.contains(x)); if d.contains(x) { let k = choose|k: int| 0 <= k < d.len() && d[k] == x; assert(s[k] == x); } }
                else { assert(s[s.len() - 1] == x); }
            }
            if s.contains(x) {
                let k = choose|k: int| 0 <= k < s.len() && s[k] == x;
                if k < d.len() { assert(d[k] == x); assert(d.contains(x)); assert(q.contains(x)); let j = choose|j: int| 0 <= j < q.len() && q[j] == x; assert(r[j] == x); }
                else { assert(r[r.len() - 1] == x); }
            }
            if x == e { assert(q.contains(e)); let j = choose|j: int| 0 <= j < q.len() && q[j] == e; assert(r[j] == e); }
        }
    } else {
        assert(r == s.push(e));
        assert forall|x: EntryView| #[trigger] r.contains(x) <==> s.contains(x) || x == e by {
            if r.contains(x) { let j = choose|j: int| 0 <= j < r.len() && r[j] == x; if j < s.len() { assert(s[j] == x); } }
            if s.contains(x) { let k = choose|k: int| 0 <= k < s.len() && s[k] == x; assert(r[k] == x); }
            if x == e { assert(r[r.len() - 1] == e); }
        }
    }
}

/// What a run of entries adds to a listing: every earlier entry stays; each
/// asked name gets an entry; every new entry is of an asked name among
/// these and lists that scratchpad's instances.
proof fn lemma_list_entries(
    m: ManagerView,
    names: Seq<Seq<char>>,
    qn: Seq<Seq<char>>,
    orphaned: bool,
    tab: Option<u64>,
    manifest: Seq<(usize, Vec<PaneNode>)>,
    positions: Seq<(u64, usize)>,
    full: bool,
    acc: Seq<EntryView>,
)
    ensures ({
        let r = list_entries(m, names, qn, orphaned, tab, manifest, positions, full, acc);
        &&& forall|x: EntryView| acc.contains(x) ==> #[trigger] r.contains(x)
        &&& forall|j: int| 0 <= j < names.len() && (qn.len() == 0 || qn.contains(#[trigger] names[j])) ==> lists_name(r, names[j])
        &&& forall|x: EntryView| #[trigger] r.contains(x) ==> acc.contains(x) || ({
            &&& names.contains(x.name)
            &&& (qn.len() == 0 || qn.contains(x.name))
            &&& x.instances == instances_for(m.panes, x.name, tab, manifest, positions, full)
        })
    }),
    decreases names.len(),
{
    let r = list_entries(m, names, qn, orphaned, tab, manifest, positions, full, acc);
    if names.len() > 0 {
        let d = names.drop_last();
        lemma_list_entries(m, d, qn, orphaned, tab, manifest, positions, full, acc);
        let before = list_entries(m, d, qn, orphaned, tab, manifest, positions, full, acc);
        let n = names.last();
        assert(names[names.len() - 1] == n);
        assert forall|x: Seq<char>| d.contains(x) implies names.contains(x) by {
            let j = choose|j: int| 0 <= j < d.len() && d[j] == x;
            assert(names[j] == x);
        }
        if asked(qn, n) {
            let e = EntryView {
                name: n,
                command: if orphaned {
                    None
                } else if m.configs.contains_key(n) {
                    Some(m.configs[n]@.command)
                } else {
                    Some(Seq::empty())
                },
                orphaned,
                instances: instances_for(m.panes, n, tab, manifest, positions, full),
            };
            assert(r == insert_entry(before, e));
            lemma_insert_entry_contains(before, e);
            assert forall|j: int| 0 <= j < names.len() && (qn.len() == 0 || qn.contains(#[trigger] names[j])) implies lists_name(r, names[j]) by {
                if j < d.len() {
                    assert(names[j] == d[j]);
                    assert(lists_name(before, d[j]));
                    let i = choose|i: int| 0 <= i < before.len() && #[trigger] before[i].name == d[j];
                    assert(before.contains(before[i]));
                    assert(r.contains(before[i]));
                    let i2 = choose|i2: int| 0 <= i2 < r.len() && r[i2] == before[i];
                    assert(r[i2].name == names[j]);
                } else {
                    assert(r.contains(e));
                    let i2 = choose|i2: int| 0 <= i2 < r.len() && r[i2] == e;
                    assert(r[i2].name == names[j]);
                }
            }
        } else {
            assert(r == before);
            assert forall|j: int| 0 <= j < names.len() && (qn.len() == 0 || qn.contains(#[trigger] names[j])) implies lists_name(r, names[j]) by {
                if j < d.len() { assert(names[j] == d[j]); }
            }
        }
    }
}

/// Every listed instance is a recorded pane of that scratchpad.
proof fn lemma_instances_for(
    s: Seq<(KeyView, u32)>,
    name: Seq<char>,
    tab: Option<u64>,
    manifest: Seq<(usize, Vec<PaneNode>)>,
    positions: Seq<(u64, usize)>,
    full: bool,
)
    ensures
        forall|i: int| 0 <= i < instances_for(s, name, tab, manifest, positions, full).len() ==> exists|j: int|
            0 <= j < s.len() && s[j].0.0 == name && (tab is None || tab == Some(s[j].0.1 as u64))
                && #[trigger] instances_for(s, name, tab, manifest, positions, full)[i] == instance_of(s[j].0, s[j].1, manifest, positions, full),
    decreases s.len(),
{
    if s.len() > 0 {
        let d = s.drop_last();
        lemma_instances_for(d, name, tab, manifest, positions, full);
        let rest = instances_for(d, name, tab, manifest, positions, full);
        let r = instances_for(s, name, tab, manifest, positions, full);
        assert forall|i: int| 0 <= i < r.len() implies exists|j: int|
            0 <= j < s.len() && s[j].0.0 == name && (tab is None || tab == Some(s[j].0.1 as u64))
                && #[trigger] r[i] == instance_of(s[j].0, s[j].1, manifest, positions, full) by {
            if i < rest.len() {
                assert(r[i] == rest[i]);
                let j = choose|j: int| 0 <= j < d.len() && d[j].0.0 == name && (tab is None || tab == Some(d[j].0.1 as u64))
                    && #[trigger] rest[i] == instance_of(d[j].0, d[j].1, manifest, positions, full);
                assert(s[j] == d[j]);
            } else {
                assert(s[s.len() - 1] == s.last());
            }
        }
    }
}

proof fn lemma_last_with_id(panes: Seq<PaneNode>, id: u32)
    ensures
        match last_with_id(panes, id) {
            Some(p) => p.id == id && exists|b: int| 0 <= b < panes.len() && #[trigger] panes[b] == p,
            None => true,
        },
    decreases panes.len(),
{
    if panes.len() > 0 {
        lemma_last_with_id(panes.drop_last(), id);
        if panes.last().id == id {
            assert(panes[panes.len() - 1] == panes.last());
        } else {
            match last_with_id(panes.drop_last(), id) {
                Some(p) => {
                    let b = choose|b: int| 0 <= b < panes.drop_last().len() && #[trigger] panes.drop_last()[b] == p;
                    assert(panes[b] == p);
                },
                None => {},
            }
        }
    }
}

/// The pane found for an ID is a manifest pane with that ID.
proof fn lemma_pane_by_id(m: Seq<(usize, Vec<PaneNode>)>, id: u32)
    ensures
        match pane_by_id(m, id) {
            Some(p) => p.id == id && exists|a: int, b: int| 0 <= a < m.len() && 0 <= b < m[a].1@.len() && #[trigger] m[a].1@[b] == p,
            None => true,
        },
    decreases m.len(),
{
    if m.len() > 0 {
        lemma_pane_by_id(m.drop_last(), id);
        lemma_last_with_id(m.last().1@, id);
        let a0 = m.len() - 1;
        assert(m[a0] == m.last());
        if last_with_id(m.last().1@, id) is Some {
            let p = last_with_id(m.last().1@, id)->Some_0;
            let b = choose|b: int| 0 <= b < m.last().1@.len() && #[trigger] m.last().1@[b] == p;
            assert(m[a0].1@[b] == p);
        } else {
            match pane_by_id(m.drop_last(), id) {
                Some(p) => {
                    let d = m.drop_last();
                    let (a, b) = choose|a: int, b: int| 0 <= a < d.len() && 0 <= b < d[a].1@.len() && #[trigger] d[a].1@[b] == p;
                    assert(m[a] == d[a]);
                    assert(m[a].1@[b] == p);
                },
                None => {},
            }
        }
    }
}

/// A listing shows exactly the asked scratchpads: every configured
/// scratchpad whose name is asked (or every one, when no name is asked) has
/// an entry, and every entry is of an asked name that is configured or left
/// orphaned panes.
pub proof fn law_list_shows_asked_scratchpads(
    m: ManagerView,
    query_names: Seq<Seq<char>>,
    tab: Option<u64>,
    manifest: Seq<(usize, Vec<PaneNode>)>,
    positions: Seq<(u64, usize)>,
    full: bool,
)
    ensures ({
        let r = list_spec(m, query_names, tab, manifest, positions, full);
        &&& forall|n: Seq<char>| #[trigger] m.config_names.contains(n) && (query_names.len() == 0 || query_names.contains(n))
            ==> lists_name(r, n)
        &&& forall|i: int| 0 <= i < r.len() ==> (query_names.len() == 0 || query_names.contains(#[trigger] r[i].name))
            && (m.config_names.contains(r[i].name) || orphan_names(m.orphaned, m).contains(r[i].name))
    }),
{
    let configured = list_entries(m, m.config_names, query_names, false, tab, manifest, positions, full, Seq::empty());
    let on = orphan_names(m.orphaned, m);
    lemma_list_entries(m, m.config_names, query_names, false, tab, manifest, positions, full, Seq::empty());
    lemma_list_entries(m, on, query_names, true, tab, manifest, positions, full, configured);
    let r = list_spec(m, query_names, tab, manifest, positions, full);
    assert forall|n: Seq<char>| #[trigger] m.config_names.contains(n) && (query_names.len() == 0 || query_names.contains(n))
        implies lists_name(r, n) by {
        let j = choose|j: int| 0 <= j < m.config_names.len() && m.config_names[j] == n;
        assert(lists_name(configured, m.config_names[j]));
        let i = choose|i: int| 0 <= i < configured.len() && #[trigger] configured[i].name == n;
        assert(configured.contains(configured[i]));
        assert(r.contains(configured[i]));
        let i2 = choose|i2: int| 0 <= i2 < r.len() && r[i2] == configured[i];
        assert(r[i2].name == n);
    }
    assert forall|i: int| 0 <= i < r.len() implies (query_names.len() == 0 || query_names.contains(#[trigger] r[i].name))
        && (m.config_names.contains(r[i].name) || on.contains(r[i].name)) by {
        assert(r.contains(r[i]));
        if configured.contains(r[i]) {
            assert(!Seq::<EntryView>::empty().contains(r[i]));
        }
    }
}

/// In a listing each instance is a recorded pane of its scratchpad, on the
/// asked tab; in a full listing it carries every field of the manifest pane
/// with its ID (none when the manifest has no such pane), and otherwise it
/// carries no pane.
pub proof fn law_listed_instances_carry_their_panes(
    m: ManagerView,
    query_names: Seq<Seq<char>>,
    tab: Option<u64>,
    manifest: Seq<(usize, Vec<PaneNode>)>,
    positions: Seq<(u64, usize)>,
    full: bool,
)
    ensures ({
        let r = list_spec(m, query_names, tab, manifest, positions, full);
        forall|i: int, k: int| 0 <= i < r.len() && 0 <= k < r[i].instances.len() ==> {
            let x = #[trigger] r[i].instances[k];
            &&& m.panes.contains(((r[i].name, x.tab_id as usize), x.pane_id))
            &&& (tab is None || tab == Some(x.tab_id))
            &&& match x.pane {
                Some(c) => full && exists|a: int, b: int| 0 <= a < manifest.len() && 0 <= b < manifest[a].1@.len()
                    && #[trigger] manifest[a].1@[b].id == x.pane_id && carries_pane(c, manifest[a].1@[b]),
                None => !full || pane_by_id(manifest, x.pane_id) is None,
            }
            &&& (x.visible ==> exists|a: int, b: int| 0 <= a < manifest.len() && 0 <= b < manifest[a].1@.len()
                && #[trigger] manifest[a].1@[b].id == x.pane_id && manifest[a].1@[b].is_floating
                && !manifest[a].1@[b].is_suppressed && !manifest[a].1@[b].exited && !manifest[a].1@[b].is_held)
            &&& (x.pane matches Some(c) ==> x.visible == (c.is_floating && !c.is_suppressed && !c.exited && !c.is_held))
            &&& x.tab_position == aget(positions, x.tab_id)
        }
    }),
{
    let configured = list_entries(m, m.config_names, query_names, false, tab, manifest, positions, full, Seq::empty());
    let on = orphan_names(m.orphaned, m);
    lemma_list_entries(m, m.config_names, query_names, false, tab, manifest, positions, full, Seq::empty());
    lemma_list_entries(m, on, query_names, true, tab, manifest, positions, full, configured);
    let r = list_spec(m, query_names, tab, manifest, positions, full);
    assert forall|i: int, k: int| 0 <= i < r.len() && 0 <= k < r[i].instances.len() implies {
        let x = #[trigger] r[i].instances[k];
        &&& m.panes.contains(((r[i].name, x.tab_id as usize), x.pane_id))
        &&& (tab is None || tab == Some(x.tab_id))
        &&& match x.pane {
            Some(c) => full && exists|a: int, b: int| 0 <= a < manifest.len() && 0 <= b < manifest[a].1@.len()
                && #[trigger] manifest[a].1@[b].id == x.pane_id && carries_pane(c, manifest[a].1@[b]),
            None => !full || pane_by_id(manifest, x.pane_id) is None,
        }
        &&& (x.visible ==> exists|a: int, b: int| 0 <= a < manifest.len() && 0 <= b < manifest[a].1@.len()
            && #[trigger] manifest[a].1@[b].id == x.pane_id && manifest[a].1@[b].is_floating
            && !manifest[a].1@[b].is_suppressed && !manifest[a].1@[b].exited && !manifest[a].1@[b].is_held)
        &&& (x.pane matches Some(c) ==> x.visible == (c.is_floating && !c.is_suppressed && !c.exited && !c.is_held))
        &&& x.tab_position == aget(positions, x.tab_id)
    } by {
        let e = r[i];
        assert(r.contains(e));
        if configured.contains(e) {
            assert(!Seq::<EntryView>::empty().contains(e));
        }
        assert(e.instances == instances_for(m.panes, e.name, tab, manifest, positions, full));
        lemma_instances_for(m.panes, e.name, tab, manifest, positions, full);
        let x = e.instances[k];
        let j = choose|j: int| 0 <= j < m.panes.len() && m.panes[j].0.0 == e.name && (tab is None || tab == Some(m.panes[j].0.1 as u64))
            && #[trigger] instances_for(m.panes, e.name, tab, manifest, positions, full)[k] == instance_of(m.panes[j].0, m.panes[j].1, manifest, positions, full);
        let pj = m.panes[j];
        assert(x == instance_of(pj.0, pj.1, manifest, positions, full));
        assert(x.tab_id as usize == pj.0.1);
        assert(pj == ((e.name, x.tab_id as usize), x.pane_id));
        assert(m.panes.contains(((e.name, x.tab_id as usize), x.pane_id)));
        lemma_pane_by_id(manifest, x.pane_id);
        if pane_by_id(manifest, x.pane_id) is Some {
            let q = pane_by_id(manifest, x.pane_id)->Some_0;
            let (a, b) = choose|a: int, b: int| 0 <= a < manifest.len() && 0 <= b < manifest[a].1@.len() && #[trigger] manifest[a].1@[b] == q;
            assert(manifest[a].1@[b].id == x.pane_id);
        }
        match x.pane {
            Some(c) => {
                let q = pane_by_id(manifest, x.pane_id)->Some_0;
                assert(c == compact_of(q));
                let (a, b) = choose|a: int, b: int| 0 <= a < manifest.len() && 0 <= b < manifest[a].1@.len() && #[trigger] manifest[a].1@[b] == q;
                assert(manifest[a].1@[b].id == x.pane_id && carries_pane(c, manifest[a].1@[b]));
            },
            None => {},
        }
    }
}

proof fn lemma_text_lt_asym(a: Seq<char>, b: Seq<char>)
    ensures
        text_lt(a, b) ==> !text_lt(b, a),
    decreases a.len(),
{
    if a.len() > 0 && b.len() > 0 && a[0] == b[0] {
        lemma_text_lt_asym(a.subrange(1, a.len() as int), b.subrange(1, b.len() as int));
    }
}

/// Name order is a total preorder: one name before another puts any third
/// name after the first or before the second.
proof fn lemma_text_lt_split(a: Seq<char>, b: Seq<char>, c: Seq<char>)
    ensures
        text_lt(a, c) ==> text_lt(a, b) || text_lt(b, c),
    decreases a.len(),
{
    if a.len() > 0 && b.len() > 0 && c.len() > 0 {
        let (x, y, z) = (a[0] as u32, b[0] as u32, c[0] as u32);
        vstd::utf8::char_u32_cast(a[0], x);
        vstd::utf8::char_u32_cast(b[0], y);
        vstd::utf8::char_u32_cast(c[0], z);
        if a[0] == b[0] && a[0] == c[0] {
            lemma_text_lt_split(a.subrange(1, a.len() as int), b.subrange(1, b.len() as int), c.subrange(1, c.len() as int));
        }
    }
}

/// Entries go by name: no entry's name comes before an earlier entry's.
pub open spec fn sorted_by_name(s: Seq<EntryView>) -> bool {
    forall|i: int, j: int| 0 <= i < j < s.len() ==> !text_lt(#[trigger] s[j].name, #[trigger] s[i].name)
}

proof fn lemma_insert_entry_sorted(s: Seq<EntryView>, e: EntryView)
    requires
        sorted_by_name(s),
    ensures
        sorted_by_name(insert_entry(s, e)),
    decreases s.len(),
{
    let r = insert_entry(s, e);
    if s.len() == 0 {
        assert(r =~= seq![e]);
    } else if text_lt(e.name, s.last().name) {
        let d = s.drop_last();
        let last = s[s.len() - 1];
        assert(last == s.last());
        assert forall|i: int, j: int| 0 <= i < j < d.len() implies !text_lt(#[trigger] d[j].name, #[trigger] d[i].name) by {
            assert(d[i] == s[i] && d[j] == s[j]);
        }
        lemma_insert_entry_sorted(d, e);
        lemma_insert_entry_contains(d, e);
        let q = insert_entry(d, e);
        assert(r == q.push(last));
        lemma_text_lt_asym(e.name, last.name);
        assert forall|i: int, j: int| 0 <= i < j < r.len() implies !text_lt(#[trigger] r[j].name, #[trigger] r[i].name) by {
            if j < q.len() {
                assert(r[i] == q[i] && r[j] == q[j]);
            } else {
                assert(r[i] == q[i]);
                assert(q.contains(q[i]));
                if q[i] != e {
                    assert(d.contains(q[i]));
                    let k = choose|k: int| 0 <= k < d.len() && d[k] == q[i];
                    assert(s[k] == d[k]);
                    assert(!text_lt(s[s.len() - 1].name, s[k].name));
                }
            }
        }
    } else {
        let last = s[s.len() - 1];
        assert(last == s.last());
        assert(r == s.push(e));
        assert forall|i: int, j: int| 0 <= i < j < r.len() implies !text_lt(#[trigger] r[j].name, #[trigger] r[i].name) by {
            if j < s.len() {
                assert(r[i] == s[i] && r[j] == s[j]);
            } else {
                assert(r[i] == s[i]);
                lemma_text_lt_split(e.name, last.name, s[i].name);
                if i < s.len() - 1 {
                    assert(!text_lt(s[s.len() - 1].name, s[i].name));
                }
            }
        }
    }
}

proof fn lemma_list_entries_sorted(
    m: ManagerView,
    names: Seq<Seq<char>>,
    qn: Seq<Seq<char>>,
    orphaned: bool,
    tab: Option<u64>,
    manifest: Seq<(usize, Vec<PaneNode>)>,
    positions: Seq<(u64, usize)>,
    full: bool,
    acc: Seq<EntryView>,
)
    requires
        sorted_by_name(acc),
    ensures
        sorted_by_name(list_entries(m, names, qn, orphaned, tab, manifest, positions, full, acc)),
    decreases names.len(),
{
    if names.len() > 0 {
        lemma_list_entries_sorted(m, names.drop_last(), qn, orphaned, tab, manifest, positions, full, acc);
        let before = list_entries(m, names.drop_last(), qn, orphaned, tab, manifest, positions, full, acc);
        let n = names.last();
        if asked(qn, n) {
            lemma_insert_entry_sorted(before, EntryView {
                name: n,
                command: if orphaned {
                    None
                } else if m.configs.contains_key(n) {
                    Some(m.configs[n]@.command)
                } else {
                    Some(Seq::empty())
                },
                orphaned,
                instances: instances_for(m.panes, n, tab, manifest, positions, full),
            });
        }
    }
}

/// A listing is ordered by name.
pub proof fn law_list_is_ordered_by_name(
    m: ManagerView,
    query_names: Seq<Seq<char>>,
    tab: Option<u64>,
    manifest: Seq<(usize, Vec<PaneNode>)>,
    positions: Seq<(u64, usize)>,
    full: bool,
)
    ensures
        sorted_by_name(list_spec(m, query_names, tab, manifest, positions, full)),
{
    lemma_list_entries_sorted(m, m.config_names, query_names, false, tab, manifest, positions, full, Seq::empty());
    let configured = list_entries(m, m.config_names, query_names, false, tab, manifest, positions, full, Seq::empty());
    lemma_list_entries_sorted(m, orphan_names(m.orphaned, m), query_names, true, tab, manifest, positions, full, configured);
}

} // verus!
