//! One ephemeral, validated status per live pane, and the per-tab snapshot
//! that status outputs render from. No state is persisted.

use vstd::prelude::*;
use crate::events::{pane_type_of, typed_of, PaneInfo, PaneType, TypedPaneId};
use crate::pane_status::{escape_chars, escape_seq, render_status, render_status_spec};
use crate::text::{all_ascii_digits, chars_of, parse_unsigned, parse_unsigned_chars, slice_chars, str_equals, string_of};

verus! {

/// A live pane's status, ready to render.
#[derive(Clone, Debug)]
pub struct PaneStatusItem {
    pub pane_id: TypedPaneId,
    /// The pane title, sanitized as plain text.
    pub title: String,
    pub status: String,
    pub is_focused: bool,
}

/// The statuses of each tab, by native tab ID (tabs without statuses
/// included), and the active tab.
#[derive(Clone, Debug, Default)]
pub struct PaneStatusSnapshot {
    pub current_tab_id: Option<usize>,
    /// One entry per tab ID.
    pub tabs: Vec<(usize, Vec<PaneStatusItem>)>,
}

/// What a snapshot needs of a tab.
#[derive(Clone, Copy, Debug)]
pub struct TabRef {
    pub tab_id: usize,
    pub position: usize,
    pub active: bool,
}

/// The status text of each pane that has one.
#[derive(Debug, Default)]
pub struct PaneStatuses {
    statuses: Vec<(TypedPaneId, String)>,
}

pub open spec fn status_table(v: Seq<(TypedPaneId, String)>) -> Seq<(TypedPaneId, Seq<char>)> {
    v.map_values(|e: (TypedPaneId, String)| (e.0, e.1@))
}

impl View for PaneStatuses {
    type V = Seq<(TypedPaneId, Seq<char>)>;

    closed spec fn view(&self) -> Seq<(TypedPaneId, Seq<char>)> {
        status_table(self.statuses@)
    }
}

/// The status of a pane.
pub open spec fn status_of(s: Seq<(TypedPaneId, Seq<char>)>, id: TypedPaneId) -> Option<Seq<char>>
    decreases s.len(),
{
    if s.len() == 0 {
        None
    } else if s[0].0 == id {
        Some(s[0].1)
    } else {
        status_of(s.subrange(1, s.len() as int), id)
    }
}

/// The table without the pane's entries.
pub open spec fn without(s: Seq<(TypedPaneId, Seq<char>)>, id: TypedPaneId) -> Seq<(TypedPaneId, Seq<char>)>
    decreases s.len(),
{
    if s.len() == 0 {
        Seq::empty()
    } else if s.last().0 == id {
        without(s.drop_last(), id)
    } else {
        without(s.drop_last(), id).push(s.last())
    }
}

/// The table with the pane's status set: its entry replaced, or added.
pub open spec fn with_status(s: Seq<(TypedPaneId, Seq<char>)>, id: TypedPaneId, text: Seq<char>) -> Seq<(TypedPaneId, Seq<char>)> {
    without(s, id).push((id, text))
}

pub open spec fn manifest_key(p: PaneInfo) -> TypedPaneId {
    typed_of(p.id, pane_type_of(p.is_plugin))
}

pub open spec fn in_manifest(manifest: Seq<PaneInfo>, id: TypedPaneId) -> bool {
    exists|i: int| 0 <= i < manifest.len() && manifest_key(#[trigger] manifest[i]) == id
}

/// The typed pane ID a `set` names: a prefix, then ASCII digits that fit in 32 bits.
pub open spec fn status_target(raw: Seq<char>) -> Result<TypedPaneId, Seq<char>> {
    let (digits, plugin) = if raw.len() >= 9 && raw.subrange(0, 9) == "terminal_"@ {
        (raw.subrange(9, raw.len() as int), Some(false))
    } else if raw.len() >= 7 && raw.subrange(0, 7) == "plugin_"@ {
        (raw.subrange(7, raw.len() as int), Some(true))
    } else {
        (Seq::empty(), None)
    };
    match plugin {
        None => Err("pane ID must be terminal_N or plugin_N"@),
        Some(is_plugin) => if digits.len() == 0 || !all_ascii_digits(digits) {
            Err("pane ID must end with ASCII decimal digits only"@)
        } else {
            match parse_unsigned(digits, u32::MAX as nat) {
                Ok(v) => Ok(typed_of(v as u32, pane_type_of(is_plugin))),
                Err(_) => Err("invalid pane ID"@),
            }
        },
    }
}

/// What `set` does to the table, or why it refuses.
pub open spec fn set_spec(
    s: Seq<(TypedPaneId, Seq<char>)>,
    args: Seq<Seq<char>>,
    format: Option<Seq<char>>,
    manifest: Seq<PaneInfo>,
) -> Result<Seq<(TypedPaneId, Seq<char>)>, Seq<char>> {
    if args.len() != 2 {
        Err("pane status requires exactly a typed pane ID and a message"@)
    } else {
        let formatted: Result<bool, Seq<char>> = match format {
            None => Ok(false),
            Some(f) => if f == "plain"@ {
                Ok(false)
            } else if f == "zjstatus"@ {
                Ok(true)
            } else {
                Err("pane status format must be plain or zjstatus"@)
            },
        };
        match formatted {
            Err(e) => Err(e),
            Ok(formatted) => match status_target(args[0]) {
                Err(e) => Err(e),
                Ok(id) => if !in_manifest(manifest, id) {
                    Err("pane ID is not present in the current manifest"@)
                } else {
                    match render_status_spec(args[1], formatted) {
                        Err(e) => Err(e),
                        Ok(text) => if text.len() == 0 { Ok(without(s, id)) } else { Ok(with_status(s, id, text)) },
                    }
                },
            },
        }
    }
}

/// The entries whose pane is in the manifest.
pub open spec fn live_only(s: Seq<(TypedPaneId, Seq<char>)>, manifest: Seq<PaneInfo>) -> Seq<(TypedPaneId, Seq<char>)>
    decreases s.len(),
{
    if s.len() == 0 {
        Seq::empty()
    } else if in_manifest(manifest, s.last().0) {
        live_only(s.drop_last(), manifest).push(s.last())
    } else {
        live_only(s.drop_last(), manifest)
    }
}

/// Terminals before plugins, each by numeric ID.
pub open spec fn id_lt(a: TypedPaneId, b: TypedPaneId) -> bool {
    match (a, b) {
        (TypedPaneId::Terminal(_), TypedPaneId::Plugin(_)) => true,
        (TypedPaneId::Plugin(_), TypedPaneId::Terminal(_)) => false,
        (TypedPaneId::Terminal(x), TypedPaneId::Terminal(y)) => x < y,
        (TypedPaneId::Plugin(x), TypedPaneId::Plugin(y)) => x < y,
    }
}

pub struct ItemView {
    pub pane_id: TypedPaneId,
    pub title: Seq<char>,
    pub status: Seq<char>,
    pub is_focused: bool,
}

pub open spec fn item_view(i: PaneStatusItem) -> ItemView {
    ItemView { pane_id: i.pane_id, title: i.title@, status: i.status@, is_focused: i.is_focused }
}

pub open spec fn items_view(v: Seq<PaneStatusItem>) -> Seq<ItemView> {
    v.map_values(|i: PaneStatusItem| item_view(i))
}

/// Insert an item after every item whose ID is not greater.
pub open spec fn insert_by_id(s: Seq<ItemView>, x: ItemView) -> Seq<ItemView>
    decreases s.len(),
{
    if s.len() == 0 {
        seq![x]
    } else if id_lt(x.pane_id, s.last().pane_id) {
        insert_by_id(s.drop_last(), x).push(s.last())
    } else {
        s.push(x)
    }
}

pub open spec fn sort_by_id(s: Seq<ItemView>) -> Seq<ItemView>
    decreases s.len(),
{
    if s.len() == 0 {
        Seq::empty()
    } else {
        insert_by_id(sort_by_id(s.drop_last()), s.last())
    }
}

/// The items of the panes at a tab position that have a status, in manifest order.
pub open spec fn tab_items(s: Seq<(TypedPaneId, Seq<char>)>, manifest: Seq<PaneInfo>, position: usize) -> Seq<ItemView>
    decreases manifest.len(),
{
    if manifest.len() == 0 {
        Seq::empty()
    } else {
        let p = manifest.last();
        let rest = tab_items(s, manifest.drop_last(), position);
        if p.tab_position == position && status_of(s, manifest_key(p)) is Some {
            rest.push(ItemView {
                pane_id: manifest_key(p),
                title: escape_seq(p.title@),
                status: status_of(s, manifest_key(p))->Some_0,
                is_focused: p.is_focused,
            })
        } else {
            rest
        }
    }
}

pub open spec fn tab_entry_index(t: Seq<(usize, Seq<ItemView>)>, id: usize) -> Option<int>
    decreases t.len(),
{
    if t.len() == 0 {
        None
    } else {
        match tab_entry_index(t.drop_last(), id) {
            Some(i) => Some(i),
            None => if t.last().0 == id { Some(t.len() - 1) } else { None },
        }
    }
}

/// The per-tab items of a snapshot: one entry per tab ID, the last tab with
/// an ID giving its items.
pub open spec fn snapshot_tabs(s: Seq<(TypedPaneId, Seq<char>)>, manifest: Seq<PaneInfo>, tabs: Seq<TabRef>) -> Seq<(usize, Seq<ItemView>)>
    decreases tabs.len(),
{
    if tabs.len() == 0 {
        Seq::empty()
    } else {
        let rest = snapshot_tabs(s, manifest, tabs.drop_last());
        let entry = (tabs.last().tab_id, sort_by_id(tab_items(s, manifest, tabs.last().position)));
        match tab_entry_index(rest, tabs.last().tab_id) {
            Some(i) => rest.update(i, entry),
            None => insert_tab_entry(rest, entry),
        }
    }
}

/// Insert a tab entry in tab ID order, after every entry whose ID is not greater.
pub open spec fn insert_tab_entry(t: Seq<(usize, Seq<ItemView>)>, e: (usize, Seq<ItemView>)) -> Seq<(usize, Seq<ItemView>)>
    decreases t.len(),
{
    if t.len() == 0 {
        seq![e]
    } else if e.0 < t.last().0 {
        insert_tab_entry(t.drop_last(), e).push(t.last())
    } else {
        t.push(e)
    }
}

proof fn lemma_insert_tab_entry(t: Seq<(usize, Seq<ItemView>)>, e: (usize, Seq<ItemView>), k: int)
    requires
        0 <= k <= t.len(),
        forall|j: int| k <= j < t.len() ==> e.0 < #[trigger] t[j].0,
        k > 0 ==> t[k - 1].0 <= e.0,
    ensures
        insert_tab_entry(t, e) == t.insert(k, e),
    decreases t.len(),
{
    if t.len() == 0 {
        assert(t.insert(k, e) =~= seq![e]);
    } else if e.0 < t.last().0 {
        assert(k < t.len());
        let d = t.drop_last();
        assert forall|j: int| k <= j < d.len() implies e.0 < #[trigger] d[j].0 by { assert(d[j] == t[j]); }
        if k > 0 { assert(d[k - 1] == t[k - 1]); }
        lemma_insert_tab_entry(d, e, k);
        assert(d.insert(k, e).push(t.last()) =~= t.insert(k, e));
    } else {
        if k < t.len() { assert(e.0 < t[t.len() - 1].0); }
        assert(t.push(e) =~= t.insert(k, e));
    }
}

pub open spec fn first_active_tab(tabs: Seq<TabRef>) -> Option<usize>
    decreases tabs.len(),
{
    if tabs.len() == 0 {
        None
    } else if tabs[0].active {
        Some(tabs[0].tab_id)
    } else {
        first_active_tab(tabs.subrange(1, tabs.len() as int))
    }
}

pub open spec fn snapshot_view(v: PaneStatusSnapshot) -> (Option<usize>, Seq<(usize, Seq<ItemView>)>) {
    (v.current_tab_id, v.tabs@.map_values(|e: (usize, Vec<PaneStatusItem>)| (e.0, items_view(e.1@))))
}


pub open spec fn strs_view(v: Seq<&str>) -> Seq<Seq<char>> {
    v.map_values(|s: &str| s@)
}

fn typed_from(id: u32, is_plugin: bool) -> (r: TypedPaneId)
    ensures
        r == typed_of(id, pane_type_of(is_plugin)),
{
    if is_plugin { TypedPaneId::Plugin(id) } else { TypedPaneId::Terminal(id) }
}

fn has_prefix(cs: &Vec<char>, p: &str) -> (b: bool)
    ensures
        b == (cs@.len() >= p@.len() && cs@.subrange(0, p@.len() as int) == p@),
{
    let pc = chars_of(p);
    if cs.len() < pc.len() {
        return false;
    }
    let head = slice_chars(cs.as_slice(), 0, pc.len());
    crate::text::chars_eq(head.as_slice(), pc.as_slice())
}

fn only_digits(digits: &Vec<char>) -> (b: bool)
    ensures
        b == all_ascii_digits(digits@),
{
    let mut i: usize = 0;
    while i < digits.len()
        invariant
            i <= digits@.len(),
            forall|j: int| 0 <= j < i ==> crate::text::is_ascii_digit(#[trigger] digits@[j]),
        decreases digits.len() - i,
    {
        let c = digits[i];
        if !('0' <= c && c <= '9') {
            assert(!crate::text::is_ascii_digit(digits@[i as int]));
            return false;
        }
        i = i + 1;
    }
    true
}

fn parse_status_target(raw: &str) -> (r: Result<TypedPaneId, String>)
    ensures
        match r {
            Ok(id) => status_target(raw@) == Ok::<TypedPaneId, Seq<char>>(id),
            Err(e) => status_target(raw@) == Err::<TypedPaneId, Seq<char>>(e@),
        },
{
    proof {
        reveal_strlit("terminal_");
        reveal_strlit("plugin_");
    }
    let cs = chars_of(raw);
    let n = cs.len();
    let (digits, is_plugin) = if has_prefix(&cs, "terminal_") {
        (slice_chars(cs.as_slice(), 9, n), false)
    } else if has_prefix(&cs, "plugin_") {
        (slice_chars(cs.as_slice(), 7, n), true)
    } else {
        return Err(crate::text::to_string("pane ID must be terminal_N or plugin_N"));
    };
    if digits.len() == 0 || !only_digits(&digits) {
        return Err(crate::text::to_string("pane ID must end with ASCII decimal digits only"));
    }
    match parse_unsigned_chars(digits.as_slice(), 4294967295u64) {
        Ok(v) => Ok(typed_from(v as u32, is_plugin)),
        Err(_) => Err(crate::text::to_string("invalid pane ID")),
    }
}

fn manifest_has(manifest: &[PaneInfo], id: TypedPaneId) -> (b: bool)
    ensures
        b == in_manifest(manifest@, id),
{
    let mut i: usize = 0;
    while i < manifest.len()
        invariant
            i <= manifest@.len(),
            forall|j: int| 0 <= j < i ==> manifest_key(#[trigger] manifest@[j]) != id,
        decreases manifest.len() - i,
    {
        if typed_from(manifest[i].id, manifest[i].is_plugin) == id {
            return true;
        }
        i = i + 1;
    }
    false
}

impl PaneStatuses {
    /// No statuses.
    pub fn new() -> (s: PaneStatuses)
        ensures
            s@ == Seq::<(TypedPaneId, Seq<char>)>::empty(),
    {
        let s = PaneStatuses { statuses: Vec::new() };
        assert(s@ =~= Seq::<(TypedPaneId, Seq<char>)>::empty());
        s
    }

    /// The status of a pane, if it has one.
    pub fn status(&self, id: TypedPaneId) -> (r: Option<String>)
        ensures
            match r {
                Some(t) => status_of(self@, id) == Some(t@),
                None => status_of(self@, id) is None,
            },
    {
        let ghost v = self@;
        let mut i: usize = 0;
        assert(v.subrange(0, v.len() as int) =~= v);
        while i < self.statuses.len()
            invariant
                i <= self.statuses@.len(),
                v == self@,
                v.len() == self.statuses@.len(),
                status_of(v, id) == status_of(v.subrange(i as int, v.len() as int), id),
            decreases self.statuses.len() - i,
        {
            let ghost rest = v.subrange(i as int, v.len() as int);
            assert(rest[0] == v[i as int]);
            assert(v[i as int] == (self.statuses@[i as int].0, self.statuses@[i as int].1@));
            assert(rest.subrange(1, rest.len() as int) =~= v.subrange(i + 1, v.len() as int));
            if self.statuses[i].0 == id {
                return Some(self.statuses[i].1.clone());
            }
            i = i + 1;
        }
        None
    }

    /// How many panes have a status.
    pub fn len(&self) -> (n: usize)
        ensures
            n == self@.len(),
    {
        self.statuses.len()
    }

    fn remove_id(&mut self, id: TypedPaneId)
        ensures
            final(self)@ == without(old(self)@, id),
    {
        let ghost v = self@;
        let mut kept: Vec<(TypedPaneId, String)> = Vec::new();
        let mut i: usize = 0;
        while i < self.statuses.len()
            invariant
                i <= self.statuses@.len(),
                v == self@,
                v.len() == self.statuses@.len(),
                status_table(kept@) == without(v.subrange(0, i as int), id),
            decreases self.statuses.len() - i,
        {
            assert(v.subrange(0, i + 1).drop_last() =~= v.subrange(0, i as int));
            assert(v.subrange(0, i + 1).last() == v[i as int]);
            assert(v[i as int] == (self.statuses@[i as int].0, self.statuses@[i as int].1@));
            if self.statuses[i].0 != id {
                let ghost before = status_table(kept@);
                kept.push((self.statuses[i].0, self.statuses[i].1.clone()));
                assert(status_table(kept@) =~= before.push(v[i as int]));
            }
            i = i + 1;
        }
        assert(v.subrange(0, v.len() as int) =~= v);
        self.statuses = kept;
    }

    /// Set a known pane's status from `[typed_pane_id, message]`, or clear it
    /// with an empty message. Errors leave the statuses unchanged.
    pub fn set(&mut self, args: &[&str], format: Option<&str>, manifest: &[PaneInfo]) -> (r: Result<(), String>)
        ensures
            match r {
                Ok(()) => set_spec(old(self)@, strs_view(args@), match format { Some(f) => Some(f@), None => None }, manifest@)
                    == Ok::<Seq<(TypedPaneId, Seq<char>)>, Seq<char>>(final(self)@),
                Err(e) => set_spec(old(self)@, strs_view(args@), match format { Some(f) => Some(f@), None => None }, manifest@)
                    == Err::<Seq<(TypedPaneId, Seq<char>)>, Seq<char>>(e@) && final(self)@ == old(self)@,
            },
    {
        if args.len() != 2 {
            return Err(crate::text::to_string("pane status requires exactly a typed pane ID and a message"));
        }
        assert(strs_view(args@)[0] == args@[0]@ && strs_view(args@)[1] == args@[1]@);
        let formatted = match format {
            None => false,
            Some(f) => if str_equals(f, "plain") {
                false
            } else if str_equals(f, "zjstatus") {
                true
            } else {
                return Err(crate::text::to_string("pane status format must be plain or zjstatus"));
            },
        };
        let id = match parse_status_target(args[0]) {
            Ok(id) => id,
            Err(e) => return Err(e),
        };
        if !manifest_has(manifest, id) {
            return Err(crate::text::to_string("pane ID is not present in the current manifest"));
        }
        let text = match render_status(args[1], formatted) {
            Ok(t) => t,
            Err(e) => return Err(e),
        };
        let ghost text_view = text@;
        if text.as_str().is_empty() {
            self.remove_id(id);
        } else {
            self.remove_id(id);
            let ghost mid = self@;
            self.statuses.push((id, text));
            assert(self@ =~= mid.push((id, text_view)));
        }
        Ok(())
    }

    /// Keep only the statuses of panes in an authoritative manifest.
    pub fn reconcile(&mut self, manifest: &[PaneInfo])
        ensures
            final(self)@ == live_only(old(self)@, manifest@),
    {
        let ghost v = self@;
        let mut kept: Vec<(TypedPaneId, String)> = Vec::new();
        let mut i: usize = 0;
        while i < self.statuses.len()
            invariant
                i <= self.statuses@.len(),
                v == self@,
                v.len() == self.statuses@.len(),
                status_table(kept@) == live_only(v.subrange(0, i as int), manifest@),
            decreases self.statuses.len() - i,
        {
            assert(v.subrange(0, i + 1).drop_last() =~= v.subrange(0, i as int));
            assert(v.subrange(0, i + 1).last() == v[i as int]);
            assert(v[i as int] == (self.statuses@[i as int].0, self.statuses@[i as int].1@));
            if manifest_has(manifest, self.statuses[i].0) {
                let ghost before = status_table(kept@);
                kept.push((self.statuses[i].0, self.statuses[i].1.clone()));
                assert(status_table(kept@) =~= before.push(v[i as int]));
            }
            i = i + 1;
        }
        assert(v.subrange(0, v.len() as int) =~= v);
        self.statuses = kept;
    }
}

fn id_less(a: TypedPaneId, b: TypedPaneId) -> (r: bool)
    ensures
        r == id_lt(a, b),
{
    match (a, b) {
        (TypedPaneId::Terminal(_), TypedPaneId::Plugin(_)) => true,
        (TypedPaneId::Plugin(_), TypedPaneId::Terminal(_)) => false,
        (TypedPaneId::Terminal(x), TypedPaneId::Terminal(y)) => x < y,
        (TypedPaneId::Plugin(x), TypedPaneId::Plugin(y)) => x < y,
    }
}

fn insert_item(v: &mut Vec<PaneStatusItem>, x: PaneStatusItem)
    ensures
        items_view(final(v)@) == insert_by_id(items_view(old(v)@), item_view(x)),
    decreases old(v)@.len(),
{
    let ghost before = items_view(v@);
    if v.len() == 0 {
        v.push(x);
        assert(items_view(v@) =~= seq![item_view(x)]);
        return;
    }
    let n = v.len();
    assert(before.last() == item_view(v@[n - 1]));
    if id_less(x.pane_id, v[n - 1].pane_id) {
        let last = v.pop().unwrap();
        assert(items_view(v@) =~= before.drop_last());
        insert_item(v, x);
        let ghost mid = items_view(v@);
        v.push(last);
        assert(items_view(v@) =~= mid.push(before.last()));
    } else {
        let ghost xv = item_view(x);
        v.push(x);
        assert(items_view(v@) =~= before.push(xv));
    }
}

impl PaneStatuses {
    fn items_at(&self, manifest: &[PaneInfo], position: usize) -> (r: Vec<PaneStatusItem>)
        ensures
            items_view(r@) == sort_by_id(tab_items(self@, manifest@, position)),
    {
        let mut r: Vec<PaneStatusItem> = Vec::new();
        let mut i: usize = 0;
        while i < manifest.len()
            invariant
                i <= manifest@.len(),
                items_view(r@) == sort_by_id(tab_items(self@, manifest@.subrange(0, i as int), position)),
            decreases manifest.len() - i,
        {
            assert(manifest@.subrange(0, i + 1).drop_last() =~= manifest@.subrange(0, i as int));
            assert(manifest@.subrange(0, i + 1).last() == manifest@[i as int]);
            let p = &manifest[i];
            if p.tab_position == position {
                let key = typed_from(p.id, p.is_plugin);
                match self.status(key) {
                    Some(status) => {
                        let title = string_of(&escape_chars(chars_of(p.title.as_str()).as_slice()));
                        let item = PaneStatusItem { pane_id: key, title, status, is_focused: p.is_focused };
                        let ghost prefix = manifest@.subrange(0, i as int);
                        let ghost next = manifest@.subrange(0, i + 1);
                        assert(item_view(item) == ItemView {
                            pane_id: manifest_key(*p),
                            title: escape_seq(p.title@),
                            status: status_of(self@, manifest_key(*p))->Some_0,
                            is_focused: p.is_focused,
                        });
                        assert(tab_items(self@, next, position) == tab_items(self@, prefix, position).push(item_view(item)));
                        assert(tab_items(self@, next, position).drop_last() =~= tab_items(self@, prefix, position));
                        insert_item(&mut r, item);
                    },
                    None => {},
                }
            }
            i = i + 1;
        }
        assert(manifest@.subrange(0, manifest@.len() as int) =~= manifest@);
        r
    }

    /// The statuses of each tab, read without pruning anything; within a tab,
    /// terminals come before plugins, each by numeric ID.
    pub fn snapshot(&self, manifest: &[PaneInfo], tabs: &[TabRef]) -> (r: PaneStatusSnapshot)
        ensures
            snapshot_view(r) == (first_active_tab(tabs@), snapshot_tabs(self@, manifest@, tabs@)),
    {
        let current = first_active_id(tabs);
        let mut entries: Vec<(usize, Vec<PaneStatusItem>)> = Vec::new();
        let mut i: usize = 0;
        while i < tabs.len()
            invariant
                i <= tabs@.len(),
                snapshot_view(PaneStatusSnapshot { current_tab_id: None, tabs: entries }).1
                    == snapshot_tabs(self@, manifest@, tabs@.subrange(0, i as int)),
            decreases tabs.len() - i,
        {
            assert(tabs@.subrange(0, i + 1).drop_last() =~= tabs@.subrange(0, i as int));
            assert(tabs@.subrange(0, i + 1).last() == tabs@[i as int]);
            let ghost before = snapshot_view(PaneStatusSnapshot { current_tab_id: None, tabs: entries }).1;
            let items = self.items_at(manifest, tabs[i].position);
            let id = tabs[i].tab_id;
            let ghost entry = (id, items_view(items@));
            let found = find_entry(&entries, id);
            match found {
                Some(j) => {
                    entries.set(j, (id, items));
                    assert(snapshot_view(PaneStatusSnapshot { current_tab_id: None, tabs: entries }).1 =~= before.update(j as int, entry));
                },
                None => {
                    let mut k = entries.len();
                    while k > 0 && entries[k - 1].0 > id
                        invariant
                            k <= entries@.len(),
                            before == snapshot_view(PaneStatusSnapshot { current_tab_id: None, tabs: entries }).1,
                            before.len() == entries@.len(),
                            forall|j: int| k <= j < before.len() ==> id < #[trigger] before[j].0,
                        decreases k,
                    {
                        assert(before[k - 1].0 == entries@[k - 1].0);
                        k = k - 1;
                    }
                    proof {
                        if k > 0 { assert(before[k - 1].0 == entries@[k - 1].0); }
                        lemma_insert_tab_entry(before, entry, k as int);
                    }
                    entries.insert(k, (id, items));
                    assert(snapshot_view(PaneStatusSnapshot { current_tab_id: None, tabs: entries }).1 =~= before.insert(k as int, entry));
                },
            }
            i = i + 1;
        }
        assert(tabs@.subrange(0, tabs@.len() as int) =~= tabs@);
        PaneStatusSnapshot { current_tab_id: current, tabs: entries }
    }
}

fn first_active_id(tabs: &[TabRef]) -> (r: Option<usize>)
    ensures
        r == first_active_tab(tabs@),
{
    let mut k: usize = 0;
    assert(tabs@.subrange(0, tabs@.len() as int) =~= tabs@);
    while k < tabs.len()
        invariant
            k <= tabs@.len(),
            first_active_tab(tabs@) == first_active_tab(tabs@.subrange(k as int, tabs@.len() as int)),
        decreases tabs.len() - k,
    {
        let ghost rest = tabs@.subrange(k as int, tabs@.len() as int);
        assert(rest[0] == tabs@[k as int]);
        if tabs[k].active {
            return Some(tabs[k].tab_id);
        }
        assert(rest.subrange(1, rest.len() as int) =~= tabs@.subrange(k + 1, tabs@.len() as int));
        k = k + 1;
    }
    None
}

fn find_entry(entries: &Vec<(usize, Vec<PaneStatusItem>)>, id: usize) -> (r: Option<usize>)
    ensures
        match r {
            Some(j) => tab_entry_index(snapshot_view(PaneStatusSnapshot { current_tab_id: None, tabs: *entries }).1, id) == Some(j as int)
                && j < entries@.len(),
            None => tab_entry_index(snapshot_view(PaneStatusSnapshot { current_tab_id: None, tabs: *entries }).1, id) is None,
        },
{
    let ghost t = snapshot_view(PaneStatusSnapshot { current_tab_id: None, tabs: *entries }).1;
    proof { lemma_tab_entry_index(t, id); }
    let mut j: usize = 0;
    while j < entries.len()
        invariant
            j <= entries@.len(),
            t == snapshot_view(PaneStatusSnapshot { current_tab_id: None, tabs: *entries }).1,
            t.len() == entries@.len(),
            forall|m: int| 0 <= m < j ==> #[trigger] t[m].0 != id,
            match tab_entry_index(t, id) {
                Some(k) => 0 <= k < t.len() && t[k].0 == id && forall|m: int| 0 <= m < k ==> #[trigger] t[m].0 != id,
                None => forall|m: int| 0 <= m < t.len() ==> #[trigger] t[m].0 != id,
            },
        decreases entries.len() - j,
    {
        assert(t[j as int].0 == entries@[j as int].0);
        if entries[j].0 == id {
            return Some(j);
        }
        j = j + 1;
    }
    None
}

/// `tab_entry_index` finds the first entry with the given tab ID.
pub proof fn lemma_tab_entry_index(t: Seq<(usize, Seq<ItemView>)>, id: usize)
    ensures
        match tab_entry_index(t, id) {
            Some(i) => 0 <= i < t.len() && t[i].0 == id && forall|j: int| 0 <= j < i ==> #[trigger] t[j].0 != id,
            None => forall|j: int| 0 <= j < t.len() ==> #[trigger] t[j].0 != id,
        },
    decreases t.len(),
{
    if t.len() > 0 {
        lemma_tab_entry_index(t.drop_last(), id);
        assert forall|j: int| 0 <= j < t.len() - 1 implies #[trigger] t[j] == t.drop_last()[j] by {}
    }
}

proof fn lemma_status_of_push(s: Seq<(TypedPaneId, Seq<char>)>, x: (TypedPaneId, Seq<char>), k: TypedPaneId)
    ensures
        status_of(s.push(x), k) == match status_of(s, k) {
            Some(t) => Some(t),
            None => if x.0 == k { Some(x.1) } else { None },
        },
    decreases s.len(),
{
    let t = s.push(x);
    if s.len() > 0 {
        assert(t[0] == s[0]);
        assert(t.subrange(1, t.len() as int) =~= s.subrange(1, s.len() as int).push(x));
        lemma_status_of_push(s.subrange(1, s.len() as int), x, k);
    } else {
        assert(t[0] == x);
        assert(t.subrange(1, t.len() as int) =~= Seq::<(TypedPaneId, Seq<char>)>::empty());
        assert(status_of(Seq::<(TypedPaneId, Seq<char>)>::empty(), k) is None);
    }
}

proof fn lemma_status_of_split(s: Seq<(TypedPaneId, Seq<char>)>, k: TypedPaneId)
    requires
        s.len() > 0,
    ensures
        status_of(s, k) == match status_of(s.drop_last(), k) {
            Some(t) => Some(t),
            None => if s.last().0 == k { Some(s.last().1) } else { None },
        },
{
    assert(s.drop_last().push(s.last()) =~= s);
    lemma_status_of_push(s.drop_last(), s.last(), k);
}

proof fn lemma_status_of_without(s: Seq<(TypedPaneId, Seq<char>)>, id: TypedPaneId, k: TypedPaneId)
    ensures
        status_of(without(s, id), k) == if k == id { None } else { status_of(s, k) },
    decreases s.len(),
{
    if s.len() > 0 {
        lemma_status_of_without(s.drop_last(), id, k);
        lemma_status_of_split(s, k);
        if s.last().0 != id {
            lemma_status_of_push(without(s.drop_last(), id), s.last(), k);
        }
    }
}

proof fn lemma_status_of_live_only(s: Seq<(TypedPaneId, Seq<char>)>, manifest: Seq<PaneInfo>, k: TypedPaneId)
    ensures
        status_of(live_only(s, manifest), k) == if in_manifest(manifest, k) { status_of(s, k) } else { None },
    decreases s.len(),
{
    if s.len() > 0 {
        lemma_status_of_live_only(s.drop_last(), manifest, k);
        lemma_status_of_split(s, k);
        if in_manifest(manifest, s.last().0) {
            lemma_status_of_push(live_only(s.drop_last(), manifest), s.last(), k);
        }
    }
}

/// A pane owns one status: once its status is set to a text, reading the
/// pane gives that text, and every other pane reads as before.
pub proof fn law_set_status_reads_back(
    s: Seq<(TypedPaneId, Seq<char>)>,
    id: TypedPaneId,
    text: Seq<char>,
    other: TypedPaneId,
)
    ensures
        status_of(with_status(s, id, text), id) == Some(text),
        other != id ==> status_of(with_status(s, id, text), other) == status_of(s, other),
{
    lemma_status_of_without(s, id, id);
    lemma_status_of_push(without(s, id), (id, text), id);
    lemma_status_of_without(s, id, other);
    lemma_status_of_push(without(s, id), (id, text), other);
}

/// Clearing removes a pane's status and leaves every other pane's.
pub proof fn law_clear_status_removes(s: Seq<(TypedPaneId, Seq<char>)>, id: TypedPaneId, other: TypedPaneId)
    ensures
        status_of(without(s, id), id) is None,
        other != id ==> status_of(without(s, id), other) == status_of(s, other),
{
    lemma_status_of_without(s, id, id);
    lemma_status_of_without(s, id, other);
}

/// Statuses follow the manifest: after reconciling, a pane has a status
/// exactly when it is in the manifest and had one, and it keeps the same text.
pub proof fn law_reconcile_keeps_live_statuses(s: Seq<(TypedPaneId, Seq<char>)>, manifest: Seq<PaneInfo>, k: TypedPaneId)
    ensures
        status_of(live_only(s, manifest), k) == if in_manifest(manifest, k) { status_of(s, k) } else { None },
{
    lemma_status_of_live_only(s, manifest, k);
}

} // verus!
