//! Rendering of pane-status outputs for zjstatus.

use vstd::prelude::*;
use crate::events::TypedPaneId;
use crate::pane_statuses::{item_view, items_view, snapshot_view, tab_entry_index, ItemView, PaneStatusItem, PaneStatusSnapshot};
use crate::text::{chars_of, decimal, push_decimal, push_str, string_of};
use crate::zjstatus::markup::table_view;
use crate::zjstatus::pane_template::{
    entries_view, items_fn, no_values, pane_substitute, pane_template, table_fn, Entry, Values,
};
use crate::zjstatus::render::{bool_word, has_name, item_separator, names, sanitize_for, OutputConfig, Scope};

verus! {

/// A pane ID as zjstatus filters and templates see it: `terminal_N` or `plugin_N`.
pub open spec fn pane_key_text(id: TypedPaneId) -> Seq<char> {
    match id {
        TypedPaneId::Terminal(n) => "terminal_"@ + decimal(n as nat),
        TypedPaneId::Plugin(n) => "plugin_"@ + decimal(n as nat),
    }
}

/// The directives of a pane item template.
pub open spec fn pane_values(item: ItemView, tab_id: Option<usize>) -> Seq<(Seq<char>, Seq<char>)> {
    seq![
        ("{is_focused}"@, bool_word(item.is_focused)),
        ("{pane_id}"@, pane_key_text(item.pane_id)),
        ("{status}"@, item.status),
        ("{tab_id}"@, match tab_id { Some(id) => decimal(id as nat), None => Seq::empty() }),
        ("{title}"@, item.title),
    ]
}

/// Whether the selection and exclusion lists let a pane through.
pub open spec fn pane_selected(c: OutputConfig, item: ItemView) -> bool {
    (c.selected@.len() == 0 || names(c.selected@).contains(pane_key_text(item.pane_id)))
        && !names(c.exclude@).contains(pane_key_text(item.pane_id))
}

/// The template of a pane item: the scope's focused template for a focused
/// pane, else the scope's item template, else the item template.
pub open spec fn pane_item_template(c: OutputConfig, item: ItemView) -> Seq<char> {
    let focused = if c.tab_scoped { c.tab_item_focused_format } else { c.current_item_focused_format };
    let generic = if c.tab_scoped { c.tab_item_format } else { c.current_item_format };
    match focused {
        Some(f) if item.is_focused => f@,
        _ => match generic {
            Some(g) => g@,
            None => c.item_format@,
        },
    }
}

pub open spec fn isolation() -> Seq<char> {
    "#[]"@
}

/// The pane items that pass the filters and render non-empty, with their
/// templates and directive tables.
pub open spec fn pane_entries(c: OutputConfig, items: Seq<ItemView>, tab_id: Option<usize>) -> Seq<(Seq<char>, Seq<(Seq<char>, Seq<char>)>)>
    decreases items.len(),
{
    if items.len() == 0 {
        Seq::empty()
    } else {
        let rest = pane_entries(c, items.drop_last(), tab_id);
        let item = items.last();
        let t = pane_item_template(c, item);
        let vals = pane_values(item, tab_id);
        if pane_selected(c, item) && pane_template(t, isolation(), table_fn(vals)).len() > 0 {
            rest.push((t, vals))
        } else {
            rest
        }
    }
}

/// The items of a tab in a snapshot; none for an unknown tab.
pub open spec fn items_of_tab(tabs: Seq<(usize, Seq<ItemView>)>, tab_id: Option<usize>) -> Seq<ItemView> {
    match tab_id {
        Some(id) => match tab_entry_index(tabs, id) {
            Some(i) => tabs[i].1,
            None => Seq::empty(),
        },
        None => Seq::empty(),
    }
}

/// A rendered pane-status output: the statuses of the selected tab (a tab
/// output's own tab, a pipe's active tab).
pub open spec fn render_pane_spec(
    c: OutputConfig,
    snapshot: (Option<usize>, Seq<(usize, Seq<ItemView>)>),
    tab_id: Option<usize>,
) -> Seq<char> {
    let tid = if c.tab_scoped { tab_id } else { snapshot.0 };
    let scope = if c.tab_scoped { Scope::Tab } else { Scope::Current };
    let prefix = if c.tab_scoped { "tab"@ } else { "current"@ };
    let es = pane_entries(c, items_of_tab(snapshot.1, tid), tid);
    let value = if es.len() == 0 {
        pane_template(c.empty_format@, isolation(), no_values())
    } else {
        pane_template(c.format@, isolation(),
            items_fn("{"@ + prefix + "_items}"@, "{"@ + prefix + "_rendered_count}"@, es, item_separator(c, scope)))
    };
    sanitize_for(c, value)
}

fn pane_key_chars(id: TypedPaneId) -> (r: Vec<char>)
    ensures
        r@ == pane_key_text(id),
{
    let mut r: Vec<char> = Vec::new();
    match id {
        TypedPaneId::Terminal(n) => {
            push_str(&mut r, "terminal_");
            push_decimal(&mut r, n as u64);
        },
        TypedPaneId::Plugin(n) => {
            push_str(&mut r, "plugin_");
            push_decimal(&mut r, n as u64);
        },
    }
    r
}

fn pane_table(item: &PaneStatusItem, tab_id: Option<usize>) -> (r: Vec<(Vec<char>, Vec<char>)>)
    ensures
        table_view(r@) == pane_values(item_view(*item), tab_id),
{
    let mut r: Vec<(Vec<char>, Vec<char>)> = Vec::new();
    r.push((chars_of("{is_focused}"), chars_of(if item.is_focused { "true" } else { "false" })));
    r.push((chars_of("{pane_id}"), pane_key_chars(item.pane_id)));
    r.push((chars_of("{status}"), chars_of(item.status.as_str())));
    let mut tid: Vec<char> = Vec::new();
    match tab_id {
        Some(id) => push_decimal(&mut tid, id as u64),
        None => {},
    }
    r.push((chars_of("{tab_id}"), tid));
    r.push((chars_of("{title}"), chars_of(item.title.as_str())));
    assert(table_view(r@) =~= pane_values(item_view(*item), tab_id));
    r
}

fn selected(c: &OutputConfig, key: &Vec<char>) -> (b: bool)
    ensures
        b == ((c.selected@.len() == 0 || names(c.selected@).contains(key@)) && !names(c.exclude@).contains(key@)),
{
    let k = string_of(key);
    (c.selected.len() == 0 || has_name(&c.selected, k.as_str())) && !has_name(&c.exclude, k.as_str())
}

fn template_of<'a>(c: &'a OutputConfig, item: &'a PaneStatusItem) -> (t: &'a str)
    ensures
        t@ == pane_item_template(*c, item_view(*item)),
{
    let focused = if c.tab_scoped { &c.tab_item_focused_format } else { &c.current_item_focused_format };
    let generic = if c.tab_scoped { &c.tab_item_format } else { &c.current_item_format };
    match focused {
        Some(f) => {
            if item.is_focused {
                return f.as_str();
            }
        },
        None => {},
    }
    match generic {
        Some(g) => g.as_str(),
        None => c.item_format.as_str(),
    }
}

fn entries_for(c: &OutputConfig, items: &Vec<PaneStatusItem>, tab_id: Option<usize>) -> (r: Vec<Entry>)
    ensures
        entries_view(r@) == pane_entries(*c, items_view(items@), tab_id),
{
    let ghost iv = items_view(items@);
    let base = chars_of("#[]");
    let mut r: Vec<Entry> = Vec::new();
    let mut i: usize = 0;
    while i < items.len()
        invariant
            i <= items@.len(),
            iv == items_view(items@),
            iv.len() == items@.len(),
            base@ == isolation(),
            entries_view(r@) == pane_entries(*c, iv.subrange(0, i as int), tab_id),
        decreases items.len() - i,
    {
        assert(iv.subrange(0, i + 1).drop_last() =~= iv.subrange(0, i as int));
        assert(iv.subrange(0, i + 1).last() == item_view(items@[i as int]));
        let item = &items[i];
        let key = pane_key_chars(item.pane_id);
        let t = chars_of(template_of(c, item));
        let vals = pane_table(item, tab_id);
        if selected(c, &key) {
            let out = pane_substitute(&t, &base, &Values::Table(&vals));
            if out.len() > 0 {
                let ghost before = entries_view(r@);
                r.push((t, vals));
                assert(entries_view(r@) =~= before.push((pane_item_template(*c, iv[i as int]), pane_values(iv[i as int], tab_id))));
            }
        }
        i = i + 1;
    }
    assert(iv.subrange(0, iv.len() as int) =~= iv);
    r
}

fn tab_items_of(snapshot: &PaneStatusSnapshot, tab_id: Option<usize>) -> (r: Option<usize>)
    ensures
        match r {
            Some(i) => i < snapshot.tabs@.len() && tab_id is Some
                && tab_entry_index(snapshot_view(*snapshot).1, tab_id->Some_0) == Some(i as int),
            None => items_of_tab(snapshot_view(*snapshot).1, tab_id) == Seq::<ItemView>::empty(),
        },
{
    let id = match tab_id {
        Some(id) => id,
        None => return None,
    };
    let ghost t = snapshot_view(*snapshot).1;
    proof { crate::pane_statuses::lemma_tab_entry_index(t, id); }
    let mut j: usize = 0;
    while j < snapshot.tabs.len()
        invariant
            j <= snapshot.tabs@.len(),
            tab_id == Some(id),
            t == snapshot_view(*snapshot).1,
            t.len() == snapshot.tabs@.len(),
            forall|m: int| 0 <= m < j ==> #[trigger] t[m].0 != id,
            match tab_entry_index(t, id) {
                Some(k) => 0 <= k < t.len() && t[k].0 == id && forall|m: int| 0 <= m < k ==> #[trigger] t[m].0 != id,
                None => forall|m: int| 0 <= m < t.len() ==> #[trigger] t[m].0 != id,
            },
        decreases snapshot.tabs.len() - j,
    {
        assert(t[j as int].0 == snapshot.tabs@[j as int].0);
        if snapshot.tabs[j].0 == id {
            proof {
                match tab_entry_index(t, id) {
                    Some(k) => {
                        if k < j { assert(t[k].0 != id); }
                        if k > j { assert(t[j as int].0 != id); }
                    },
                    None => { assert(t[j as int].0 != id); },
                }
                assert(tab_entry_index(t, id) == Some(j as int));
            }
            return Some(j);
        }
        j = j + 1;
    }
    None
}

/// Render a pane-status output: for a tab output the statuses of `tab_id`,
/// for a pipe those of the snapshot's active tab.
pub fn render_pane_status(config: &OutputConfig, snapshot: &PaneStatusSnapshot, tab_id: Option<usize>) -> (r: String)
    ensures
        r@ == render_pane_spec(*config, snapshot_view(*snapshot), tab_id),
{
    let tid = if config.tab_scoped { tab_id } else { snapshot.current_tab_id };
    let scope = if config.tab_scoped { Scope::Tab } else { Scope::Current };
    let no_items: Vec<PaneStatusItem> = Vec::new();
    let entries = match tab_items_of(snapshot, tid) {
        Some(i) => {
            assert(snapshot_view(*snapshot).1[i as int].1 == items_view(snapshot.tabs@[i as int].1@));
            entries_for(config, &snapshot.tabs[i].1, tid)
        },
        None => {
            assert(items_view(no_items@) =~= Seq::<ItemView>::empty());
            entries_for(config, &no_items, tid)
        },
    };
    let base = chars_of("#[]");
    let value = if entries.len() == 0 {
        pane_substitute(&chars_of(config.empty_format.as_str()), &base, &Values::Nothing)
    } else {
        let prefix = if config.tab_scoped { "tab" } else { "current" };
        let mut items_key: Vec<char> = Vec::new();
        push_str(&mut items_key, "{");
        push_str(&mut items_key, prefix);
        push_str(&mut items_key, "_items}");
        let mut count_key: Vec<char> = Vec::new();
        push_str(&mut count_key, "{");
        push_str(&mut count_key, prefix);
        push_str(&mut count_key, "_rendered_count}");
        let sep = chars_of(config.separator(scope));
        pane_substitute(&chars_of(config.format.as_str()), &base,
            &Values::Items { items_key: &items_key, count_key: &count_key, entries: &entries, sep: &sep })
    };
    string_of(&crate::zjstatus::render::sanitize_output(config, &value))
}

} // verus!
