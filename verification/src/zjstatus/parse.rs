//! Reading one configuration layer from KDL.

use vstd::prelude::*;
use crate::kdl_model::{entry_text, kdl_parse_result, parse_kdl, string_entries, Entry, Node, Scalar};
use crate::scratchpad::config::{is_valid_scratchpad_name, valid_scratchpad_name};
use crate::text::{
    chars_of, find, find_chars, is_prefix, lemma_find_from_bounds, push_chars, push_str, slice_chars, split_chars,
    split_on, split_once, str_equals, string_of,
};
use crate::zjstatus::config::{
    key_view, empty_patch, insert_output, option_slot, out_index, patch_wf, ConfigPatchView, OutputKey, OutputPatch, PatchView,
    ZjstatusConfigPatch,
};
use crate::zjstatus::render::{has_name, names, OutputSource};
use crate::kdl_model::collect_string_entries;

verus! {

/// A node without a type annotation whose entries are neither properties
/// nor annotated.
pub open spec fn plain_node(n: Node) -> bool {
    !n.typed && forall|j: int| 0 <= j < n.entries@.len() ==> !(#[trigger] n.entries@[j]).named && !n.entries@[j].typed
}

/// The only entry of a node, as a string.
pub open spec fn single_text(n: Node) -> Option<Seq<char>> {
    if n.entries@.len() == 1 { entry_text(n.entries@[0]) } else { None }
}

/// The only entry of a node, as a boolean.
pub open spec fn single_bool(n: Node) -> Option<bool> {
    if n.entries@.len() == 1 {
        match n.entries@[0].value {
            Scalar::Boolean(b) => Some(b),
            _ => None,
        }
    } else {
        None
    }
}

/// The refresh interval a `refresh_ms` node gives: one positive integer
/// that fits in 32 bits, and no child block.
pub open spec fn refresh_value(n: Node) -> Option<u32> {
    if n.children is None && n.entries@.len() == 1 {
        match n.entries@[0].value {
            Scalar::Integer(v) => if 0 < v && v <= u32::MAX { Some(v as u32) } else { None },
            _ => None,
        }
    } else {
        None
    }
}

pub open spec fn tab_field_char(c: char) -> bool {
    ('a' <= c && c <= 'z') || ('0' <= c && c <= '9') || c == '_'
}

/// A tab field name: `[a-z0-9_]+`.
pub open spec fn valid_tab_field(name: Seq<char>) -> bool {
    name.len() > 0 && forall|j: int| 0 <= j < name.len() ==> tab_field_char(#[trigger] name[j])
}

pub open spec fn all_text(entries: Seq<Entry>) -> bool {
    forall|j: int| 0 <= j < entries.len() ==> (#[trigger] entry_text(entries[j])) is Some
}

/// The placeholder suffixes whose scope is checked.
pub open spec fn known_suffix(s: Seq<char>) -> bool {
    s == "items"@ || s == "configured_count"@ || s == "rendered_count"@ || s == "live_count"@
        || s == "visible_count"@ || s == "hidden_count"@ || s == "closed_count"@ || s == "focused_name"@
        || s == "focused_title"@
}

/// Whether a placeholder names a scope that the output's kind lacks: a tab
/// field has no current or other tab, a global pipe has no tab.
pub open spec fn wrong_scope(directive: Seq<char>, tab_scoped: bool) -> bool {
    match split_once(directive, "_"@) {
        None => false,
        Some((scope, suffix)) => known_suffix(suffix) && ((tab_scoped && (scope == "current"@ || scope == "other"@))
            || (!tab_scoped && scope == "tab"@)),
    }
}

/// The first placeholder from part `k` on (each part after a `{`, up to its
/// `}`) with a wrong scope.
pub open spec fn bad_placeholder_from(parts: Seq<Seq<char>>, k: int, tab_scoped: bool) -> Option<Seq<char>>
    decreases parts.len() - k,
{
    if k < 1 || k >= parts.len() {
        None
    } else {
        match split_once(parts[k], "}"@) {
            Some((d, _)) => if wrong_scope(d, tab_scoped) { Some(d) } else { bad_placeholder_from(parts, k + 1, tab_scoped) },
            None => bad_placeholder_from(parts, k + 1, tab_scoped),
        }
    }
}

pub open spec fn bad_placeholder(value: Seq<char>, tab_scoped: bool) -> Option<Seq<char>> {
    bad_placeholder_from(split_on(value, "{"@), 1, tab_scoped)
}

/// One option node of an output block, read into the patch.
pub open spec fn option_step(n: Node, tab_scoped: bool, seen: Seq<Seq<char>>, acc: PatchView) -> Result<PatchView, Seq<char>> {
    let key = n.name@;
    if !plain_node(n) {
        Err("zjstatus '"@ + key + "' does not accept properties or type annotations"@)
    } else if seen.contains(key) {
        Err("duplicate option '"@ + key + "'"@)
    } else if n.children is Some {
        Err("option '"@ + key + "' does not accept a child block"@)
    } else if key == "enabled"@ {
        match single_bool(n) {
            Some(b) => Ok(PatchView { enabled: Some(b), ..acc }),
            None => Err("enabled requires exactly one KDL boolean"@),
        }
    } else if key == "source"@ {
        match single_text(n) {
            Some(t) => if t == "scratchpad"@ {
                Ok(PatchView { source: Some(OutputSource::Scratchpad), ..acc })
            } else if t == "pane-status"@ {
                Ok(PatchView { source: Some(OutputSource::PaneStatus), ..acc })
            } else {
                Err("source requires \"scratchpad\" or \"pane-status\""@)
            },
            None => Err("source requires \"scratchpad\" or \"pane-status\""@),
        }
    } else if key == "include"@ || key == "exclude"@ {
        if !all_text(n.entries@) {
            Err("'"@ + key + "' requires string arguments"@)
        } else if key == "include"@ {
            Ok(PatchView { selected: Some(string_entries(n.entries@)), ..acc })
        } else {
            Ok(PatchView { exclude: Some(string_entries(n.entries@)), ..acc })
        }
    } else {
        match option_slot(key) {
            None => Err("unknown option '"@ + key + "'"@),
            Some(slot) => if (tab_scoped && is_prefix("current_"@, key)) || (!tab_scoped && is_prefix("tab_"@, key)) {
                Err("unsupported scope in option '"@ + key + "'"@)
            } else {
                match single_text(n) {
                    None => Err("'"@ + key + "' requires exactly one string"@),
                    Some(v) => match bad_placeholder(v, tab_scoped) {
                        Some(d) => Err("unsupported scope in placeholder '{"@ + d + "}' in '"@ + key + "'"@),
                        None => Ok(PatchView { strings: acc.strings.update(slot, Some(v)), ..acc }),
                    },
                }
            },
        }
    }
}

/// The option nodes from `i` on, read into the patch.
pub open spec fn options_from(nodes: Seq<Node>, tab_scoped: bool, i: int, seen: Seq<Seq<char>>, acc: PatchView) -> Result<PatchView, Seq<char>>
    decreases nodes.len() - i,
{
    if i < 0 || i >= nodes.len() {
        Ok(acc)
    } else {
        match option_step(nodes[i], tab_scoped, seen, acc) {
            Err(e) => Err(e),
            Ok(a) => options_from(nodes, tab_scoped, i + 1, seen.push(nodes[i].name@), a),
        }
    }
}

/// The patch an output block gives.
pub open spec fn output_spec(nodes: Seq<Node>, tab_scoped: bool) -> Result<PatchView, Seq<char>> {
    options_from(nodes, tab_scoped, 0, Seq::empty(), empty_patch())
}

/// One top-level node of a layer, read into the layer.
pub open spec fn layer_step(n: Node, acc: ConfigPatchView) -> Result<ConfigPatchView, Seq<char>> {
    let kind = n.name@;
    if !plain_node(n) {
        Err("zjstatus '"@ + kind + "' does not accept properties or type annotations"@)
    } else if kind == "refresh_ms"@ {
        if acc.refresh_ms is Some {
            Err("duplicate zjstatus refresh_ms"@)
        } else {
            match refresh_value(n) {
                None => Err("zjstatus refresh_ms must be an integer in 1..=4294967295"@),
                Some(v) => Ok(ConfigPatchView { refresh_ms: Some(v), ..acc }),
            }
        }
    } else if kind != "pipe"@ && kind != "tab_pipe"@ {
        Err("unknown zjstatus option '"@ + kind
            + "'; legacy flat configuration is unsupported, use pipe \"name\" { ... } or tab_pipe \"field\" { ... }"@)
    } else {
        match single_text(n) {
            None => Err("zjstatus "@ + kind + " requires exactly one string name"@),
            Some(name) => if kind == "pipe"@ && !valid_scratchpad_name(name) {
                Err("invalid zjstatus pipe name: '"@ + name + "'"@)
            } else if kind == "tab_pipe"@ && !valid_tab_field(name) {
                Err("invalid zjstatus tab field '"@ + name + "'; expected [a-z0-9_]+"@)
            } else {
                match n.children {
                    None => Err("zjstatus "@ + kind + " \""@ + name
                        + "\" requires a child block; legacy flat configuration is unsupported"@),
                    Some(children) => match output_spec(children@, kind == "tab_pipe"@) {
                        Err(e) => Err("zjstatus "@ + kind + " \""@ + name + "\": "@ + e),
                        Ok(p) => if out_index(acc.outputs, (kind == "tab_pipe"@, name)) is Some {
                            Err("duplicate zjstatus "@ + kind + " \""@ + name + "\" in one layer"@)
                        } else {
                            Ok(ConfigPatchView { outputs: insert_output(acc.outputs, (kind == "tab_pipe"@, name), p), ..acc })
                        },
                    },
                }
            },
        }
    }
}

pub open spec fn layer_from(nodes: Seq<Node>, i: int, acc: ConfigPatchView) -> Result<ConfigPatchView, Seq<char>>
    decreases nodes.len() - i,
{
    if i < 0 || i >= nodes.len() {
        Ok(acc)
    } else {
        match layer_step(nodes[i], acc) {
            Err(e) => Err(e),
            Ok(a) => layer_from(nodes, i + 1, a),
        }
    }
}

/// The layer that a KDL document gives.
pub open spec fn layer_spec(nodes: Seq<Node>) -> Result<ConfigPatchView, Seq<char>> {
    layer_from(nodes, 0, ConfigPatchView { outputs: Seq::empty(), refresh_ms: None })
}

/// The layer that a KDL text gives, or why it gives none.
pub open spec fn layer_text_spec(text: Seq<char>) -> Result<ConfigPatchView, Seq<char>> {
    match kdl_parse_result(text) {
        Err(e) => Err("KDL parse error: "@ + e),
        Ok(nodes) => layer_spec(nodes@),
    }
}


fn plain(n: &Node) -> (b: bool)
    ensures
        b == plain_node(*n),
{
    if n.typed {
        return false;
    }
    let mut i: usize = 0;
    while i < n.entries.len()
        invariant
            i <= n.entries@.len(),
            !n.typed,
            forall|j: int| 0 <= j < i ==> !(#[trigger] n.entries@[j]).named && !n.entries@[j].typed,
        decreases n.entries.len() - i,
    {
        if n.entries[i].named || n.entries[i].typed {
            return false;
        }
        i = i + 1;
    }
    true
}

fn single_text_of(n: &Node) -> (r: Option<String>)
    ensures
        match r {
            Some(s) => single_text(*n) == Some(s@),
            None => single_text(*n) is None,
        },
{
    if n.entries.len() == 1 {
        crate::kdl_model::entry_string(&n.entries[0])
    } else {
        None
    }
}

fn single_bool_of(n: &Node) -> (r: Option<bool>)
    ensures
        r == single_bool(*n),
{
    if n.entries.len() == 1 {
        match &n.entries[0].value {
            Scalar::Boolean(b) => Some(*b),
            _ => None,
        }
    } else {
        None
    }
}

fn refresh_of(n: &Node) -> (r: Option<u32>)
    ensures
        r == refresh_value(*n),
{
    if n.children.is_none() && n.entries.len() == 1 {
        match &n.entries[0].value {
            Scalar::Integer(v) => if 0 < *v && *v <= 4294967295i64 { Some(*v as u32) } else { None },
            _ => None,
        }
    } else {
        None
    }
}

fn is_tab_field(name: &str) -> (b: bool)
    ensures
        b == valid_tab_field(name@),
{
    let cs = chars_of(name);
    if cs.len() == 0 {
        return false;
    }
    let mut i: usize = 0;
    while i < cs.len()
        invariant
            cs@ == name@,
            i <= cs@.len(),
            forall|j: int| 0 <= j < i ==> tab_field_char(#[trigger] cs@[j]),
        decreases cs.len() - i,
    {
        let c = cs[i];
        if !(('a' <= c && c <= 'z') || ('0' <= c && c <= '9') || c == '_') {
            return false;
        }
        i = i + 1;
    }
    true
}

fn all_entries_text(entries: &Vec<Entry>) -> (b: bool)
    ensures
        b == all_text(entries@),
{
    let mut i: usize = 0;
    while i < entries.len()
        invariant
            i <= entries@.len(),
            forall|j: int| 0 <= j < i ==> (#[trigger] entry_text(entries@[j])) is Some,
        decreases entries.len() - i,
    {
        match &entries[i].value {
            Scalar::Text(_) => {},
            _ => {
                assert(entry_text(entries@[i as int]) is None);
                return false;
            },
        }
        i = i + 1;
    }
    true
}

fn one_char(c: char) -> (r: Vec<char>)
    ensures
        r@ == seq![c],
{
    let mut r: Vec<char> = Vec::new();
    r.push(c);
    assert(r@ =~= seq![c]);
    r
}

fn is_known_suffix(s: &Vec<char>) -> (b: bool)
    ensures
        b == known_suffix(s@),
{
    let n = s.as_slice();
    crate::text::chars_eq(n, chars_of("items").as_slice())
        || crate::text::chars_eq(n, chars_of("configured_count").as_slice())
        || crate::text::chars_eq(n, chars_of("rendered_count").as_slice())
        || crate::text::chars_eq(n, chars_of("live_count").as_slice())
        || crate::text::chars_eq(n, chars_of("visible_count").as_slice())
        || crate::text::chars_eq(n, chars_of("hidden_count").as_slice())
        || crate::text::chars_eq(n, chars_of("closed_count").as_slice())
        || crate::text::chars_eq(n, chars_of("focused_name").as_slice())
        || crate::text::chars_eq(n, chars_of("focused_title").as_slice())
}

fn is_wrong_scope(d: &Vec<char>, tab_scoped: bool) -> (b: bool)
    ensures
        b == wrong_scope(d@, tab_scoped),
{
    proof { reveal_strlit("_"); }
    let us = one_char('_');
    assert(us@ == "_"@);
    match find_chars(d.as_slice(), us.as_slice()) {
        None => false,
        Some(i) => {
            proof { lemma_find_from_bounds(d@, us@, 0); }
            let len = d.len();
            assert(i + 1 <= len);
            let scope = slice_chars(d.as_slice(), 0, i);
            let suffix = slice_chars(d.as_slice(), i + 1, len);
            if !is_known_suffix(&suffix) {
                return false;
            }
            let sc = scope.as_slice();
            if tab_scoped {
                crate::text::chars_eq(sc, chars_of("current").as_slice()) || crate::text::chars_eq(sc, chars_of("other").as_slice())
            } else {
                crate::text::chars_eq(sc, chars_of("tab").as_slice())
            }
        },
    }
}

fn bad_placeholder_of(value: &str, tab_scoped: bool) -> (r: Option<Vec<char>>)
    ensures
        match r {
            Some(d) => bad_placeholder(value@, tab_scoped) == Some(d@),
            None => bad_placeholder(value@, tab_scoped) is None,
        },
{
    proof {
        reveal_strlit("{");
        reveal_strlit("}");
    }
    let cs = chars_of(value);
    let open = one_char('{');
    let close = one_char('}');
    assert(open@ == "{"@);
    assert(close@ == "}"@);
    let parts = split_chars(cs.as_slice(), open.as_slice());
    let ghost ps = split_on(value@, "{"@);
    assert(parts@.len() == ps.len());
    let mut k: usize = 1;
    while k < parts.len()
        invariant
            1 <= k,
            parts@.len() == ps.len(),
            forall|j: int| 0 <= j < parts@.len() ==> #[trigger] parts@[j]@ == ps[j],
            close@ == "}"@,
            bad_placeholder(value@, tab_scoped) == bad_placeholder_from(ps, k as int, tab_scoped),
        decreases parts.len() - k,
    {
        let part = &parts[k];
        assert(part@ == ps[k as int]);
        match find_chars(part.as_slice(), close.as_slice()) {
            Some(i) => {
                proof { lemma_find_from_bounds(part@, close@, 0); }
                let d = slice_chars(part.as_slice(), 0, i);
                if is_wrong_scope(&d, tab_scoped) {
                    return Some(d);
                }
            },
            None => {},
        }
        k = k + 1;
    }
    None
}

fn message3(a: &str, b: &str, c: &str) -> (r: String)
    ensures
        r@ == a@ + b@ + c@,
{
    let mut m: Vec<char> = Vec::new();
    push_str(&mut m, a);
    push_str(&mut m, b);
    push_str(&mut m, c);
    string_of(&m)
}

fn set_slot(p: &mut OutputPatch, slot: usize, v: String)
    requires
        patch_wf(old(p)@),
        slot < 26,
    ensures
        final(p)@ == (PatchView { strings: old(p)@.strings.update(slot as int, Some(v@)), ..old(p)@ }),
        patch_wf(final(p)@),
{
    let ghost before = p@;
    p.strings.set(slot, Some(v));
    assert(p@.strings =~= before.strings.update(slot as int, Some(v@)));
}

/// Read the option nodes of an output block.
fn parse_output(nodes: &Vec<Node>, tab_scoped: bool) -> (r: Result<OutputPatch, String>)
    ensures
        match r {
            Ok(p) => output_spec(nodes@, tab_scoped) == Ok::<PatchView, Seq<char>>(p@) && patch_wf(p@),
            Err(e) => output_spec(nodes@, tab_scoped) == Err::<PatchView, Seq<char>>(e@),
        },
{
    let mut acc = OutputPatch::new();
    let mut seen: Vec<String> = Vec::new();
    let mut i: usize = 0;
    assert(names(seen@) =~= Seq::<Seq<char>>::empty());
    while i < nodes.len()
        invariant
            i <= nodes@.len(),
            patch_wf(acc@),
            output_spec(nodes@, tab_scoped) == options_from(nodes@, tab_scoped, i as int, names(seen@), acc@),
        decreases nodes.len() - i,
    {
        let n = &nodes[i];
        let key = n.name.as_str();
        let ghost sv = names(seen@);
        assert(options_from(nodes@, tab_scoped, i as int, sv, acc@) == match option_step(*n, tab_scoped, sv, acc@) {
            Err(e) => Err(e),
            Ok(a) => options_from(nodes@, tab_scoped, i + 1, sv.push(n.name@), a),
        });
        if !plain(n) {
            return Err(message3("zjstatus '", key, "' does not accept properties or type annotations"));
        }
        if has_name(&seen, key) {
            return Err(message3("duplicate option '", key, "'"));
        }
        if n.children.is_some() {
            return Err(message3("option '", key, "' does not accept a child block"));
        }
        if str_equals(key, "enabled") {
            match single_bool_of(n) {
                Some(b) => acc.enabled = Some(b),
                None => return Err(crate::text::to_string("enabled requires exactly one KDL boolean")),
            }
        } else if str_equals(key, "source") {
            let t = match single_text_of(n) {
                Some(t) => t,
                None => return Err(crate::text::to_string("source requires \"scratchpad\" or \"pane-status\"")),
            };
            if str_equals(t.as_str(), "scratchpad") {
                acc.source = Some(OutputSource::Scratchpad);
            } else if str_equals(t.as_str(), "pane-status") {
                acc.source = Some(OutputSource::PaneStatus);
            } else {
                return Err(crate::text::to_string("source requires \"scratchpad\" or \"pane-status\""));
            }
        } else if str_equals(key, "include") || str_equals(key, "exclude") {
            if !all_entries_text(&n.entries) {
                return Err(message3("'", key, "' requires string arguments"));
            }
            let values = collect_string_entries(&n.entries);
            assert(names(values@) =~= string_entries(n.entries@));
            if str_equals(key, "include") {
                acc.selected = Some(values);
            } else {
                acc.exclude = Some(values);
            }
        } else {
            let slot = match crate::zjstatus::config::option_slot_of(key) {
                Some(slot) => slot,
                None => return Err(message3("unknown option '", key, "'")),
            };
            let kc = chars_of(key);
            let cur = chars_of("current_");
            let tab = chars_of("tab_");
            let starts_current = cur.len() <= kc.len() && crate::text::chars_eq(slice_chars(kc.as_slice(), 0, cur.len()).as_slice(), cur.as_slice());
            let starts_tab = tab.len() <= kc.len() && crate::text::chars_eq(slice_chars(kc.as_slice(), 0, tab.len()).as_slice(), tab.as_slice());
            if (tab_scoped && starts_current) || (!tab_scoped && starts_tab) {
                return Err(message3("unsupported scope in option '", key, "'"));
            }
            let v = match single_text_of(n) {
                Some(v) => v,
                None => return Err(message3("'", key, "' requires exactly one string")),
            };
            match bad_placeholder_of(v.as_str(), tab_scoped) {
                Some(d) => {
                    let mut m: Vec<char> = Vec::new();
                    push_str(&mut m, "unsupported scope in placeholder '{");
                    push_chars(&mut m, d.as_slice());
                    push_str(&mut m, "}' in '");
                    push_str(&mut m, key);
                    push_str(&mut m, "'");
                    return Err(string_of(&m));
                },
                None => {},
            }
            assert(slot < 26) by {
                assert(option_slot(key@) == Some(slot as int));
            }
            set_slot(&mut acc, slot, v);
        }
        seen.push(n.name.clone());
        assert(names(seen@) =~= sv.push(n.name@));
        i = i + 1;
    }
    Ok(acc)
}

fn message5(a: &str, b: &str, c: &str, d: &str, e: &str) -> (r: String)
    ensures
        r@ == a@ + b@ + c@ + d@ + e@,
{
    let mut m: Vec<char> = Vec::new();
    push_str(&mut m, a);
    push_str(&mut m, b);
    push_str(&mut m, c);
    push_str(&mut m, d);
    push_str(&mut m, e);
    string_of(&m)
}

/// Read a configuration layer from the top-level nodes of a KDL document.
pub fn parse_zjstatus_config_doc(nodes: &Vec<Node>) -> (r: Result<ZjstatusConfigPatch, String>)
    ensures
        match r {
            Ok(p) => layer_spec(nodes@) == Ok::<ConfigPatchView, Seq<char>>(p@) && p.wf(),
            Err(e) => layer_spec(nodes@) == Err::<ConfigPatchView, Seq<char>>(e@),
        },
{
    let mut acc = ZjstatusConfigPatch::new();
    let mut i: usize = 0;
    while i < nodes.len()
        invariant
            i <= nodes@.len(),
            acc.wf(),
            layer_spec(nodes@) == layer_from(nodes@, i as int, acc@),
        decreases nodes.len() - i,
    {
        let n = &nodes[i];
        let kind = n.name.as_str();
        assert(layer_from(nodes@, i as int, acc@) == match layer_step(*n, acc@) {
            Err(e) => Err(e),
            Ok(a) => layer_from(nodes@, i + 1, a),
        });
        if !plain(n) {
            return Err(message3("zjstatus '", kind, "' does not accept properties or type annotations"));
        }
        if str_equals(kind, "refresh_ms") {
            if acc.refresh().is_some() {
                return Err(crate::text::to_string("duplicate zjstatus refresh_ms"));
            }
            match refresh_of(n) {
                Some(v) => acc.set_refresh(v),
                None => return Err(crate::text::to_string("zjstatus refresh_ms must be an integer in 1..=4294967295")),
            }
        } else {
            let is_pipe = str_equals(kind, "pipe");
            let is_tab = str_equals(kind, "tab_pipe");
            if !is_pipe && !is_tab {
                return Err(message3("unknown zjstatus option '", kind,
                    "'; legacy flat configuration is unsupported, use pipe \"name\" { ... } or tab_pipe \"field\" { ... }"));
            }
            let name = match single_text_of(n) {
                Some(name) => name,
                None => return Err(message3("zjstatus ", kind, " requires exactly one string name")),
            };
            if is_pipe && !is_valid_scratchpad_name(name.as_str()) {
                return Err(message3("invalid zjstatus pipe name: '", name.as_str(), "'"));
            }
            if is_tab && !is_tab_field(name.as_str()) {
                return Err(message3("invalid zjstatus tab field '", name.as_str(), "'; expected [a-z0-9_]+"));
            }
            let children = match &n.children {
                Some(c) => c,
                None => return Err(message5("zjstatus ", kind, " \"", name.as_str(),
                    "\" requires a child block; legacy flat configuration is unsupported")),
            };
            let output = match parse_output(children, is_tab) {
                Ok(p) => p,
                Err(e) => {
                    let mut m: Vec<char> = Vec::new();
                    push_str(&mut m, "zjstatus ");
                    push_str(&mut m, kind);
                    push_str(&mut m, " \"");
                    push_str(&mut m, name.as_str());
                    push_str(&mut m, "\": ");
                    push_str(&mut m, e.as_str());
                    return Err(string_of(&m));
                },
            };
            let key = if is_tab { OutputKey::Tab(name.clone()) } else { OutputKey::Global(name.clone()) };
            assert(key_view(key) == (kind@ == "tab_pipe"@, name@));
            if acc.has_output(&key) {
                return Err(message5("duplicate zjstatus ", kind, " \"", name.as_str(), "\" in one layer"));
            }
            acc.add_output(key, output);
        }
        i = i + 1;
    }
    Ok(acc)
}

/// Read a configuration layer from KDL text.
pub fn parse_zjstatus_config_kdl(input: &str) -> (r: Result<ZjstatusConfigPatch, String>)
    ensures
        match r {
            Ok(p) => layer_text_spec(input@) == Ok::<ConfigPatchView, Seq<char>>(p@) && p.wf(),
            Err(e) => layer_text_spec(input@) == Err::<ConfigPatchView, Seq<char>>(e@),
        },
{
    match parse_kdl(input) {
        Ok(nodes) => {
            let r = parse_zjstatus_config_doc(&nodes);
            assert(kdl_parse_result(input@) == Ok::<Vec<Node>, Seq<char>>(nodes));
            r
        },
        Err(e) => {
            let mut m: Vec<char> = Vec::new();
            push_str(&mut m, "KDL parse error: ");
            push_str(&mut m, e.as_str());
            Err(string_of(&m))
        },
    }
}
} // verus!
