//! Configuration layers of the zjstatus integration: one patch per layer,
//! merged output by output, then finalized with defaults.

use vstd::prelude::*;
use crate::kdl_model::{entry_text, string_entries, Entry, Node, Scalar};
use crate::text::{chars_of, decimal, is_prefix, push_chars, push_decimal, push_str, str_equals, string_of};
use crate::zjstatus::render::{names, sv, text_lt, OutputConfig, OutputSource};

verus! {

/// The identity of an output: global pipe names and tab fields are separate namespaces.
#[derive(Debug, Clone, PartialEq, Eq)]
pub enum OutputKey {
    Global(String),
    Tab(String),
}

/// An output key as a flag (tab field or not) and a name.
pub open spec fn key_view(k: OutputKey) -> (bool, Seq<char>) {
    match k {
        OutputKey::Global(n) => (false, n@),
        OutputKey::Tab(n) => (true, n@),
    }
}

/// The order of output keys: global names before tab fields, then by name.
pub open spec fn key_lt(a: (bool, Seq<char>), b: (bool, Seq<char>)) -> bool {
    (!a.0 && b.0) || (a.0 == b.0 && text_lt(a.1, b.1))
}

/// The string options of an output, in the order of their slots.
pub open spec fn option_names() -> Seq<Seq<char>> {
    seq![        "format"@,
        "empty_format"@,
        "item_format"@,
        "item_visible_format"@,
        "item_hidden_format"@,
        "item_closed_format"@,
        "current_item_format"@,
        "current_item_focused_format"@,
        "current_item_mru_format"@,
        "current_item_visible_format"@,
        "current_item_hidden_format"@,
        "current_item_closed_format"@,
        "global_item_format"@,
        "global_item_visible_format"@,
        "global_item_hidden_format"@,
        "global_item_closed_format"@,
        "tab_item_format"@,
        "tab_item_focused_format"@,
        "tab_item_mru_format"@,
        "tab_item_visible_format"@,
        "tab_item_hidden_format"@,
        "tab_item_closed_format"@,
        "item_separator"@,
        "current_item_separator"@,
        "global_item_separator"@,
        "tab_item_separator"@
    ]
}

/// The slot of a string option.
pub open spec fn option_slot(key: Seq<char>) -> Option<int> {
    if key == "format"@ {
        Some(0)
    } else if key == "empty_format"@ {
        Some(1)
    } else if key == "item_format"@ {
        Some(2)
    } else if key == "item_visible_format"@ {
        Some(3)
    } else if key == "item_hidden_format"@ {
        Some(4)
    } else if key == "item_closed_format"@ {
        Some(5)
    } else if key == "current_item_format"@ {
        Some(6)
    } else if key == "current_item_focused_format"@ {
        Some(7)
    } else if key == "current_item_mru_format"@ {
        Some(8)
    } else if key == "current_item_visible_format"@ {
        Some(9)
    } else if key == "current_item_hidden_format"@ {
        Some(10)
    } else if key == "current_item_closed_format"@ {
        Some(11)
    } else if key == "global_item_format"@ {
        Some(12)
    } else if key == "global_item_visible_format"@ {
        Some(13)
    } else if key == "global_item_hidden_format"@ {
        Some(14)
    } else if key == "global_item_closed_format"@ {
        Some(15)
    } else if key == "tab_item_format"@ {
        Some(16)
    } else if key == "tab_item_focused_format"@ {
        Some(17)
    } else if key == "tab_item_mru_format"@ {
        Some(18)
    } else if key == "tab_item_visible_format"@ {
        Some(19)
    } else if key == "tab_item_hidden_format"@ {
        Some(20)
    } else if key == "tab_item_closed_format"@ {
        Some(21)
    } else if key == "item_separator"@ {
        Some(22)
    } else if key == "current_item_separator"@ {
        Some(23)
    } else if key == "global_item_separator"@ {
        Some(24)
    } else if key == "tab_item_separator"@ {
        Some(25)
    } else {
        None
    }
}

/// The slots of the options that only a scratchpad output accepts, in the
/// order they are checked.
pub open spec fn scratchpad_only_slots() -> Seq<int> {
    seq![3, 4, 5, 8, 9, 10, 11, 18, 19, 20, 21, 12, 13, 14, 15, 24]
}

/// One layer's settings for an output; absent settings leave the lower layers'.
#[derive(Debug, Clone)]
pub struct OutputPatch {
    pub source: Option<OutputSource>,
    pub enabled: Option<bool>,
    /// One value per string option, by slot.
    pub strings: Vec<Option<String>>,
    pub selected: Option<Vec<String>>,
    pub exclude: Option<Vec<String>>,
}

pub struct PatchView {
    pub source: Option<OutputSource>,
    pub enabled: Option<bool>,
    pub strings: Seq<Option<Seq<char>>>,
    pub selected: Option<Seq<Seq<char>>>,
    pub exclude: Option<Seq<Seq<char>>>,
}

pub open spec fn opt_names(o: Option<Vec<String>>) -> Option<Seq<Seq<char>>> {
    match o {
        Some(v) => Some(names(v@)),
        None => None,
    }
}

impl View for OutputPatch {
    type V = PatchView;

    open spec fn view(&self) -> PatchView {
        PatchView {
            source: self.source,
            enabled: self.enabled,
            strings: self.strings@.map_values(|o: Option<String>| sv(o)),
            selected: opt_names(self.selected),
            exclude: opt_names(self.exclude),
        }
    }
}

pub open spec fn empty_patch() -> PatchView {
    PatchView {
        source: None,
        enabled: None,
        strings: Seq::new(26, |i: int| None),
        selected: None,
        exclude: None,
    }
}

/// A patch whose string table has a slot for every option.
pub open spec fn patch_wf(p: PatchView) -> bool {
    p.strings.len() == 26
}

pub open spec fn over<T>(a: Option<T>, b: Option<T>) -> Option<T> {
    match b {
        Some(x) => Some(x),
        None => a,
    }
}

/// Layer `b` over `a`: each setting that `b` has replaces `a`'s.
pub open spec fn overlay_patch(a: PatchView, b: PatchView) -> PatchView {
    PatchView {
        source: over(a.source, b.source),
        enabled: over(a.enabled, b.enabled),
        strings: Seq::new(26, |i: int| over(a.strings[i], b.strings[i])),
        selected: over(a.selected, b.selected),
        exclude: over(a.exclude, b.exclude),
    }
}

pub open spec fn text_or(o: Option<Seq<char>>, d: Seq<char>) -> Seq<char> {
    match o {
        Some(s) => s,
        None => d,
    }
}

/// The configuration an output gets from its merged patch.
pub open spec fn config_from_patch(c: OutputConfig, p: PatchView, tab_scoped: bool) -> bool {
    let source = match p.source { Some(s) => s, None => OutputSource::Scratchpad };
    &&& c.enabled == match p.enabled { Some(b) => b, None => true }
    &&& c.source == source
    &&& c.tab_scoped == tab_scoped
    &&& c.format@ == text_or(p.strings[0], if tab_scoped { "{tab_items}"@ } else { "{current_items}"@ })
    &&& c.empty_format@ == text_or(p.strings[1], Seq::empty())
    &&& c.item_format@ == text_or(p.strings[2], match source {
        OutputSource::Scratchpad => "{icon} {name}"@,
        OutputSource::PaneStatus => "{status}"@,
    })
    &&& sv(c.item_visible_format) == p.strings[3]
    &&& sv(c.item_hidden_format) == p.strings[4]
    &&& sv(c.item_closed_format) == p.strings[5]
    &&& sv(c.current_item_format) == p.strings[6]
    &&& sv(c.current_item_focused_format) == p.strings[7]
    &&& sv(c.current_item_mru_format) == p.strings[8]
    &&& sv(c.current_item_visible_format) == p.strings[9]
    &&& sv(c.current_item_hidden_format) == p.strings[10]
    &&& sv(c.current_item_closed_format) == p.strings[11]
    &&& sv(c.global_item_format) == p.strings[12]
    &&& sv(c.global_item_visible_format) == p.strings[13]
    &&& sv(c.global_item_hidden_format) == p.strings[14]
    &&& sv(c.global_item_closed_format) == p.strings[15]
    &&& sv(c.tab_item_format) == p.strings[16]
    &&& sv(c.tab_item_focused_format) == p.strings[17]
    &&& sv(c.tab_item_mru_format) == p.strings[18]
    &&& sv(c.tab_item_visible_format) == p.strings[19]
    &&& sv(c.tab_item_hidden_format) == p.strings[20]
    &&& sv(c.tab_item_closed_format) == p.strings[21]
    &&& sv(c.current_item_separator) == p.strings[23]
    &&& sv(c.global_item_separator) == p.strings[24]
    &&& sv(c.tab_item_separator) == p.strings[25]
    &&& c.item_separator@ == text_or(p.strings[22], " "@)
    &&& names(c.selected@) == match p.selected { Some(v) => v, None => Seq::empty() }
    &&& names(c.exclude@) == match p.exclude { Some(v) => v, None => Seq::empty() }
}

/// Why a pane-status output cannot take its patch: the first option it sets
/// that only a scratchpad output accepts.
pub open spec fn source_error(p: PatchView) -> Option<Seq<char>> {
    if p.source != Some(OutputSource::PaneStatus) {
        None
    } else {
        first_set_slot(p, 0)
    }
}

pub open spec fn first_set_slot(p: PatchView, k: int) -> Option<Seq<char>>
    decreases 16 - k,
{
    if k < 0 || k >= 16 {
        None
    } else if p.strings[scratchpad_only_slots()[k]] is Some {
        Some("'"@ + option_names()[scratchpad_only_slots()[k]] + "' is only supported by source \"scratchpad\""@)
    } else {
        first_set_slot(p, k + 1)
    }
}

pub(crate) fn option_slot_of(key: &str) -> (r: Option<usize>)
    ensures
        match r {
            Some(i) => option_slot(key@) == Some(i as int),
            None => option_slot(key@) is None,
        },
{
    if str_equals(key, "format") {
        return Some(0);
    }
    if str_equals(key, "empty_format") {
        return Some(1);
    }
    if str_equals(key, "item_format") {
        return Some(2);
    }
    if str_equals(key, "item_visible_format") {
        return Some(3);
    }
    if str_equals(key, "item_hidden_format") {
        return Some(4);
    }
    if str_equals(key, "item_closed_format") {
        return Some(5);
    }
    if str_equals(key, "current_item_format") {
        return Some(6);
    }
    if str_equals(key, "current_item_focused_format") {
        return Some(7);
    }
    if str_equals(key, "current_item_mru_format") {
        return Some(8);
    }
    if str_equals(key, "current_item_visible_format") {
        return Some(9);
    }
    if str_equals(key, "current_item_hidden_format") {
        return Some(10);
    }
    if str_equals(key, "current_item_closed_format") {
        return Some(11);
    }
    if str_equals(key, "global_item_format") {
        return Some(12);
    }
    if str_equals(key, "global_item_visible_format") {
        return Some(13);
    }
    if str_equals(key, "global_item_hidden_format") {
        return Some(14);
    }
    if str_equals(key, "global_item_closed_format") {
        return Some(15);
    }
    if str_equals(key, "tab_item_format") {
        return Some(16);
    }
    if str_equals(key, "tab_item_focused_format") {
        return Some(17);
    }
    if str_equals(key, "tab_item_mru_format") {
        return Some(18);
    }
    if str_equals(key, "tab_item_visible_format") {
        return Some(19);
    }
    if str_equals(key, "tab_item_hidden_format") {
        return Some(20);
    }
    if str_equals(key, "tab_item_closed_format") {
        return Some(21);
    }
    if str_equals(key, "item_separator") {
        return Some(22);
    }
    if str_equals(key, "current_item_separator") {
        return Some(23);
    }
    if str_equals(key, "global_item_separator") {
        return Some(24);
    }
    if str_equals(key, "tab_item_separator") {
        return Some(25);
    }
    None
}

fn option_name(slot: usize) -> (r: &'static str)
    requires
        slot < 26,
    ensures
        r@ == option_names()[slot as int],
{
    if slot == 0 {
        "format"
    }     else if slot == 1 {
        "empty_format"
    }     else if slot == 2 {
        "item_format"
    }     else if slot == 3 {
        "item_visible_format"
    }     else if slot == 4 {
        "item_hidden_format"
    }     else if slot == 5 {
        "item_closed_format"
    }     else if slot == 6 {
        "current_item_format"
    }     else if slot == 7 {
        "current_item_focused_format"
    }     else if slot == 8 {
        "current_item_mru_format"
    }     else if slot == 9 {
        "current_item_visible_format"
    }     else if slot == 10 {
        "current_item_hidden_format"
    }     else if slot == 11 {
        "current_item_closed_format"
    }     else if slot == 12 {
        "global_item_format"
    }     else if slot == 13 {
        "global_item_visible_format"
    }     else if slot == 14 {
        "global_item_hidden_format"
    }     else if slot == 15 {
        "global_item_closed_format"
    }     else if slot == 16 {
        "tab_item_format"
    }     else if slot == 17 {
        "tab_item_focused_format"
    }     else if slot == 18 {
        "tab_item_mru_format"
    }     else if slot == 19 {
        "tab_item_visible_format"
    }     else if slot == 20 {
        "tab_item_hidden_format"
    }     else if slot == 21 {
        "tab_item_closed_format"
    }     else if slot == 22 {
        "item_separator"
    }     else if slot == 23 {
        "current_item_separator"
    }     else if slot == 24 {
        "global_item_separator"
    }     else if slot == 25 {
        "tab_item_separator"
    } else {
        "tab_item_separator"
    }
}

fn scratchpad_only_slot(k: usize) -> (r: usize)
    requires
        k < 16,
    ensures
        r as int == scratchpad_only_slots()[k as int],
        r < 26,
{
    if k == 0 {
        3
    }     else if k == 1 {
        4
    }     else if k == 2 {
        5
    }     else if k == 3 {
        8
    }     else if k == 4 {
        9
    }     else if k == 5 {
        10
    }     else if k == 6 {
        11
    }     else if k == 7 {
        18
    }     else if k == 8 {
        19
    }     else if k == 9 {
        20
    }     else if k == 10 {
        21
    }     else if k == 11 {
        12
    }     else if k == 12 {
        13
    }     else if k == 13 {
        14
    }     else if k == 14 {
        15
    }     else if k == 15 {
        24
    } else {
        24
    }
}

fn copy_text(o: &Option<String>) -> (r: Option<String>)
    ensures
        r == *o,
{
    match o {
        Some(s) => Some(s.clone()),
        None => None,
    }
}

fn copy_names(v: &Vec<String>) -> (r: Vec<String>)
    ensures
        names(r@) == names(v@),
{
    let mut r: Vec<String> = Vec::new();
    let mut i: usize = 0;
    while i < v.len()
        invariant
            i <= v@.len(),
            r@.len() == i,
            forall|j: int| 0 <= j < i ==> #[trigger] r@[j]@ == v@[j]@,
        decreases v.len() - i,
    {
        r.push(v[i].clone());
        i = i + 1;
    }
    assert(names(r@) =~= names(v@));
    r
}

fn slot_text(p: &OutputPatch, slot: usize) -> (r: Option<String>)
    requires
        patch_wf(p@),
        slot < 26,
    ensures
        sv(r) == p@.strings[slot as int],
{
    assert(p@.strings[slot as int] == sv(p.strings@[slot as int]));
    copy_text(&p.strings[slot])
}

impl OutputPatch {
    /// A patch that sets nothing.
    pub fn new() -> (p: OutputPatch)
        ensures
            p@ == empty_patch(),
    {
        let mut strings: Vec<Option<String>> = Vec::new();
        let mut i: usize = 0;
        while i < 26
            invariant
                i <= 26,
                strings@.len() == i,
                forall|j: int| 0 <= j < i ==> #[trigger] strings@[j] is None,
            decreases 26 - i,
        {
            strings.push(None);
            i = i + 1;
        }
        let p = OutputPatch { source: None, enabled: None, strings, selected: None, exclude: None };
        assert(p@.strings =~= empty_patch().strings);
        p
    }

    /// Check that a pane-status output sets no scratchpad-only option.
    pub fn validate_source(&self) -> (r: Result<(), String>)
        requires
            patch_wf(self@),
        ensures
            match source_error(self@) {
                None => r is Ok,
                Some(e) => r matches Err(m) && m@ == e,
            },
    {
        match self.source {
            Some(OutputSource::PaneStatus) => {},
            _ => return Ok(()),
        }
        let mut k: usize = 0;
        while k < 16
            invariant
                k <= 16,
                patch_wf(self@),
                self.source == Some(OutputSource::PaneStatus),
                source_error(self@) == first_set_slot(self@, k as int),
            decreases 16 - k,
        {
            let slot = scratchpad_only_slot(k);
            assert(self@.strings[slot as int] == sv(self.strings@[slot as int]));
            if self.strings[slot].is_some() {
                let mut m: Vec<char> = Vec::new();
                push_str(&mut m, "'");
                push_str(&mut m, option_name(slot));
                push_str(&mut m, "' is only supported by source \"scratchpad\"");
                return Err(string_of(&m));
            }
            k = k + 1;
        }
        Ok(())
    }

    /// Lay `other` over this patch.
    pub fn overlay(&mut self, other: OutputPatch)
        requires
            patch_wf(old(self)@),
            patch_wf(other@),
        ensures
            final(self)@ == overlay_patch(old(self)@, other@),
    {
        let ghost a = self@;
        let ghost b = other@;
        let OutputPatch { source, enabled, strings, selected, exclude } = other;
        if source.is_some() { self.source = source; }
        if enabled.is_some() { self.enabled = enabled; }
        if selected.is_some() { self.selected = selected; }
        if exclude.is_some() { self.exclude = exclude; }
        let mut i: usize = 0;
        while i < 26
            invariant
                i <= 26,
                self.strings@.len() == 26,
                strings@.len() == 26,
                a.strings.len() == 26,
                b.strings.len() == 26,
                forall|j: int| 0 <= j < 26 ==> #[trigger] b.strings[j] == sv(strings@[j]),
                forall|j: int| 0 <= j < i ==> #[trigger] sv(self.strings@[j]) == over(a.strings[j], b.strings[j]),
                forall|j: int| i <= j < 26 ==> #[trigger] sv(self.strings@[j]) == a.strings[j],
                self.source == over(a.source, b.source),
                self.enabled == over(a.enabled, b.enabled),
                opt_names(self.selected) == over(a.selected, b.selected),
                opt_names(self.exclude) == over(a.exclude, b.exclude),
            decreases 26 - i,
        {
            match &strings[i] {
                Some(s) => {
                    self.strings.set(i, Some(s.clone()));
                },
                None => {},
            }
            i = i + 1;
        }
        assert(self@.strings =~= overlay_patch(a, b).strings);
    }

    /// Finalize with the defaults of an output's kind.
    pub fn to_config(&self, tab_scoped: bool) -> (c: OutputConfig)
        requires
            patch_wf(self@),
        ensures
            config_from_patch(c, self@, tab_scoped),
    {
        let source = match self.source { Some(s) => s, None => OutputSource::Scratchpad };
        let format = match slot_text(self, 0) {
            Some(s) => s,
            None => crate::text::to_string(if tab_scoped { "{tab_items}" } else { "{current_items}" }),
        };
        let empty_format = match slot_text(self, 1) { Some(s) => s, None => String::new() };
        let item_format = match slot_text(self, 2) {
            Some(s) => s,
            None => crate::text::to_string(match source {
                OutputSource::Scratchpad => "{icon} {name}",
                OutputSource::PaneStatus => "{status}",
            }),
        };
        let item_separator = match slot_text(self, 22) { Some(s) => s, None => crate::text::to_string(" ") };
        let selected = match &self.selected {
            Some(v) => copy_names(v),
            None => {
                let e: Vec<String> = Vec::new();
                assert(names(e@) =~= Seq::<Seq<char>>::empty());
                e
            },
        };
        let exclude = match &self.exclude {
            Some(v) => copy_names(v),
            None => {
                let e: Vec<String> = Vec::new();
                assert(names(e@) =~= Seq::<Seq<char>>::empty());
                e
            },
        };
        OutputConfig {
            enabled: match self.enabled { Some(b) => b, None => true },
            source,
            tab_scoped,
            format,
            empty_format,
            item_format,
            item_visible_format: slot_text(self, 3),
            item_hidden_format: slot_text(self, 4),
            item_closed_format: slot_text(self, 5),
            current_item_format: slot_text(self, 6),
            current_item_focused_format: slot_text(self, 7),
            current_item_mru_format: slot_text(self, 8),
            current_item_visible_format: slot_text(self, 9),
            current_item_hidden_format: slot_text(self, 10),
            current_item_closed_format: slot_text(self, 11),
            global_item_format: slot_text(self, 12),
            global_item_visible_format: slot_text(self, 13),
            global_item_hidden_format: slot_text(self, 14),
            global_item_closed_format: slot_text(self, 15),
            tab_item_format: slot_text(self, 16),
            tab_item_focused_format: slot_text(self, 17),
            tab_item_mru_format: slot_text(self, 18),
            tab_item_visible_format: slot_text(self, 19),
            tab_item_hidden_format: slot_text(self, 20),
            tab_item_closed_format: slot_text(self, 21),
            current_item_separator: slot_text(self, 23),
            global_item_separator: slot_text(self, 24),
            tab_item_separator: slot_text(self, 25),
            item_separator,
            selected,
            exclude,
        }
    }
}


// ---------------------------------------------------------------------------
// Layers

/// One configuration layer: the outputs it configures, by key in key order,
/// and its refresh interval.
#[derive(Debug, Clone, Default)]
pub struct ZjstatusConfigPatch {
    outputs: Vec<(OutputKey, OutputPatch)>,
    refresh_ms: Option<u32>,
}

pub struct ConfigPatchView {
    pub outputs: Seq<((bool, Seq<char>), PatchView)>,
    pub refresh_ms: Option<u32>,
}

pub open spec fn outputs_view(v: Seq<(OutputKey, OutputPatch)>) -> Seq<((bool, Seq<char>), PatchView)> {
    v.map_values(|e: (OutputKey, OutputPatch)| (key_view(e.0), e.1@))
}

impl View for ZjstatusConfigPatch {
    type V = ConfigPatchView;

    closed spec fn view(&self) -> ConfigPatchView {
        ConfigPatchView { outputs: outputs_view(self.outputs@), refresh_ms: self.refresh_ms }
    }
}

/// Every output patch has a slot for every option, and no two outputs share
/// an identity.
pub open spec fn config_patch_wf(v: ConfigPatchView) -> bool {
    &&& forall|i: int| 0 <= i < v.outputs.len() ==> patch_wf(#[trigger] v.outputs[i].1)
    &&& out_keys_unique(v.outputs)
}

impl ZjstatusConfigPatch {
    pub open spec fn wf(&self) -> bool {
        config_patch_wf(self@)
    }
}

/// Index of the output with this key.
pub open spec fn out_index(outs: Seq<((bool, Seq<char>), PatchView)>, k: (bool, Seq<char>)) -> Option<int>
    decreases outs.len(),
{
    if outs.len() == 0 {
        None
    } else {
        match out_index(outs.drop_last(), k) {
            Some(i) => Some(i),
            None => if outs.last().0 == k { Some(outs.len() - 1) } else { None },
        }
    }
}

pub proof fn lemma_out_index(outs: Seq<((bool, Seq<char>), PatchView)>, k: (bool, Seq<char>))
    ensures
        match out_index(outs, k) {
            Some(i) => 0 <= i < outs.len() && outs[i].0 == k && forall|j: int| 0 <= j < i ==> #[trigger] outs[j].0 != k,
            None => forall|j: int| 0 <= j < outs.len() ==> #[trigger] outs[j].0 != k,
        },
    decreases outs.len(),
{
    if outs.len() > 0 {
        lemma_out_index(outs.drop_last(), k);
        assert forall|j: int| 0 <= j < outs.len() - 1 implies #[trigger] outs[j] == outs.drop_last()[j] by {}
    }
}

/// Insert an output in key order, after every output whose key is not greater.
pub open spec fn insert_output(outs: Seq<((bool, Seq<char>), PatchView)>, k: (bool, Seq<char>), p: PatchView) -> Seq<((bool, Seq<char>), PatchView)>
    decreases outs.len(),
{
    if outs.len() == 0 {
        seq![(k, p)]
    } else if key_lt(k, outs.last().0) {
        insert_output(outs.drop_last(), k, p).push(outs.last())
    } else {
        outs.push((k, p))
    }
}

/// Lay one output patch over the output of the same key, or add it.
pub open spec fn merge_output(outs: Seq<((bool, Seq<char>), PatchView)>, k: (bool, Seq<char>), p: PatchView) -> Seq<((bool, Seq<char>), PatchView)> {
    match out_index(outs, k) {
        Some(i) => outs.update(i, (k, overlay_patch(outs[i].1, p))),
        None => insert_output(outs, k, overlay_patch(empty_patch(), p)),
    }
}

pub open spec fn merge_outputs(outs: Seq<((bool, Seq<char>), PatchView)>, more: Seq<((bool, Seq<char>), PatchView)>) -> Seq<((bool, Seq<char>), PatchView)>
    decreases more.len(),
{
    if more.len() == 0 {
        outs
    } else {
        merge_output(merge_outputs(outs, more.drop_last()), more.last().0, more.last().1)
    }
}

/// Layer `b` over `a`.
pub open spec fn overlay_config(a: ConfigPatchView, b: ConfigPatchView) -> ConfigPatchView {
    ConfigPatchView { outputs: merge_outputs(a.outputs, b.outputs), refresh_ms: over(a.refresh_ms, b.refresh_ms) }
}

proof fn lemma_insert_output_wf(outs: Seq<((bool, Seq<char>), PatchView)>, k: (bool, Seq<char>), p: PatchView)
    requires
        forall|i: int| 0 <= i < outs.len() ==> patch_wf(#[trigger] outs[i].1),
        patch_wf(p),
    ensures
        forall|i: int| 0 <= i < insert_output(outs, k, p).len() ==> patch_wf(#[trigger] insert_output(outs, k, p)[i].1),
    decreases outs.len(),
{
    if outs.len() > 0 && key_lt(k, outs.last().0) {
        assert forall|i: int| 0 <= i < outs.drop_last().len() implies patch_wf(#[trigger] outs.drop_last()[i].1) by {
            assert(outs.drop_last()[i] == outs[i]);
        }
        lemma_insert_output_wf(outs.drop_last(), k, p);
        let r = insert_output(outs, k, p);
        let q = insert_output(outs.drop_last(), k, p);
        assert forall|i: int| 0 <= i < r.len() implies patch_wf(#[trigger] r[i].1) by {
            if i < q.len() { assert(r[i] == q[i]); } else { assert(r[i] == outs.last()); }
        }
    }
}

fn key_less(a: &OutputKey, b: &OutputKey) -> (r: bool)
    ensures
        r == key_lt(key_view(*a), key_view(*b)),
{
    match (a, b) {
        (OutputKey::Global(_), OutputKey::Tab(_)) => true,
        (OutputKey::Tab(_), OutputKey::Global(_)) => false,
        (OutputKey::Global(x), OutputKey::Global(y)) => crate::zjstatus::render::name_less(x.as_str(), y.as_str()),
        (OutputKey::Tab(x), OutputKey::Tab(y)) => crate::zjstatus::render::name_less(x.as_str(), y.as_str()),
    }
}

fn key_equal(a: &OutputKey, b: &OutputKey) -> (r: bool)
    ensures
        r == (key_view(*a) == key_view(*b)),
{
    match (a, b) {
        (OutputKey::Global(x), OutputKey::Global(y)) => str_equals(x.as_str(), y.as_str()),
        (OutputKey::Tab(x), OutputKey::Tab(y)) => str_equals(x.as_str(), y.as_str()),
        _ => false,
    }
}

fn find_output(outs: &Vec<(OutputKey, OutputPatch)>, k: &OutputKey) -> (r: Option<usize>)
    ensures
        match r {
            Some(i) => out_index(outputs_view(outs@), key_view(*k)) == Some(i as int) && i < outs@.len(),
            None => out_index(outputs_view(outs@), key_view(*k)) is None,
        },
{
    let ghost v = outputs_view(outs@);
    proof { lemma_out_index(v, key_view(*k)); }
    let mut i: usize = 0;
    while i < outs.len()
        invariant
            i <= outs@.len(),
            v == outputs_view(outs@),
            v.len() == outs@.len(),
            forall|j: int| 0 <= j < i ==> #[trigger] v[j].0 != key_view(*k),
            match out_index(v, key_view(*k)) {
                Some(m) => 0 <= m < v.len() && v[m].0 == key_view(*k) && forall|j: int| 0 <= j < m ==> #[trigger] v[j].0 != key_view(*k),
                None => forall|j: int| 0 <= j < v.len() ==> #[trigger] v[j].0 != key_view(*k),
            },
        decreases outs.len() - i,
    {
        assert(v[i as int].0 == key_view(outs@[i as int].0));
        if key_equal(&outs[i].0, k) {
            return Some(i);
        }
        i = i + 1;
    }
    None
}

fn insert_output_exec(outs: &mut Vec<(OutputKey, OutputPatch)>, k: OutputKey, p: OutputPatch)
    ensures
        outputs_view(final(outs)@) == insert_output(outputs_view(old(outs)@), key_view(k), p@),
    decreases old(outs)@.len(),
{
    let ghost v = outputs_view(outs@);
    if outs.len() == 0 {
        outs.push((k, p));
        assert(outputs_view(outs@) =~= insert_output(v, key_view(k), p@));
        return;
    }
    let n = outs.len();
    assert(v.last() == (key_view(outs@[n - 1].0), outs@[n - 1].1@));
    if key_less(&k, &outs[n - 1].0) {
        let ghost kv = key_view(k);
        let ghost pv = p@;
        let last = outs.pop().unwrap();
        assert(outputs_view(outs@) =~= v.drop_last());
        insert_output_exec(outs, k, p);
        let ghost mid = outputs_view(outs@);
        outs.push(last);
        assert(outputs_view(outs@) =~= mid.push(v.last()));
    } else {
        let ghost kv = key_view(k);
        let ghost pv = p@;
        outs.push((k, p));
        assert(outputs_view(outs@) =~= v.push((kv, pv)));
    }
}

impl ZjstatusConfigPatch {
    /// A layer that configures nothing.
    pub fn new() -> (p: ZjstatusConfigPatch)
        ensures
            p@ == (ConfigPatchView { outputs: Seq::empty(), refresh_ms: None }),
            p.wf(),
    {
        let p = ZjstatusConfigPatch { outputs: Vec::new(), refresh_ms: None };
        assert(p@.outputs =~= Seq::<((bool, Seq<char>), PatchView)>::empty());
        p
    }

    fn merge(&mut self, k: OutputKey, p: OutputPatch)
        requires
            old(self).wf(),
            patch_wf(p@),
        ensures
            final(self)@ == (ConfigPatchView { outputs: merge_output(old(self)@.outputs, key_view(k), p@), ..old(self)@ }),
            final(self).wf(),
    {
        let ghost v = self@.outputs;
        let ghost kv = key_view(k);
        let ghost pv = p@;
        proof {
            lemma_out_index(v, kv);
            lemma_merge_output(v, kv, pv);
        }
        match find_output(&self.outputs, &k) {
            Some(i) => {
                let (old_key, mut old_patch) = self.outputs.remove(i);
                assert(v[i as int] == (key_view(old_key), old_patch@));
                assert(patch_wf(v[i as int].1));
                old_patch.overlay(p);
                self.outputs.insert(i, (old_key, old_patch));
                assert(outputs_view(self.outputs@) =~= merge_output(v, kv, pv));
                assert forall|j: int| 0 <= j < self@.outputs.len() implies patch_wf(#[trigger] self@.outputs[j].1) by {
                    if j != i { assert(self@.outputs[j] == v[j]); }
                }
            },
            None => {
                let mut fresh = OutputPatch::new();
                fresh.overlay(p);
                proof { lemma_insert_output_wf(v, kv, overlay_patch(empty_patch(), pv)); }
                insert_output_exec(&mut self.outputs, k, fresh);
                assert(outputs_view(self.outputs@) =~= merge_output(v, kv, pv));
            },
        }
    }

    /// Lay another layer over this one: its refresh interval, if set, wins,
    /// and each of its outputs is laid over the output of the same key.
    pub fn overlay(&mut self, other: ZjstatusConfigPatch)
        requires
            old(self).wf(),
            other.wf(),
        ensures
            final(self)@ == overlay_config(old(self)@, other@),
            final(self).wf(),
    {
        let ghost a = self@;
        let ghost b = other@;
        let ZjstatusConfigPatch { outputs, refresh_ms } = other;
        if refresh_ms.is_some() {
            self.refresh_ms = refresh_ms;
        }
        let mut rest = outputs;
        let total = rest.len();
        let ghost all = outputs_view(rest@);
        let mut k: usize = 0;
        while rest.len() > 0
            invariant
                k + rest@.len() == all.len(),
                all.len() == total,
                outputs_view(rest@) == all.subrange(k as int, all.len() as int),
                all == b.outputs,
                config_patch_wf(b),
                self.wf(),
                self@ == (ConfigPatchView { outputs: merge_outputs(a.outputs, all.subrange(0, k as int)),
                    refresh_ms: over(a.refresh_ms, b.refresh_ms) }),
            decreases rest.len(),
        {
            let ghost before = outputs_view(rest@);
            let (key, patch) = rest.remove(0);
            assert(before[0] == (key_view(key), patch@));
            assert(outputs_view(rest@) =~= before.subrange(1, before.len() as int));
            assert(all.subrange(0, k + 1).drop_last() =~= all.subrange(0, k as int));
            assert(all.subrange(0, k + 1).last() == all[k as int]);
            assert(all[k as int] == before[0]);
            assert(patch_wf(all[k as int].1));
            self.merge(key, patch);
            k = k + 1;
        }
        assert(all.subrange(0, k as int) =~= all);
    }
}

/// The merged configuration layers.
#[derive(Debug, Clone, Default)]
pub struct ZjstatusConfigLayers {
    patch: ZjstatusConfigPatch,
}

impl View for ZjstatusConfigLayers {
    type V = ConfigPatchView;

    closed spec fn view(&self) -> ConfigPatchView {
        self.patch@
    }
}

impl ZjstatusConfigLayers {
    pub open spec fn wf(&self) -> bool {
        config_patch_wf(self@)
    }

    /// No layers yet.
    pub fn new() -> (l: ZjstatusConfigLayers)
        ensures
            l@ == (ConfigPatchView { outputs: Seq::empty(), refresh_ms: None }),
            l.wf(),
    {
        ZjstatusConfigLayers { patch: ZjstatusConfigPatch::new() }
    }

    /// Lay a new layer over the ones pushed before.
    pub fn push(&mut self, patch: ZjstatusConfigPatch)
        requires
            old(self).wf(),
            patch.wf(),
        ensures
            final(self)@ == overlay_config(old(self)@, patch@),
            final(self).wf(),
    {
        self.patch.overlay(patch);
    }
}

/// The finalized integration settings.
#[derive(Debug)]
pub struct ZjstatusConfig {
    /// The outputs in key order.
    pub outputs: Vec<(OutputKey, OutputConfig)>,
    pub refresh_ms: u32,
}

/// No two outputs share an identity.
pub open spec fn distinct_outputs(outs: Seq<(OutputKey, OutputConfig)>) -> bool {
    forall|a: int, b: int| 0 <= a < b < outs.len() ==> key_view(#[trigger] outs[a].0) != key_view(#[trigger] outs[b].0)
}

/// The first output patch that its source does not accept, with the reason.
pub open spec fn first_source_error(outs: Seq<((bool, Seq<char>), PatchView)>) -> Option<Seq<char>>
    decreases outs.len(),
{
    if outs.len() == 0 {
        None
    } else {
        match source_error(outs[0].1) {
            Some(e) => Some(e),
            None => first_source_error(outs.subrange(1, outs.len() as int)),
        }
    }
}

impl ZjstatusConfigLayers {
    /// Finalize: nothing without outputs; else every output with its
    /// defaults, unless a pane-status output sets a scratchpad-only option.
    pub fn into_config(self) -> (r: Result<Option<ZjstatusConfig>, String>)
        requires
            self.wf(),
        ensures
            match r {
                Ok(None) => self@.outputs.len() == 0,
                Ok(Some(c)) => self@.outputs.len() > 0 && first_source_error(self@.outputs) is None
                    && c.refresh_ms == match self@.refresh_ms { Some(v) => v, None => 2000u32 }
                    && c.outputs@.len() == self@.outputs.len()
                    && distinct_outputs(c.outputs@)
                    && forall|i: int| 0 <= i < c.outputs@.len() ==> key_view(#[trigger] c.outputs@[i].0) == self@.outputs[i].0
                        && config_from_patch(c.outputs@[i].1, self@.outputs[i].1, self@.outputs[i].0.0),
                Err(e) => self@.outputs.len() > 0 && first_source_error(self@.outputs) == Some(e@),
            },
    {
        let ghost v = self@;
        let ZjstatusConfigLayers { patch } = self;
        let ZjstatusConfigPatch { outputs, refresh_ms } = patch;
        if outputs.len() == 0 {
            return Ok(None);
        }
        let mut configs: Vec<(OutputKey, OutputConfig)> = Vec::new();
        let mut rest = outputs;
        let total = rest.len();
        let mut k: usize = 0;
        assert(v.outputs.subrange(0, v.outputs.len() as int) =~= v.outputs);
        while rest.len() > 0
            invariant
                k + rest@.len() == v.outputs.len(),
                v.outputs.len() == total,
                v == self@,
                refresh_ms == v.refresh_ms,
                outputs_view(rest@) == v.outputs.subrange(k as int, v.outputs.len() as int),
                config_patch_wf(v),
                first_source_error(v.outputs) == first_source_error(v.outputs.subrange(k as int, v.outputs.len() as int)),
                configs@.len() == k,
                forall|i: int| 0 <= i < k ==> key_view(#[trigger] configs@[i].0) == v.outputs[i].0
                    && config_from_patch(configs@[i].1, v.outputs[i].1, v.outputs[i].0.0),
            decreases rest.len(),
        {
            let ghost before = outputs_view(rest@);
            let ghost tail = v.outputs.subrange(k as int, v.outputs.len() as int);
            let (key, patch) = rest.remove(0);
            assert(before[0] == (key_view(key), patch@));
            assert(outputs_view(rest@) =~= before.subrange(1, before.len() as int));
            assert(tail[0] == v.outputs[k as int]);
            assert(tail.subrange(1, tail.len() as int) =~= v.outputs.subrange(k + 1, v.outputs.len() as int));
            assert(patch_wf(v.outputs[k as int].1));
            match patch.validate_source() {
                Ok(()) => {
                    assert(first_source_error(tail) == first_source_error(tail.subrange(1, tail.len() as int)));
                },
                Err(e) => {
                    assert(first_source_error(tail) == Some(e@));
                    return Err(e);
                },
            }
            let tab_scoped = match &key { OutputKey::Tab(_) => true, OutputKey::Global(_) => false };
            let config = patch.to_config(tab_scoped);
            let ghost kv = key_view(key);
            configs.push((key, config));
            assert(kv == v.outputs[k as int].0);
            assert(key_view(configs@[k as int].0) == v.outputs[k as int].0);
            assert(config_from_patch(configs@[k as int].1, v.outputs[k as int].1, v.outputs[k as int].0.0));
            k = k + 1;
        }
        assert(v.outputs.subrange(k as int, v.outputs.len() as int) =~= Seq::<((bool, Seq<char>), PatchView)>::empty());
        Ok(Some(ZjstatusConfig { outputs: configs, refresh_ms: match refresh_ms { Some(v) => v, None => 2000 } }))
    }
}

impl ZjstatusConfigPatch {
    pub(crate) fn refresh(&self) -> (r: Option<u32>)
        ensures
            r == self@.refresh_ms,
    {
        self.refresh_ms
    }

    pub(crate) fn set_refresh(&mut self, v: u32)
        requires
            old(self).wf(),
        ensures
            final(self)@ == (ConfigPatchView { refresh_ms: Some(v), ..old(self)@ }),
            final(self).wf(),
    {
        self.refresh_ms = Some(v);
    }

    pub(crate) fn has_output(&self, k: &OutputKey) -> (b: bool)
        ensures
            b == (out_index(self@.outputs, key_view(*k)) is Some),
    {
        find_output(&self.outputs, k).is_some()
    }

    pub(crate) fn add_output(&mut self, k: OutputKey, p: OutputPatch)
        requires
            old(self).wf(),
            patch_wf(p@),
            out_index(old(self)@.outputs, key_view(k)) is None,
        ensures
            final(self)@ == (ConfigPatchView { outputs: insert_output(old(self)@.outputs, key_view(k), p@), ..old(self)@ }),
            final(self).wf(),
    {
        proof {
            lemma_insert_output_wf(self@.outputs, key_view(k), p@);
            lemma_out_index(self@.outputs, key_view(k));
            lemma_insert_output_unique(self@.outputs, key_view(k), p@);
        }
        insert_output_exec(&mut self.outputs, k, p);
    }
}

// ---------------------------------------------------------------------------
// Layering law

/// No two outputs of a layer share an identity.
pub open spec fn out_keys_unique(outs: Seq<((bool, Seq<char>), PatchView)>) -> bool {
    forall|i: int, j: int| 0 <= i < j < outs.len() ==> #[trigger] outs[i].0 != #[trigger] outs[j].0
}

/// The settings a layer gives the output with this identity.
pub open spec fn output_of(outs: Seq<((bool, Seq<char>), PatchView)>, k: (bool, Seq<char>)) -> Option<PatchView> {
    match out_index(outs, k) {
        Some(i) => Some(outs[i].1),
        None => None,
    }
}

proof fn lemma_output_of_at(outs: Seq<((bool, Seq<char>), PatchView)>, i: int)
    requires
        out_keys_unique(outs),
        0 <= i < outs.len(),
    ensures
        output_of(outs, outs[i].0) == Some(outs[i].1),
{
    let k = outs[i].0;
    lemma_out_index(outs, k);
    match out_index(outs, k) {
        Some(m) => {
            if m < i { assert(outs[m].0 != outs[i].0); }
            if i < m { assert(outs[i].0 != outs[m].0); }
        },
        None => { assert(outs[i].0 != k); },
    }
}

proof fn lemma_output_of_absent(outs: Seq<((bool, Seq<char>), PatchView)>, k: (bool, Seq<char>))
    requires
        forall|i: int| 0 <= i < outs.len() ==> #[trigger] outs[i].0 != k,
    ensures
        output_of(outs, k) is None,
{
    lemma_out_index(outs, k);
    match out_index(outs, k) {
        Some(m) => { assert(outs[m].0 != k); },
        None => {},
    }
}

proof fn lemma_output_of(outs: Seq<((bool, Seq<char>), PatchView)>, k: (bool, Seq<char>))
    ensures
        match output_of(outs, k) {
            Some(p) => exists|i: int| 0 <= i < outs.len() && #[trigger] outs[i] == (k, p),
            None => forall|i: int| 0 <= i < outs.len() ==> #[trigger] outs[i].0 != k,
        },
{
    lemma_out_index(outs, k);
    match out_index(outs, k) {
        Some(m) => { assert(outs[m] == (k, outs[m].1)); },
        None => {},
    }
}

proof fn lemma_insert_output(outs: Seq<((bool, Seq<char>), PatchView)>, k: (bool, Seq<char>), p: PatchView) -> (pos: int)
    ensures
        0 <= pos <= outs.len(),
        insert_output(outs, k, p) == outs.take(pos).push((k, p)) + outs.skip(pos),
    decreases outs.len(),
{
    if outs.len() == 0 {
        assert(insert_output(outs, k, p) =~= outs.take(0).push((k, p)) + outs.skip(0));
        0
    } else if key_lt(k, outs.last().0) {
        let d = outs.drop_last();
        let q = lemma_insert_output(d, k, p);
        assert(insert_output(outs, k, p) =~= outs.take(q).push((k, p)) + outs.skip(q)) by {
            assert(outs.take(q) =~= d.take(q));
            assert(outs.skip(q) =~= d.skip(q).push(outs.last()));
        }
        q
    } else {
        assert(insert_output(outs, k, p) =~= outs.take(outs.len() as int).push((k, p)) + outs.skip(outs.len() as int));
        outs.len() as int
    }
}

proof fn lemma_insert_output_unique(outs: Seq<((bool, Seq<char>), PatchView)>, k: (bool, Seq<char>), p: PatchView)
    requires
        out_keys_unique(outs),
        forall|i: int| 0 <= i < outs.len() ==> #[trigger] outs[i].0 != k,
    ensures
        out_keys_unique(insert_output(outs, k, p)),
{
    let pos = lemma_insert_output(outs, k, p);
    let r = insert_output(outs, k, p);
    assert(r.len() == outs.len() + 1);
    assert forall|a: int, b: int| 0 <= a < b < r.len() implies #[trigger] r[a].0 != #[trigger] r[b].0 by {
        if a < pos { assert(r[a] == outs[a]); }
        else if a > pos { assert(r[a] == outs[a - 1]); }
        if b < pos { assert(r[b] == outs[b]); }
        else if b > pos { assert(r[b] == outs[b - 1]); }
    }
}

proof fn lemma_merge_output(outs: Seq<((bool, Seq<char>), PatchView)>, k: (bool, Seq<char>), p: PatchView)
    requires
        out_keys_unique(outs),
    ensures
        out_keys_unique(merge_output(outs, k, p)),
        forall|k2: (bool, Seq<char>)| #[trigger] output_of(merge_output(outs, k, p), k2) == if k2 == k {
            Some(overlay_patch(match output_of(outs, k) { Some(x) => x, None => empty_patch() }, p))
        } else {
            output_of(outs, k2)
        },
{
    lemma_out_index(outs, k);
    let r = merge_output(outs, k, p);
    match out_index(outs, k) {
        Some(i) => {
            assert(r == outs.update(i, (k, overlay_patch(outs[i].1, p))));
            assert forall|a: int, b: int| 0 <= a < b < r.len() implies #[trigger] r[a].0 != #[trigger] r[b].0 by {
                assert(r[a].0 == outs[a].0 && r[b].0 == outs[b].0);
            }
            assert forall|k2: (bool, Seq<char>)| #[trigger] output_of(r, k2) == if k2 == k {
                Some(overlay_patch(match output_of(outs, k) { Some(x) => x, None => empty_patch() }, p))
            } else {
                output_of(outs, k2)
            } by {
                lemma_output_of(outs, k2);
                if k2 != k {
                    match output_of(outs, k2) {
                        Some(w) => {
                            let j = choose|j: int| 0 <= j < outs.len() && #[trigger] outs[j] == (k2, w);
                            assert(j != i);
                            assert(r[j] == outs[j]);
                            lemma_output_of_at(r, j);
                        },
                        None => {
                            assert forall|j: int| 0 <= j < r.len() implies #[trigger] r[j].0 != k2 by {
                                assert(r[j].0 == outs[j].0);
                            }
                            lemma_output_of_absent(r, k2);
                        },
                    }
                } else {
                    lemma_output_of_at(r, i);
                }
            }
        },
        None => {
            let q = overlay_patch(empty_patch(), p);
            let pos = lemma_insert_output(outs, k, q);
            assert(r == outs.take(pos).push((k, q)) + outs.skip(pos));
            assert forall|j: int| 0 <= j < r.len() implies #[trigger] r[j] == if j < pos { outs[j] } else if j == pos { (k, q) } else { outs[j - 1] } by {
                if j < pos { assert(r[j] == outs.take(pos)[j]); }
                else if j > pos { assert(r[j] == outs.skip(pos)[j - pos - 1]); }
            }
            assert forall|a: int, b: int| 0 <= a < b < r.len() implies #[trigger] r[a].0 != #[trigger] r[b].0 by {
                if a < pos && b < pos { assert(outs[a].0 != outs[b].0); }
                else if a < pos && b > pos { assert(outs[a].0 != outs[b - 1].0); }
                else if a > pos && b > pos { assert(outs[a - 1].0 != outs[b - 1].0); }
                else if a == pos { assert(outs[b - 1].0 != k); }
                else { assert(outs[a].0 != k); }
            }
            assert forall|k2: (bool, Seq<char>)| #[trigger] output_of(r, k2) == if k2 == k {
                Some(overlay_patch(match output_of(outs, k) { Some(x) => x, None => empty_patch() }, p))
            } else {
                output_of(outs, k2)
            } by {
                lemma_output_of(outs, k2);
                if k2 == k {
                    lemma_output_of_at(r, pos);
                } else {
                    match output_of(outs, k2) {
                        Some(w) => {
                            let j = choose|j: int| 0 <= j < outs.len() && #[trigger] outs[j] == (k2, w);
                            if j < pos {
                                assert(r[j] == outs[j]);
                                lemma_output_of_at(r, j);
                            } else {
                                assert(r[j + 1] == outs[j]);
                                lemma_output_of_at(r, j + 1);
                            }
                        },
                        None => {
                            assert forall|j: int| 0 <= j < r.len() implies #[trigger] r[j].0 != k2 by {
                                if j < pos { assert(r[j] == outs[j]); } else if j > pos { assert(r[j] == outs[j - 1]); }
                            }
                            lemma_output_of_absent(r, k2);
                        },
                    }
                }
            }
        },
    }
}

/// Layers merge by identity: laying `b` over `a` gives each output that `b`
/// mentions `a`'s settings (or none) with every setting of `b`'s replacing
/// them, keeps every output `b` omits exactly as `a` has it, and keeps the
/// identities distinct. Holds for layers whose outputs have distinct
/// identities, as parsing makes them.
pub proof fn law_layers_merge_by_identity(
    a: Seq<((bool, Seq<char>), PatchView)>,
    b: Seq<((bool, Seq<char>), PatchView)>,
    k: (bool, Seq<char>),
)
    requires
        out_keys_unique(a),
        out_keys_unique(b),
    ensures
        out_keys_unique(merge_outputs(a, b)),
        output_of(merge_outputs(a, b), k) == match output_of(b, k) {
            Some(pb) => Some(overlay_patch(match output_of(a, k) { Some(pa) => pa, None => empty_patch() }, pb)),
            None => output_of(a, k),
        },
    decreases b.len(),
{
    if b.len() > 0 {
        let d = b.drop_last();
        assert forall|i: int, j: int| 0 <= i < j < d.len() implies #[trigger] d[i].0 != #[trigger] d[j].0 by {
            assert(d[i] == b[i] && d[j] == b[j]);
        }
        law_layers_merge_by_identity(a, d, k);
        let m = merge_outputs(a, d);
        let (lk, lp) = b.last();
        lemma_merge_output(m, lk, lp);
        lemma_output_of(d, k);
        assert(b[b.len() - 1] == (lk, lp));
        if lk == k {
            lemma_output_of_at(b, b.len() - 1);
            assert forall|i: int| 0 <= i < d.len() implies #[trigger] d[i].0 != k by {
                assert(d[i] == b[i]);
                assert(b[i].0 != b[b.len() - 1].0);
            }
            lemma_output_of_absent(d, k);
        } else {
            match output_of(d, k) {
                Some(w) => {
                    let j = choose|j: int| 0 <= j < d.len() && #[trigger] d[j] == (k, w);
                    assert(b[j] == d[j]);
                    lemma_output_of_at(b, j);
                },
                None => {
                    assert forall|i: int| 0 <= i < b.len() implies #[trigger] b[i].0 != k by {
                        if i < d.len() { assert(b[i] == d[i]); }
                    }
                    lemma_output_of_absent(b, k);
                },
            }
        }
    }
}

/// Pushing a layer over the merged ones: its refresh interval, if set,
/// replaces the earlier one; for each output it configures, every option it
/// sets (an empty text or an empty name list included) replaces the earlier
/// value and every option it leaves unset keeps the earlier value (none for
/// an output new in this layer); the outputs it omits stay as they were.
pub proof fn law_push_overlays_each_setting(a: ConfigPatchView, b: ConfigPatchView, k: (bool, Seq<char>))
    requires
        config_patch_wf(a),
        config_patch_wf(b),
    ensures
        overlay_config(a, b).refresh_ms == (if b.refresh_ms is Some { b.refresh_ms } else { a.refresh_ms }),
        out_keys_unique(overlay_config(a, b).outputs),
        match output_of(b.outputs, k) {
            Some(pb) => {
                let pa = match output_of(a.outputs, k) { Some(x) => x, None => empty_patch() };
                let merged = output_of(overlay_config(a, b).outputs, k);
                &&& merged is Some
                &&& merged->Some_0.source == (if pb.source is Some { pb.source } else { pa.source })
                &&& merged->Some_0.enabled == (if pb.enabled is Some { pb.enabled } else { pa.enabled })
                &&& merged->Some_0.selected == (if pb.selected is Some { pb.selected } else { pa.selected })
                &&& merged->Some_0.exclude == (if pb.exclude is Some { pb.exclude } else { pa.exclude })
                &&& merged->Some_0.strings.len() == 26
                &&& forall|i: int| 0 <= i < 26 ==> #[trigger] merged->Some_0.strings[i]
                    == (if pb.strings[i] is Some { pb.strings[i] } else { pa.strings[i] })
            },
            None => output_of(overlay_config(a, b).outputs, k) == output_of(a.outputs, k),
        },
{
    law_layers_merge_by_identity(a.outputs, b.outputs, k);
}

} // verus!
