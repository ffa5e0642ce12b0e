//! The configured scratchpads by name, with their names in the order they
//! were added.

use vstd::prelude::*;
use vstd::hash_map::StringHashMap;
use crate::scratchpad::config::ScratchpadConfig;
use crate::zjstatus::render::{name_less, text_lt};

verus! {

pub open spec fn texts_view(v: Seq<String>) -> Seq<Seq<char>> {
    v.map_values(|s: String| s@)
}

/// Insert a name after every name that is not greater.
pub open spec fn insert_name(s: Seq<Seq<char>>, n: Seq<char>) -> Seq<Seq<char>>
    decreases s.len(),
{
    if s.len() == 0 {
        seq![n]
    } else if text_lt(n, s.last()) {
        insert_name(s.drop_last(), n).push(s.last())
    } else {
        s.push(n)
    }
}

/// The names in lexicographic order.
pub open spec fn sort_names(s: Seq<Seq<char>>) -> Seq<Seq<char>>
    decreases s.len(),
{
    if s.len() == 0 {
        Seq::empty()
    } else {
        insert_name(sort_names(s.drop_last()), s.last())
    }
}

/// Scratchpad configurations by name.
pub struct ScratchpadConfigs {
    pub(crate) map: StringHashMap<ScratchpadConfig>,
    pub(crate) names: Vec<String>,
}

impl View for ScratchpadConfigs {
    type V = Map<Seq<char>, ScratchpadConfig>;

    closed spec fn view(&self) -> Map<Seq<char>, ScratchpadConfig> {
        self.map@
    }
}

impl ScratchpadConfigs {
    /// The names, in the order they were first added.
    pub closed spec fn name_list(&self) -> Seq<Seq<char>> {
        texts_view(self.names@)
    }

    /// Each configured name is listed once, and only those.
    pub closed spec fn wf(&self) -> bool {
        &&& texts_view(self.names@).no_duplicates()
        &&& forall|k: Seq<char>| self.map@.contains_key(k) <==> texts_view(self.names@).contains(k)
    }

    /// No scratchpads.
    pub fn new() -> (c: ScratchpadConfigs)
        ensures
            c.wf(),
            c@ == Map::<Seq<char>, ScratchpadConfig>::empty(),
            c.name_list() == Seq::<Seq<char>>::empty(),
    {
        let c = ScratchpadConfigs { map: StringHashMap::new(), names: Vec::new() };
        assert(texts_view(c.names@) =~= Seq::<Seq<char>>::empty());
        c
    }

    /// Configure a scratchpad, replacing any configuration of that name.
    pub fn insert(&mut self, name: String, config: ScratchpadConfig)
        requires
            old(self).wf(),
        ensures
            final(self).wf(),
            final(self)@ == old(self)@.insert(name@, config),
            final(self).name_list() == (if old(self)@.contains_key(name@) {
                old(self).name_list()
            } else {
                old(self).name_list().push(name@)
            }),
    {
        if !self.map.contains_key(name.as_str()) {
            let ghost before = texts_view(self.names@);
            self.names.push(name.clone());
            assert(texts_view(self.names@) =~= before.push(name@));
            assert forall|a: int, b: int| 0 <= a < b < texts_view(self.names@).len()
                implies texts_view(self.names@)[a] != texts_view(self.names@)[b] by {
                if b == before.len() {
                    assert(before.contains(before[a]));
                } else {
                    assert(before[a] != before[b]);
                }
            }
        }
        let ghost n = name@;
        self.map.insert(name, config);
        assert forall|k: Seq<char>| self.map@.contains_key(k) <==> texts_view(self.names@).contains(k) by {
            if k == n {
                if !old(self).map@.contains_key(n) {
                    assert(texts_view(self.names@)[texts_view(self.names@).len() - 1] == n);
                }
            }
            if texts_view(self.names@).contains(k) && k != n && !old(self).map@.contains_key(n) {
                let j = choose|j: int| 0 <= j < texts_view(self.names@).len() && texts_view(self.names@)[j] == k;
                assert(texts_view(old(self).names@)[j] == k);
            }
            if old(self).name_list().contains(k) && !old(self).map@.contains_key(n) {
                let j = choose|j: int| 0 <= j < old(self).name_list().len() && old(self).name_list()[j] == k;
                assert(texts_view(self.names@)[j] == k);
            }
        }
    }

    /// The configuration of a scratchpad.
    pub fn get(&self, name: &str) -> (r: Option<&ScratchpadConfig>)
        ensures
            match r {
                Some(c) => self@.contains_key(name@) && *c == self@[name@],
                None => !self@.contains_key(name@),
            },
    {
        self.map.get(name)
    }

    /// Whether a scratchpad is configured.
    pub fn contains_key(&self, name: &str) -> (b: bool)
        ensures
            b == self@.contains_key(name@),
    {
        self.map.contains_key(name)
    }

    /// How many scratchpads are configured.
    pub fn len(&self) -> (n: usize)
        ensures
            n == self.name_list().len(),
    {
        self.names.len()
    }

    /// The configured names in lexicographic order.
    pub fn sorted_names(&self) -> (r: Vec<String>)
        ensures
            texts_view(r@) == sort_names(self.name_list()),
    {
        let ghost s = self.name_list();
        let mut r: Vec<String> = Vec::new();
        let mut i: usize = 0;
        while i < self.names.len()
            invariant
                i <= self.names@.len(),
                s == texts_view(self.names@),
                texts_view(r@) == sort_names(s.subrange(0, i as int)),
            decreases self.names.len() - i,
        {
            assert(s.subrange(0, i + 1).drop_last() =~= s.subrange(0, i as int));
            assert(s.subrange(0, i + 1).last() == self.names@[i as int]@);
            let name = self.names[i].clone();
            r = insert_sorted(&r, name);
            i = i + 1;
        }
        assert(s.subrange(0, s.len() as int) =~= s);
        r
    }

    /// Lay another set of configurations over these; its configurations win.
    pub fn merge(&mut self, other: ScratchpadConfigs)
        requires
            old(self).wf(),
            other.wf(),
        ensures
            final(self).wf(),
            final(self)@ == old(self)@.union_prefer_right(other@),
    {
        let ghost m0 = self.map@;
        let mut i: usize = 0;
        while i < other.names.len()
            invariant
                i <= other.names@.len(),
                self.map@ == m0,
                texts_view(self.names@).no_duplicates(),
                forall|k: Seq<char>| texts_view(self.names@).contains(k) <==>
                    (m0.contains_key(k) || texts_view(other.names@).subrange(0, i as int).contains(k)),
            decreases other.names.len() - i,
        {
            let ghost before = texts_view(self.names@);
            let ghost prefix = texts_view(other.names@).subrange(0, i as int);
            assert(texts_view(other.names@).subrange(0, i + 1) =~= prefix.push(other.names@[i as int]@));
            let ghost x = other.names@[i as int]@;
            proof {
                assert forall|k: Seq<char>| prefix.push(x).contains(k) <==> (prefix.contains(k) || k == x) by {
                    lemma_push_contains(prefix, x, k);
                }
            }
            if !contains_text(&self.names, other.names[i].as_str()) {
                self.names.push(other.names[i].clone());
                assert(texts_view(self.names@) =~= before.push(other.names@[i as int]@));
                proof {
                    assert forall|k: Seq<char>| texts_view(self.names@).contains(k) <==> (before.contains(k) || k == x) by {
                        lemma_push_contains(before, x, k);
                    }
                }
                assert forall|a: int, b: int| 0 <= a < b < texts_view(self.names@).len()
                    implies texts_view(self.names@)[a] != texts_view(self.names@)[b] by {
                    if b == before.len() {
                        assert(texts_view(self.names@)[a] == before[a]);
                    } else {
                        assert(before[a] != before[b]);
                    }
                }
            }
            proof {
                let next = texts_view(other.names@).subrange(0, i + 1);
                assert(next == prefix.push(x));
                assert forall|k: Seq<char>| texts_view(self.names@).contains(k) <==>
                    (m0.contains_key(k) || next.contains(k)) by {
                    assert(before.contains(k) <==> (m0.contains_key(k) || prefix.contains(k)));
                    assert(prefix.push(x).contains(k) <==> (prefix.contains(k) || k == x));
                }
            }
            i = i + 1;
        }
        assert(texts_view(other.names@).subrange(0, other.names@.len() as int) =~= texts_view(other.names@));
        assert(forall|k: Seq<char>| texts_view(self.names@).contains(k) <==>
            (m0.contains_key(k) || texts_view(other.names@).contains(k)));
        let ghost om = other.map@;
        self.map.union_prefer_right(other.map);
        assert forall|k: Seq<char>| self.map@.contains_key(k) <==> texts_view(self.names@).contains(k) by {
            assert(self.map@.dom().contains(k) <==> (m0.dom().contains(k) || om.dom().contains(k)));
            assert(texts_view(self.names@).contains(k) <==> (m0.contains_key(k) || texts_view(other.names@).contains(k)));
            assert(om.contains_key(k) <==> texts_view(other.names@).contains(k));
        }
    }
}

proof fn lemma_push_contains(s: Seq<Seq<char>>, x: Seq<char>, k: Seq<char>)
    ensures
        s.push(x).contains(k) <==> (s.contains(k) || k == x),
{
    if s.push(x).contains(k) {
        let j = choose|j: int| 0 <= j < s.push(x).len() && s.push(x)[j] == k;
        if j < s.len() { assert(s[j] == k); }
    }
    if s.contains(k) {
        let j = choose|j: int| 0 <= j < s.len() && s[j] == k;
        assert(s.push(x)[j] == k);
    }
    if k == x {
        assert(s.push(x)[s.len() as int] == k);
    }
}

/// The name list, spelled out for the other scratchpad modules.
pub(crate) proof fn lemma_name_list(c: &ScratchpadConfigs)
    ensures
        c.name_list() == texts_view(c.names@),
{
}

fn contains_text(v: &Vec<String>, name: &str) -> (b: bool)
    ensures
        b == texts_view(v@).contains(name@),
{
    let mut i: usize = 0;
    while i < v.len()
        invariant
            i <= v@.len(),
            forall|j: int| 0 <= j < i ==> #[trigger] texts_view(v@)[j] != name@,
        decreases v.len() - i,
    {
        if crate::text::str_equals(v[i].as_str(), name) {
            assert(texts_view(v@)[i as int] == name@);
            return true;
        }
        i = i + 1;
    }
    false
}

fn insert_sorted(v: &Vec<String>, name: String) -> (r: Vec<String>)
    ensures
        texts_view(r@) == insert_name(texts_view(v@), name@),
    decreases v@.len(),
{
    let ghost s = texts_view(v@);
    let n = v.len();
    if n == 0 {
        let mut r: Vec<String> = Vec::new();
        r.push(name);
        assert(texts_view(r@) =~= seq![r@[0]@]);
        return r;
    }
    let mut front: Vec<String> = Vec::new();
    let mut i: usize = 0;
    while i < n - 1
        invariant
            n == v@.len(),
            n > 0,
            i <= n - 1,
            texts_view(front@) == texts_view(v@).subrange(0, i as int),
        decreases n - 1 - i,
    {
        let ghost before = texts_view(front@);
        let x = v[i].clone();
        front.push(x);
        assert(texts_view(front@) =~= before.push(v@[i as int]@));
        assert(texts_view(v@).subrange(0, i + 1) =~= texts_view(v@).subrange(0, i as int).push(v@[i as int]@));
        i = i + 1;
    }
    assert(texts_view(front@) =~= s.drop_last());
    assert(s.last() == v@[n - 1]@);
    if name_less(name.as_str(), v[n - 1].as_str()) {
        let mut r = insert_sorted(&front, name);
        let ghost mid = texts_view(r@);
        let last = v[n - 1].clone();
        r.push(last);
        assert(texts_view(r@) =~= mid.push(s.last()));
        r
    } else {
        let ghost before = texts_view(front@);
        let last = v[n - 1].clone();
        front.push(last);
        assert(texts_view(front@) =~= before.push(s.last()));
        assert(s.drop_last().push(s.last()) =~= s);
        let ghost mid = texts_view(front@);
        let ghost nv = name@;
        front.push(name);
        assert(texts_view(front@) =~= mid.push(nv));
        front
    }
}

} // verus!
