//! Template substitution for pane-status outputs: every inserted value is
//! wrapped in the style in force at its directive, so inserted text can never
//! join adjacent literal text into a style marker.

use vstd::prelude::*;
use crate::text::{push_chars, push_decimal, push_str};
use crate::text::decimal;
use crate::zjstatus::markup::{lemma_next_char, lookup, next_char, table_view};
use crate::zjstatus::render::join;

verus! {

/// Index of the last `#[` in a literal.
pub open spec fn last_marker(lit: Seq<char>) -> Option<int>
    decreases lit.len(),
{
    if lit.len() < 2 {
        None
    } else if lit[lit.len() - 2] == '#' && lit[lit.len() - 1] == '[' {
        Some(lit.len() - 2)
    } else {
        last_marker(lit.drop_last())
    }
}

/// The style in force after a literal: its last `#[` up to the next `]`, if
/// both exist, else the style before it.
pub open spec fn style_after(lit: Seq<char>, style: Seq<char>) -> Seq<char> {
    match last_marker(lit) {
        Some(m) => match next_char(lit, ']', m) {
            Some(e) => lit.subrange(m, e + 1),
            None => style,
        },
        None => style,
    }
}

/// The output of a template from `pos` on, with `style` in force and `f`
/// giving the value of a directive in a style (or none).
pub open spec fn pane_scan(
    t: Seq<char>,
    pos: int,
    style: Seq<char>,
    f: spec_fn(Seq<char>, Seq<char>) -> Option<Seq<char>>,
) -> Seq<char>
    decreases t.len() - pos,
{
    if pos < 0 || pos > t.len() {
        Seq::empty()
    } else {
        match next_char(t, '{', pos) {
            None => t.subrange(pos, t.len() as int),
            Some(s) => {
                let lit = t.subrange(pos, s);
                let st = style_after(lit, style);
                match next_char(t, '}', s) {
                    None => t.subrange(pos, t.len() as int),
                    Some(e) => {
                        proof {
                            lemma_next_char(t, '{', pos);
                            lemma_next_char(t, '}', s);
                        }
                        let d = t.subrange(s, e + 1);
                        lit + match f(d, st) {
                            Some(v) => st + v + st,
                            None => d,
                        } + pane_scan(t, e + 1, st, f)
                    },
                }
            },
        }
    }
}

/// Drop leading complete `#[...]` markers.
pub open spec fn strip_markers(text: Seq<char>) -> Seq<char>
    decreases text.len(),
{
    if text.len() >= 2 && text[0] == '#' && text[1] == '[' {
        match next_char(text, ']', 2) {
            Some(e) => {
                proof { lemma_next_char(text, ']', 2); }
                strip_markers(text.subrange(e + 1, text.len() as int))
            },
            None => text,
        }
    } else {
        text
    }
}

/// A substituted template, framed by the base style; empty when the template
/// is empty or the output is nothing but style markers.
pub open spec fn pane_template(
    t: Seq<char>,
    base: Seq<char>,
    f: spec_fn(Seq<char>, Seq<char>) -> Option<Seq<char>>,
) -> Seq<char> {
    if t.len() == 0 {
        Seq::empty()
    } else {
        let out = base + pane_scan(t, 0, base, f) + base;
        if strip_markers(out).len() == 0 { Seq::empty() } else { out }
    }
}

/// Directive values from a table, whatever the style.
pub open spec fn table_fn(vals: Seq<(Seq<char>, Seq<char>)>) -> spec_fn(Seq<char>, Seq<char>) -> Option<Seq<char>> {
    |k: Seq<char>, s: Seq<char>| lookup(vals, k)
}

/// No directive has a value.
pub open spec fn no_values() -> spec_fn(Seq<char>, Seq<char>) -> Option<Seq<char>> {
    |k: Seq<char>, s: Seq<char>| None::<Seq<char>>
}

/// A rendered item: its template and its directive table.
pub type Entry = (Vec<char>, Vec<(Vec<char>, Vec<char>)>);

pub open spec fn entries_view(es: Seq<Entry>) -> Seq<(Seq<char>, Seq<(Seq<char>, Seq<char>)>)> {
    es.map_values(|e: Entry| (e.0@, table_view(e.1@)))
}

/// The item list directive gives the items, each substituted in the style in
/// force at the directive, joined by the separator; the count directive gives
/// their number.
pub open spec fn items_fn(
    items_key: Seq<char>,
    count_key: Seq<char>,
    es: Seq<(Seq<char>, Seq<(Seq<char>, Seq<char>)>)>,
    sep: Seq<char>,
) -> spec_fn(Seq<char>, Seq<char>) -> Option<Seq<char>> {
    |k: Seq<char>, s: Seq<char>| if k == items_key {
        Some(join(Seq::new(es.len(), |i: int| pane_template(es[i].0, s, table_fn(es[i].1))), sep))
    } else if k == count_key {
        Some(decimal(es.len()))
    } else {
        None
    }
}

/// What fills in the directives of a template.
pub enum Values<'a> {
    Table(&'a Vec<(Vec<char>, Vec<char>)>),
    Nothing,
    Items { items_key: &'a Vec<char>, count_key: &'a Vec<char>, entries: &'a Vec<Entry>, sep: &'a Vec<char> },
}

pub open spec fn values_fn(v: Values) -> spec_fn(Seq<char>, Seq<char>) -> Option<Seq<char>> {
    match v {
        Values::Table(t) => table_fn(table_view(t@)),
        Values::Nothing => no_values(),
        Values::Items { items_key, count_key, entries, sep } => items_fn(items_key@, count_key@, entries_view(entries@), sep@),
    }
}

pub open spec fn values_rank(v: Values) -> int {
    match v {
        Values::Items { .. } => 1,
        _ => 0,
    }
}

fn last_marker_index(lit: &Vec<char>, from: usize, to: usize) -> (r: Option<usize>)
    requires
        from <= to <= lit@.len(),
    ensures
        match r {
            Some(m) => last_marker(lit@.subrange(from as int, to as int)) == Some(m - from) && from <= m < to,
            None => last_marker(lit@.subrange(from as int, to as int)) is None,
        },
{
    let mut k = to;
    while k - from >= 2
        invariant
            from <= to <= lit@.len(),
            from <= k <= to,
            last_marker(lit@.subrange(from as int, to as int)) == last_marker(lit@.subrange(from as int, k as int)),
        decreases k,
    {
        let ghost sub = lit@.subrange(from as int, k as int);
        assert(sub[sub.len() - 2] == lit@[k - 2]);
        assert(sub[sub.len() - 1] == lit@[k - 1]);
        if lit[k - 2] == '#' && lit[k - 1] == '[' {
            return Some(k - 2);
        }
        assert(sub.drop_last() =~= lit@.subrange(from as int, k - 1));
        k = k - 1;
    }
    None
}

fn next_char_in(t: &Vec<char>, c: char, from: usize) -> (r: Option<usize>)
    ensures
        match r {
            Some(i) => next_char(t@, c, from as int) == Some(i as int),
            None => next_char(t@, c, from as int) is None,
        },
{
    let mut i = from;
    while i < t.len()
        invariant
            from <= i,
            next_char(t@, c, from as int) == next_char(t@, c, i as int),
        decreases t.len() - i,
    {
        if t[i] == c {
            return Some(i);
        }
        i = i + 1;
    }
    None
}

proof fn lemma_next_char_shift(t: Seq<char>, c: char, from: int, to: int, k: int)
    requires
        0 <= from <= k <= to <= t.len(),
    ensures
        next_char(t.subrange(from, to), c, k - from) == match next_char(t, c, k) {
            Some(i) => if i < to { Some(i - from) } else { None::<int> },
            None => None::<int>,
        },
    decreases to - k,
{
    if k < to {
        assert(t.subrange(from, to)[k - from] == t[k]);
        if t[k] != c {
            lemma_next_char_shift(t, c, from, to, k + 1);
        }
    } else {
        lemma_next_char(t, c, k);
    }
}

fn push_range(out: &mut Vec<char>, s: &Vec<char>, from: usize, to: usize)
    requires
        from <= to <= s@.len(),
    ensures
        final(out)@ == old(out)@ + s@.subrange(from as int, to as int),
{
    let mut i = from;
    while i < to
        invariant
            from <= i <= to <= s@.len(),
            out@ == old(out)@ + s@.subrange(from as int, i as int),
        decreases to - i,
    {
        out.push(s[i]);
        assert(s@.subrange(from as int, i + 1) =~= s@.subrange(from as int, i as int).push(s@[i as int]));
        i = i + 1;
    }
}

fn copy_range(s: &Vec<char>, from: usize, to: usize) -> (r: Vec<char>)
    requires
        from <= to <= s@.len(),
    ensures
        r@ == s@.subrange(from as int, to as int),
{
    let mut r: Vec<char> = Vec::new();
    push_range(&mut r, s, from, to);
    r
}

/// The style after the literal `t[pos..s]`.
fn next_style(t: &Vec<char>, pos: usize, s: usize, style: &Vec<char>) -> (r: Vec<char>)
    requires
        pos <= s <= t@.len(),
    ensures
        r@ == style_after(t@.subrange(pos as int, s as int), style@),
{
    let ghost lit = t@.subrange(pos as int, s as int);
    match last_marker_index(t, pos, s) {
        Some(m) => {
            proof {
                lemma_next_char_shift(t@, ']', pos as int, s as int, m as int);
                lemma_next_char(t@, ']', m as int);
            }
            match next_char_in(t, ']', m) {
                Some(e) => {
                    if e < s {
                        assert(m <= e);
                        assert(lit.subrange(m - pos, e - pos + 1) =~= t@.subrange(m as int, e + 1));
                        copy_range(t, m, e + 1)
                    } else {
                        copy_range(style, 0, style.len())
                    }
                },
                None => copy_range(style, 0, style.len()),
            }
        },
        None => copy_range(style, 0, style.len()),
    }
}

fn lookup_in(t: &Vec<(Vec<char>, Vec<char>)>, key: &Vec<char>) -> (r: Option<Vec<char>>)
    ensures
        match r {
            Some(x) => lookup(table_view(t@), key@) == Some(x@),
            None => lookup(table_view(t@), key@) is None,
        },
{
    let ghost tv = table_view(t@);
    let mut i: usize = 0;
    assert(tv.subrange(0, tv.len() as int) =~= tv);
    while i < t.len()
        invariant
            i <= t@.len(),
            tv == table_view(t@),
            tv.len() == t@.len(),
            lookup(tv, key@) == lookup(tv.subrange(i as int, tv.len() as int), key@),
        decreases t.len() - i,
    {
        let ghost rest = tv.subrange(i as int, tv.len() as int);
        assert(rest[0] == tv[i as int]);
        assert(rest.subrange(1, rest.len() as int) =~= tv.subrange(i + 1, tv.len() as int));
        assert(tv[i as int] == (t@[i as int].0@, t@[i as int].1@));
        if crate::text::chars_eq(t[i].0.as_slice(), key.as_slice()) {
            let x = copy_range(&t[i].1, 0, t[i].1.len());
            assert(t@[i as int].1@.subrange(0, t@[i as int].1@.len() as int) =~= t@[i as int].1@);
            return Some(x);
        }
        i = i + 1;
    }
    None
}

fn value_of(v: &Values, key: &Vec<char>, style: &Vec<char>) -> (r: Option<Vec<char>>)
    ensures
        match r {
            Some(x) => values_fn(*v)(key@, style@) == Some(x@),
            None => values_fn(*v)(key@, style@) is None,
        },
    decreases values_rank(*v), 0int,
{
    match v {
        Values::Nothing => None,
        Values::Table(t) => lookup_in(t, key),
        Values::Items { items_key, count_key, entries, sep } => {
            if crate::text::chars_eq(key.as_slice(), items_key.as_slice()) {
                let ghost es = entries_view(entries@);
                let ghost parts = Seq::new(es.len(), |i: int| pane_template(es[i].0, style@, table_fn(es[i].1)));
                let mut out: Vec<char> = Vec::new();
                let mut i: usize = 0;
                while i < entries.len()
                    invariant
                        i <= entries@.len(),
                        values_rank(*v) == 1,
                        es == entries_view(entries@),
                        es.len() == entries@.len(),
                        parts == Seq::new(es.len(), |i: int| pane_template(es[i].0, style@, table_fn(es[i].1))),
                        out@ == join(parts.subrange(0, i as int), sep@),
                    decreases entries.len() - i,
                {
                    assert(parts.subrange(0, i + 1).drop_last() =~= parts.subrange(0, i as int));
                    let piece = pane_substitute(&entries[i].0, style, &Values::Table(&entries[i].1));
                    assert(es[i as int] == (entries@[i as int].0@, table_view(entries@[i as int].1@)));
                    assert(piece@ == parts[i as int]);
                    if i > 0 {
                        push_range(&mut out, sep, 0, sep.len());
                        assert(sep@.subrange(0, sep@.len() as int) =~= sep@);
                    }
                    push_range(&mut out, &piece, 0, piece.len());
                    assert(piece@.subrange(0, piece@.len() as int) =~= piece@);
                    if i == 0 {
                        assert(out@ =~= join(parts.subrange(0, 1), sep@));
                    } else {
                        assert(out@ =~= join(parts.subrange(0, i + 1), sep@));
                    }
                    i = i + 1;
                }
                assert(parts.subrange(0, parts.len() as int) =~= parts);
                Some(out)
            } else if crate::text::chars_eq(key.as_slice(), count_key.as_slice()) {
                let mut out: Vec<char> = Vec::new();
                push_decimal(&mut out, entries.len() as u64);
                proof {
                    assert(entries_view(entries@).len() == entries@.len());
                }
                Some(out)
            } else {
                None
            }
        },
    }
}

/// The scan of a template, appended to `out`.
fn scan_into(out: &mut Vec<char>, t: &Vec<char>, base: &Vec<char>, v: &Values)
    ensures
        final(out)@ == old(out)@ + pane_scan(t@, 0, base@, values_fn(*v)),
    decreases values_rank(*v), 1int,
{
    let ghost f = values_fn(*v);
    let mut pos: usize = 0;
    let mut style = copy_range(base, 0, base.len());
    assert(base@.subrange(0, base@.len() as int) =~= base@);
    let ghost start = out@;
    loop
        invariant
            pos <= t@.len(),
            start == old(out)@,
            f == values_fn(*v),
            out@ + pane_scan(t@, pos as int, style@, f) == start + pane_scan(t@, 0, base@, f),
        decreases t@.len() - pos,
    {
        proof { lemma_next_char(t@, '{', pos as int); }
        let s = match next_char_in(t, '{', pos) {
            Some(s) => s,
            None => {
                push_range(out, t, pos, t.len());
                assert(out@ =~= start + pane_scan(t@, 0, base@, f));
                return;
            },
        };
        proof { lemma_next_char(t@, '}', s as int); }
        let st = next_style(t, pos, s, &style);
        let e = match next_char_in(t, '}', s) {
            Some(e) => e,
            None => {
                push_range(out, t, pos, t.len());
                assert(out@ =~= start + pane_scan(t@, 0, base@, f));
                return;
            },
        };
        let n = t.len();
        assert(e < n);
        let ghost before = out@;
        push_range(out, t, pos, s);
        let d = copy_range(t, s, e + 1);
        let ghost mid = out@;
        match value_of(v, &d, &st) {
            Some(x) => {
                push_range(out, &st, 0, st.len());
                push_range(out, &x, 0, x.len());
                push_range(out, &st, 0, st.len());
                assert(st@.subrange(0, st@.len() as int) =~= st@);
                assert(x@.subrange(0, x@.len() as int) =~= x@);
                assert(f(d@, st@) == Some(x@));
                assert(out@ =~= mid + (st@ + x@ + st@));
            },
            None => {
                push_range(out, &d, 0, d.len());
                assert(d@.subrange(0, d@.len() as int) =~= d@);
                assert(f(d@, st@) is None);
            },
        }
        let ghost piece = match f(d@, st@) { Some(x) => st@ + x + st@, None => d@ };
        assert(out@ == mid + piece);
        assert(pane_scan(t@, pos as int, style@, f) == t@.subrange(pos as int, s as int) + piece + pane_scan(t@, e + 1, st@, f));
        assert(out@ + pane_scan(t@, e + 1, st@, f) =~= before + pane_scan(t@, pos as int, style@, f));
        style = st;
        pos = e + 1;
    }
}

fn stripped_is_empty(text: &Vec<char>) -> (b: bool)
    ensures
        b == (strip_markers(text@).len() == 0),
{
    let mut pos: usize = 0;
    assert(text@.subrange(0, text@.len() as int) =~= text@);
    loop
        invariant
            pos <= text@.len(),
            strip_markers(text@) == strip_markers(text@.subrange(pos as int, text@.len() as int)),
        decreases text@.len() - pos,
    {
        let ghost rest = text@.subrange(pos as int, text@.len() as int);
        let n = text.len();
        if n - pos >= 2 && text[pos] == '#' && text[pos + 1] == '[' {
            assert(rest[0] == '#' && rest[1] == '[');
            proof {
                lemma_next_char_shift(text@, ']', pos as int, n as int, pos + 2);
                lemma_next_char(text@, ']', pos + 2);
            }
            match next_char_in(text, ']', pos + 2) {
                Some(e) => {
                    assert(rest.subrange(e - pos + 1, rest.len() as int) =~= text@.subrange(e + 1, text@.len() as int));
                    pos = e + 1;
                },
                None => {
                    return false;
                },
            }
        } else {
            assert(n - pos >= 2 ==> rest[0] == text@[pos as int] && rest[1] == text@[pos + 1]);
            return n == pos;
        }
    }
}

/// Substitute a pane template framed by a base style.
pub fn pane_substitute(t: &Vec<char>, base: &Vec<char>, v: &Values) -> (r: Vec<char>)
    ensures
        r@ == pane_template(t@, base@, values_fn(*v)),
    decreases values_rank(*v), 2int,
{
    if t.len() == 0 {
        return Vec::new();
    }
    let mut out = copy_range(base, 0, base.len());
    assert(base@.subrange(0, base@.len() as int) =~= base@);
    scan_into(&mut out, t, base, v);
    push_range(&mut out, base, 0, base.len());
    if stripped_is_empty(&out) {
        Vec::new()
    } else {
        out
    }
}

} // verus!
