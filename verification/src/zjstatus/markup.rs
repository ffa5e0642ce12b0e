//! Text transforms of the status bar protocol: payload sanitizing, escaping
//! of inserted values, and non-recursive template substitution.

use vstd::prelude::*;

verus! {

/// Line breaks become spaces; nothing else changes.
pub open spec fn tab_char(c: char) -> char {
    if c == '\r' || c == '\n' { ' ' } else { c }
}

/// A tab payload: the text with line breaks replaced by spaces.
pub open spec fn sanitize_tab(s: Seq<char>) -> Seq<char> {
    s.map_values(|c: char| tab_char(c))
}

/// Every `::`, scanning left to right, becomes `: :`.
pub open spec fn split_colons(s: Seq<char>) -> Seq<char>
    decreases s.len(),
{
    if s.len() == 0 {
        Seq::empty()
    } else if s.len() >= 2 && s[0] == ':' && s[1] == ':' {
        ": :"@ + split_colons(s.subrange(2, s.len() as int))
    } else {
        seq![s[0]] + split_colons(s.subrange(1, s.len() as int))
    }
}

/// A pipe payload: a tab payload in which no `::` separator survives.
pub open spec fn sanitize_pipe(s: Seq<char>) -> Seq<char> {
    split_colons(sanitize_tab(s))
}

/// An inserted text value: line breaks become spaces, `#[` becomes `# [`,
/// and braces are escaped with a backslash.
pub open spec fn escape_value(s: Seq<char>) -> Seq<char>
    decreases s.len(),
{
    if s.len() == 0 {
        Seq::empty()
    } else {
        let rest = escape_value(s.subrange(1, s.len() as int));
        if s[0] == '#' && s.len() >= 2 && s[1] == '[' {
            "# "@ + rest
        } else if s[0] == '{' {
            "\\{"@ + rest
        } else if s[0] == '}' {
            "\\}"@ + rest
        } else {
            seq![tab_char(s[0])] + rest
        }
    }
}

/// Index of the first `c` at or after `from`.
pub open spec fn next_char(t: Seq<char>, c: char, from: int) -> Option<int>
    decreases t.len() - from,
{
    if from < 0 || from >= t.len() {
        None
    } else if t[from] == c {
        Some(from)
    } else {
        next_char(t, c, from + 1)
    }
}

pub proof fn lemma_next_char(t: Seq<char>, c: char, from: int)
    ensures
        next_char(t, c, from) matches Some(i) ==> from <= i < t.len() && t[i] == c,
        0 <= from ==> (next_char(t, c, from) is None <==> forall|j: int| from <= j < t.len() ==> t[j] != c),
        0 <= from ==> (next_char(t, c, from) matches Some(i) ==> forall|j: int| from <= j < i ==> t[j] != c),
    decreases t.len() - from,
{
    if 0 <= from < t.len() && t[from] != c {
        lemma_next_char(t, c, from + 1);
    }
}

/// The value of a directive in a table of replacements.
pub open spec fn lookup(vals: Seq<(Seq<char>, Seq<char>)>, key: Seq<char>) -> Option<Seq<char>>
    decreases vals.len(),
{
    if vals.len() == 0 {
        None
    } else if vals[0].0 == key {
        Some(vals[0].1)
    } else {
        lookup(vals.subrange(1, vals.len() as int), key)
    }
}

/// Substitute from `pos` on: each `{...}` of the template that the table
/// knows is replaced by its value, anything else is copied; inserted values
/// are never scanned again.
pub open spec fn substitute_from(t: Seq<char>, vals: Seq<(Seq<char>, Seq<char>)>, pos: int) -> Seq<char>
    decreases t.len() - pos,
{
    if pos < 0 || pos > t.len() {
        Seq::empty()
    } else {
        match next_char(t, '{', pos) {
            None => t.subrange(pos, t.len() as int),
            Some(s) => match next_char(t, '}', s) {
                None => t.subrange(pos, t.len() as int),
                Some(e) => {
                    proof {
                        lemma_next_char(t, '{', pos);
                        lemma_next_char(t, '}', s);
                    }
                    let directive = t.subrange(s, e + 1);
                    t.subrange(pos, s) + match lookup(vals, directive) {
                        Some(v) => v,
                        None => directive,
                    } + substitute_from(t, vals, e + 1)
                },
            },
        }
    }
}

pub open spec fn substitute(t: Seq<char>, vals: Seq<(Seq<char>, Seq<char>)>) -> Seq<char> {
    substitute_from(t, vals, 0)
}

pub open spec fn table_view(vals: Seq<(Vec<char>, Vec<char>)>) -> Seq<(Seq<char>, Seq<char>)> {
    vals.map_values(|p: (Vec<char>, Vec<char>)| (p.0@, p.1@))
}

pub fn sanitize_tab_chars(s: &Vec<char>) -> (r: Vec<char>)
    ensures
        r@ == sanitize_tab(s@),
{
    let mut r: Vec<char> = Vec::new();
    let mut i: usize = 0;
    while i < s.len()
        invariant
            i <= s@.len(),
            r@.len() == i,
            forall|j: int| 0 <= j < i ==> #[trigger] r@[j] == tab_char(s@[j]),
        decreases s.len() - i,
    {
        let c = s[i];
        if c == '\r' || c == '\n' {
            r.push(' ');
        } else {
            r.push(c);
        }
        i = i + 1;
    }
    assert(r@ =~= sanitize_tab(s@));
    r
}

pub fn split_colon_chars(s: &Vec<char>) -> (r: Vec<char>)
    ensures
        r@ == split_colons(s@),
{
    let mut r: Vec<char> = Vec::new();
    let mut i: usize = 0;
    assert(s@.subrange(0, s@.len() as int) =~= s@);
    while i < s.len()
        invariant
            i <= s@.len(),
            r@ + split_colons(s@.subrange(i as int, s@.len() as int)) == split_colons(s@),
        decreases s.len() - i,
    {
        let ghost rest = s@.subrange(i as int, s@.len() as int);
        let ghost old_r = r@;
        if i + 1 < s.len() && s[i] == ':' && s[i + 1] == ':' {
            proof { reveal_strlit(": :"); }
            assert(rest.subrange(2, rest.len() as int) =~= s@.subrange(i + 2, s@.len() as int));
            assert(rest[0] == ':' && rest[1] == ':');
            assert(split_colons(rest) == ": :"@ + split_colons(s@.subrange(i + 2, s@.len() as int)));
            r.push(':');
            r.push(' ');
            r.push(':');
            assert(r@ + split_colons(s@.subrange(i + 2, s@.len() as int)) =~= split_colons(s@));
            i = i + 2;
        } else {
            assert(rest.subrange(1, rest.len() as int) =~= s@.subrange(i + 1, s@.len() as int));
            assert(rest[0] == s@[i as int]);
            assert(!(rest.len() >= 2 && rest[0] == ':' && rest[1] == ':'));
            assert(split_colons(rest) == seq![s@[i as int]] + split_colons(s@.subrange(i + 1, s@.len() as int)));
            r.push(s[i]);
            assert(r@ + split_colons(s@.subrange(i + 1, s@.len() as int)) =~= split_colons(s@));
            i = i + 1;
        }
    }
    assert(s@.subrange(i as int, s@.len() as int) =~= Seq::<char>::empty());
    assert(r@ =~= split_colons(s@));
    r
}

pub fn sanitize_pipe_chars(s: &Vec<char>) -> (r: Vec<char>)
    ensures
        r@ == sanitize_pipe(s@),
{
    let t = sanitize_tab_chars(s);
    split_colon_chars(&t)
}

pub fn escape_chars(s: &Vec<char>) -> (r: Vec<char>)
    ensures
        r@ == escape_value(s@),
{
    let mut r: Vec<char> = Vec::new();
    let mut i: usize = 0;
    assert(s@.subrange(0, s@.len() as int) =~= s@);
    while i < s.len()
        invariant
            i <= s@.len(),
            r@ + escape_value(s@.subrange(i as int, s@.len() as int)) == escape_value(s@),
        decreases s.len() - i,
    {
        let ghost rest = s@.subrange(i as int, s@.len() as int);
        let ghost old_r = r@;
        proof {
            reveal_strlit("# ");
            reveal_strlit("\\{");
            reveal_strlit("\\}");
        }
        assert(rest.subrange(1, rest.len() as int) =~= s@.subrange(i + 1, s@.len() as int));
        assert(rest[0] == s@[i as int]);
        assert(i + 1 < s@.len() ==> rest[1] == s@[i + 1]);
        let c = s[i];
        if c == '#' && i + 1 < s.len() && s[i + 1] == '[' {
            r.push('#');
            r.push(' ');
        } else if c == '{' {
            r.push('\\');
            r.push('{');
        } else if c == '}' {
            r.push('\\');
            r.push('}');
        } else if c == '\r' || c == '\n' {
            r.push(' ');
        } else {
            r.push(c);
        }
        assert(r@ + escape_value(s@.subrange(i + 1, s@.len() as int)) =~= old_r + escape_value(rest));
        i = i + 1;
    }
    assert(s@.subrange(i as int, s@.len() as int) =~= Seq::<char>::empty());
    assert(r@ =~= escape_value(s@));
    r
}

fn next_char_index(t: &Vec<char>, c: char, from: usize) -> (r: Option<usize>)
    ensures
        match r {
            Some(i) => next_char(t@, c, from as int) == Some(i as int),
            None => next_char(t@, c, from as int) is None,
        },
{
    let mut i = from;
    while i < t.len()
        invariant
            from <= i,
            next_char(t@, c, from as int) == next_char(t@, c, i as int),
        decreases t.len() - i,
    {
        if t[i] == c {
            return Some(i);
        }
        i = i + 1;
    }
    None
}

fn lookup_value(vals: &Vec<(Vec<char>, Vec<char>)>, key: &Vec<char>) -> (r: Option<usize>)
    ensures
        match r {
            Some(i) => i < vals@.len() && lookup(table_view(vals@), key@) == Some(vals@[i as int].1@),
            None => lookup(table_view(vals@), key@) is None,
        },
{
    let ghost tv = table_view(vals@);
    let mut i: usize = 0;
    assert(tv.subrange(0, tv.len() as int) =~= tv);
    while i < vals.len()
        invariant
            i <= vals@.len(),
            tv == table_view(vals@),
            tv.len() == vals@.len(),
            lookup(tv, key@) == lookup(tv.subrange(i as int, tv.len() as int), key@),
        decreases vals.len() - i,
    {
        let ghost rest = tv.subrange(i as int, tv.len() as int);
        assert(rest[0] == tv[i as int]);
        assert(rest.subrange(1, rest.len() as int) =~= tv.subrange(i + 1, tv.len() as int));
        if crate::text::chars_eq(&vals[i].0, key) {
            return Some(i);
        }
        i = i + 1;
    }
    None
}

fn push_all(out: &mut Vec<char>, s: &Vec<char>, from: usize, to: usize)
    requires
        from <= to <= s@.len(),
    ensures
        final(out)@ == old(out)@ + s@.subrange(from as int, to as int),
{
    let mut i = from;
    while i < to
        invariant
            from <= i <= to <= s@.len(),
            out@ == old(out)@ + s@.subrange(from as int, i as int),
        decreases to - i,
    {
        out.push(s[i]);
        assert(s@.subrange(from as int, i + 1) =~= s@.subrange(from as int, i as int).push(s@[i as int]));
        i = i + 1;
    }
}

/// Substitute the directives of a template from a table of replacements.
pub fn substitute_chars(t: &Vec<char>, vals: &Vec<(Vec<char>, Vec<char>)>) -> (r: Vec<char>)
    ensures
        r@ == substitute(t@, table_view(vals@)),
{
    let ghost tv = table_view(vals@);
    let mut out: Vec<char> = Vec::new();
    let mut pos: usize = 0;
    loop
        invariant
            pos <= t@.len(),
            tv == table_view(vals@),
            out@ + substitute_from(t@, tv, pos as int) == substitute(t@, tv),
        decreases t@.len() - pos,
    {
        proof { lemma_next_char(t@, '{', pos as int); }
        let s = match next_char_index(t, '{', pos) {
            Some(s) => s,
            None => {
                push_all(&mut out, t, pos, t.len());
                assert(out@ =~= substitute(t@, tv));
                return out;
            },
        };
        proof { lemma_next_char(t@, '}', s as int); }
        let e = match next_char_index(t, '}', s) {
            Some(e) => e,
            None => {
                push_all(&mut out, t, pos, t.len());
                assert(out@ =~= substitute(t@, tv));
                return out;
            },
        };
        let ghost before = out@;
        push_all(&mut out, t, pos, s);
        let n = t.len();
        assert(e < n);
        let mut directive: Vec<char> = Vec::new();
        push_all(&mut directive, t, s, e + 1);
        assert(directive@ =~= t@.subrange(s as int, e + 1));
        let ghost mid = out@;
        match lookup_value(vals, &directive) {
            Some(k) => {
                let v = &vals[k].1;
                push_all(&mut out, v, 0, v.len());
                assert(v@.subrange(0, v@.len() as int) =~= v@);
            },
            None => {
                push_all(&mut out, &directive, 0, directive.len());
                assert(directive@.subrange(0, directive@.len() as int) =~= directive@);
            },
        }
        let ghost piece = match lookup(tv, directive@) { Some(v) => v, None => directive@ };
        assert(out@ == mid + piece);
        assert(mid == before + t@.subrange(pos as int, s as int));
        assert(substitute_from(t@, tv, pos as int) == t@.subrange(pos as int, s as int) + piece + substitute_from(t@, tv, e + 1));
        assert(out@ + substitute_from(t@, tv, e + 1) =~= before + substitute_from(t@, tv, pos as int));
        pos = e + 1;
    }
}

} // verus!
