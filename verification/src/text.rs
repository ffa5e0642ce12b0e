//! Character-level helpers shared by the parsers and renderers.

use vstd::prelude::*;

verus! {

/// The character sequence of a decimal digit value.
pub open spec fn digit_char(d: nat) -> char {
    if d == 0 { '0' }
    else if d == 1 { '1' }
    else if d == 2 { '2' }
    else if d == 3 { '3' }
    else if d == 4 { '4' }
    else if d == 5 { '5' }
    else if d == 6 { '6' }
    else if d == 7 { '7' }
    else if d == 8 { '8' }
    else { '9' }
}

/// Decimal rendering of a natural number, without leading zeros.
pub open spec fn decimal(n: nat) -> Seq<char>
    decreases n,
{
    if n < 10 {
        seq![digit_char(n)]
    } else {
        decimal(n / 10).push(digit_char(n % 10))
    }
}

pub open spec fn is_ascii_digit(c: char) -> bool {
    '0' <= c && c <= '9'
}

pub open spec fn all_ascii_digits(s: Seq<char>) -> bool {
    forall|i: int| 0 <= i < s.len() ==> is_ascii_digit(#[trigger] s[i])
}

pub open spec fn digit_value(c: char) -> nat {
    (c as nat - '0' as nat) as nat
}

/// The number that a string of decimal digits denotes.
pub open spec fn digits_value(s: Seq<char>) -> nat
    decreases s.len(),
{
    if s.len() == 0 {
        0
    } else {
        digits_value(s.drop_last()) * 10 + digit_value(s.last())
    }
}

/// Why `str::parse` rejects a string as an unsigned integer.
#[derive(Debug, Clone, Copy, PartialEq, Eq, Structural)]
pub enum IntErrorKind {
    Empty,
    InvalidDigit,
    PosOverflow,
}

impl IntErrorKind {
    /// The text that std's `ParseIntError` displays for this kind.
    pub fn description(&self) -> (s: String)
        ensures
            s@ == int_error_text(*self),
    {
        match self {
            IntErrorKind::Empty => to_string("cannot parse integer from empty string"),
            IntErrorKind::InvalidDigit => to_string("invalid digit found in string"),
            IntErrorKind::PosOverflow => to_string("number too large to fit in target type"),
        }
    }
}

pub open spec fn int_error_text(k: IntErrorKind) -> Seq<char> {
    match k {
        IntErrorKind::Empty => "cannot parse integer from empty string"@,
        IntErrorKind::InvalidDigit => "invalid digit found in string"@,
        IntErrorKind::PosOverflow => "number too large to fit in target type"@,
    }
}

/// Scan decimal digits left to right, failing at the first non-digit or at the
/// first digit that takes the value past `max`.
pub open spec fn scan_digits(d: Seq<char>, max: nat, acc: nat) -> Result<nat, IntErrorKind>
    decreases d.len(),
{
    if d.len() == 0 {
        Ok(acc)
    } else if !is_ascii_digit(d[0]) {
        Err(IntErrorKind::InvalidDigit)
    } else if acc * 10 + digit_value(d[0]) > max {
        Err(IntErrorKind::PosOverflow)
    } else {
        scan_digits(d.drop_first(), max, acc * 10 + digit_value(d[0]))
    }
}

/// What `str::parse` of an unsigned integer type whose maximum is `max` returns:
/// an optional `+` and then decimal digits, scanned left to right.
pub open spec fn parse_unsigned(s: Seq<char>, max: nat) -> Result<nat, IntErrorKind> {
    if s.len() == 0 {
        Err(IntErrorKind::Empty)
    } else if s.len() == 1 && s[0] == '+' {
        Err(IntErrorKind::InvalidDigit)
    } else if s[0] == '+' {
        scan_digits(s.drop_first(), max, 0)
    } else {
        scan_digits(s, max, 0)
    }
}

pub open spec fn is_ascii_alphanumeric(c: char) -> bool {
    ('0' <= c && c <= '9') || ('a' <= c && c <= 'z') || ('A' <= c && c <= 'Z')
}

pub open spec fn is_prefix(p: Seq<char>, s: Seq<char>) -> bool {
    p.len() <= s.len() && s.subrange(0, p.len() as int) == p
}

pub open spec fn is_suffix(p: Seq<char>, s: Seq<char>) -> bool {
    p.len() <= s.len() && s.subrange(s.len() - p.len(), s.len() as int) == p
}

/// Whether `p` occurs in `s` starting at index `i`.
pub open spec fn occurs_at(s: Seq<char>, p: Seq<char>, i: int) -> bool {
    0 <= i && i + p.len() <= s.len() && s.subrange(i, i + p.len()) == p
}

/// Index of the first occurrence of `p` in `s` at or after `from`.
pub open spec fn find_from(s: Seq<char>, p: Seq<char>, from: int) -> Option<int>
    decreases s.len() - from,
{
    if from < 0 || from + p.len() > s.len() {
        None
    } else if p.len() == 0 || s.subrange(from, from + p.len()) == p {
        Some(from)
    } else {
        find_from(s, p, from + 1)
    }
}

/// Index of the first occurrence of `p` in `s`, as `str::find` reports it.
pub open spec fn find(s: Seq<char>, p: Seq<char>) -> Option<int> {
    find_from(s, p, 0)
}

/// Split `s` at every occurrence of the nonempty separator `sep`, as `str::split` does.
pub open spec fn split_on(s: Seq<char>, sep: Seq<char>) -> Seq<Seq<char>>
    decreases s.len(),
{
    if sep.len() == 0 {
        seq![s]
    } else {
        match find(s, sep) {
            Some(i) => {
                if 0 <= i && i + sep.len() <= s.len() {
                    seq![s.subrange(0, i)] + split_on(s.subrange(i + sep.len(), s.len() as int), sep)
                } else {
                    seq![s]
                }
            },
            None => seq![s],
        }
    }
}

/// The text of `s` before the first `sep` and after it, as `str::split_once` returns.
pub open spec fn split_once(s: Seq<char>, sep: Seq<char>) -> Option<(Seq<char>, Seq<char>)> {
    match find(s, sep) {
        Some(i) => Some((s.subrange(0, i), s.subrange(i + sep.len(), s.len() as int))),
        None => None,
    }
}

pub proof fn lemma_find_from_bounds(s: Seq<char>, p: Seq<char>, from: int)
    ensures
        find_from(s, p, from) matches Some(i) ==> from <= i && 0 <= i && i + p.len() <= s.len()
            && s.subrange(i, i + p.len()) == p,
    decreases s.len() - from,
{
    if from < 0 || from + p.len() > s.len() {
    } else if p.len() == 0 || s.subrange(from, from + p.len()) == p {
        assert(p.len() == 0 ==> s.subrange(from, from + p.len()) =~= p);
    } else {
        lemma_find_from_bounds(s, p, from + 1);
    }
}

/// Whether `p` occurs in `s` at index `i`.
pub fn matches_at(s: &[char], p: &[char], i: usize) -> (b: bool)
    ensures
        b == (i + p@.len() <= s@.len() && s@.subrange(i as int, i + p@.len()) == p@),
{
    let n = s.len();
    if i > n || p.len() > n - i {
        return false;
    }
    let mut k: usize = 0;
    while k < p.len()
        invariant
            n == s@.len(),
            i as int + p@.len() <= n,
            k <= p@.len(),
            forall|j: int| 0 <= j < k ==> s@[i + j] == p@[j],
        decreases p.len() - k,
    {
        assert(i + k < s@.len());
        if s[i + k] != p[k] {
            assert(s@.subrange(i as int, i + p@.len())[k as int] != p@[k as int]);
            return false;
        }
        k = k + 1;
    }
    assert(s@.subrange(i as int, i + p@.len()) =~= p@);
    true
}

/// First index at or after `from` where `p` occurs in `s`.
pub fn find_chars_from(s: &[char], p: &[char], from: usize) -> (r: Option<usize>)
    ensures
        match r {
            Some(i) => find_from(s@, p@, from as int) == Some(i as int),
            None => find_from(s@, p@, from as int).is_none(),
        },
{
    if p.len() == 0 {
        if from <= s.len() {
            return Some(from);
        }
        return None;
    }
    let mut i = from;
    while i < s.len() && p.len() <= s.len() - i
        invariant
            from <= i,
            p@.len() > 0,
            find_from(s@, p@, from as int) == find_from(s@, p@, i as int),
        decreases s.len() - i,
    {
        if matches_at(s, p, i) {
            return Some(i);
        }
        i = i + 1;
    }
    None
}

/// First index where `p` occurs in `s`.
pub fn find_chars(s: &[char], p: &[char]) -> (r: Option<usize>)
    ensures
        match r {
            Some(i) => find(s@, p@) == Some(i as int),
            None => find(s@, p@).is_none(),
        },
{
    find_chars_from(s, p, 0)
}

/// Copy `s[from..to]`.
pub fn slice_chars(s: &[char], from: usize, to: usize) -> (r: Vec<char>)
    requires
        from <= to <= s@.len(),
    ensures
        r@ == s@.subrange(from as int, to as int),
{
    let mut r: Vec<char> = Vec::new();
    let mut i = from;
    while i < to
        invariant
            from <= i <= to <= s@.len(),
            r@ == s@.subrange(from as int, i as int),
        decreases to - i,
    {
        r.push(s[i]);
        assert(s@.subrange(from as int, i + 1) == s@.subrange(from as int, i as int).push(s@[i as int]));
        i = i + 1;
    }
    r
}

/// Split at every occurrence of the nonempty separator `sep`.
pub fn split_chars(s: &[char], sep: &[char]) -> (r: Vec<Vec<char>>)
    requires
        sep@.len() > 0,
    ensures
        r@.len() == split_on(s@, sep@).len(),
        forall|k: int| 0 <= k < r@.len() ==> #[trigger] r@[k]@ == split_on(s@, sep@)[k],
{
    let mut r: Vec<Vec<char>> = Vec::new();
    let mut pos: usize = 0;
    let ghost mut pieces: Seq<Seq<char>> = Seq::empty();
    assert(s@.subrange(0, s@.len() as int) == s@);
    assert(Seq::<Seq<char>>::empty() + split_on(s@, sep@) == split_on(s@, sep@));
    loop
        invariant_except_break
            split_on(s@, sep@) == pieces + split_on(s@.subrange(pos as int, s@.len() as int), sep@),
        invariant
            pos <= s@.len(),
            sep@.len() > 0,
            r@.len() == pieces.len(),
            forall|k: int| 0 <= k < r@.len() ==> #[trigger] r@[k]@ == pieces[k],
        ensures
            r@.len() == split_on(s@, sep@).len(),
            forall|k: int| 0 <= k < r@.len() ==> #[trigger] r@[k]@ == split_on(s@, sep@)[k],
        decreases s@.len() - pos,
    {
        let ghost rest = s@.subrange(pos as int, s@.len() as int);
        let tail = slice_chars(s, pos, s.len());
        match find_chars(&tail, sep) {
            Some(i) => {
                proof { lemma_find_from_bounds(rest, sep@, 0); }
                let piece = slice_chars(&tail, 0, i);
                let ghost next = rest.subrange(i + sep@.len(), rest.len() as int);
                assert(next == s@.subrange(pos + i + sep@.len(), s@.len() as int));
                assert(split_on(rest, sep@) == seq![rest.subrange(0, i as int)] + split_on(next, sep@));
                proof {
                    let old_pieces = pieces;
                    pieces = pieces.push(piece@);
                    assert(old_pieces + (seq![piece@] + split_on(next, sep@)) == pieces + split_on(next, sep@));
                }
                r.push(piece);
                pos = pos + i + sep.len();
            },
            None => {
                assert(split_on(rest, sep@) == seq![rest]);
                proof {
                    let old_pieces = pieces;
                    pieces = pieces.push(tail@);
                    assert(old_pieces + seq![rest] == pieces);
                    assert(split_on(s@, sep@) == pieces);
                }
                r.push(tail);
                break;
            },
        }
    }
    r
}

/// Whether two character slices are equal.
pub fn chars_eq(a: &[char], b: &[char]) -> (r: bool)
    ensures
        r == (a@ == b@),
{
    if a.len() != b.len() {
        return false;
    }
    let mut i: usize = 0;
    while i < a.len()
        invariant
            a@.len() == b@.len(),
            i <= a@.len(),
            forall|j: int| 0 <= j < i ==> a@[j] == b@[j],
        decreases a.len() - i,
    {
        if a[i] != b[i] {
            return false;
        }
        i = i + 1;
    }
    assert(a@ =~= b@);
    true
}

/// Whether two string slices hold the same characters.
pub fn str_equals(a: &str, b: &str) -> (r: bool)
    ensures
        r == (a@ == b@),
{
    let x = chars_of(a);
    let y = chars_of(b);
    chars_eq(&x, &y)
}

/// The characters of a string slice.
pub fn chars_of(s: &str) -> (v: Vec<char>)
    ensures
        v@ == s@,
{
    let n = s.unicode_len();
    let mut v: Vec<char> = Vec::new();
    let mut i: usize = 0;
    while i < n
        invariant
            n == s@.len(),
            i <= n,
            v@ == s@.subrange(0, i as int),
        decreases n - i,
    {
        let c = s.get_char(i);
        v.push(c);
        assert(s@.subrange(0, i + 1) == s@.subrange(0, i as int).push(c));
        i = i + 1;
    }
    assert(s@.subrange(0, n as int) == s@);
    v
}

/// Collect characters into a `String`.
#[verifier::external_body]
pub fn string_of(chars: &[char]) -> (s: String)
    ensures
        s@ == chars@,
{
    chars.iter().collect()
}

/// A `String` holding the same characters as a string slice.
pub fn to_string(s: &str) -> (r: String)
    ensures
        r@ == s@,
{
    s.to_owned()
}

/// Append the characters of `s` to `out`.
pub fn push_str(out: &mut Vec<char>, s: &str)
    ensures
        final(out)@ == old(out)@ + s@,
{
    let cs = chars_of(s);
    push_chars(out, &cs);
}

/// Append a slice of characters to `out`.
pub fn push_chars(out: &mut Vec<char>, cs: &[char])
    ensures
        final(out)@ == old(out)@ + cs@,
{
    let ghost start = out@;
    let mut i: usize = 0;
    while i < cs.len()
        invariant
            i <= cs@.len(),
            out@ == start + cs@.subrange(0, i as int),
        decreases cs.len() - i,
    {
        out.push(cs[i]);
        assert(cs@.subrange(0, i + 1) == cs@.subrange(0, i as int).push(cs@[i as int]));
        i = i + 1;
    }
    assert(cs@.subrange(0, cs@.len() as int) == cs@);
}

fn digit_to_char(d: u64) -> (c: char)
    requires
        d < 10,
    ensures
        c == digit_char(d as nat),
{
    if d == 0 { '0' }
    else if d == 1 { '1' }
    else if d == 2 { '2' }
    else if d == 3 { '3' }
    else if d == 4 { '4' }
    else if d == 5 { '5' }
    else if d == 6 { '6' }
    else if d == 7 { '7' }
    else if d == 8 { '8' }
    else { '9' }
}

/// Append the decimal rendering of `n` to `out`.
pub fn push_decimal(out: &mut Vec<char>, n: u64)
    ensures
        final(out)@ == old(out)@ + decimal(n as nat),
    decreases n,
{
    if n < 10 {
        out.push(digit_to_char(n));
    } else {
        push_decimal(out, n / 10);
        out.push(digit_to_char(n % 10));
    }
}

/// The decimal rendering of `n` as a `String`.
pub fn decimal_string(n: u64) -> (s: String)
    ensures
        s@ == decimal(n as nat),
{
    let mut v: Vec<char> = Vec::new();
    push_decimal(&mut v, n);
    string_of(&v)
}

proof fn lemma_scan_step(d: Seq<char>, i: int, max: nat, acc: nat)
    requires
        0 <= i < d.len(),
        is_ascii_digit(d[i]),
        acc * 10 + digit_value(d[i]) <= max,
    ensures
        scan_digits(d.subrange(i, d.len() as int), max, acc)
            == scan_digits(d.subrange(i + 1, d.len() as int), max, acc * 10 + digit_value(d[i])),
{
    assert(d.subrange(i, d.len() as int).drop_first() == d.subrange(i + 1, d.len() as int));
}

/// Parse an unsigned decimal number no greater than `max`, as `str::parse` does.
pub fn parse_unsigned_chars(s: &[char], max: u64) -> (r: Result<u64, IntErrorKind>)
    ensures
        match r {
            Ok(v) => parse_unsigned(s@, max as nat) == Ok::<nat, IntErrorKind>(v as nat),
            Err(k) => parse_unsigned(s@, max as nat) == Err::<nat, IntErrorKind>(k),
        },
{
    if s.len() == 0 {
        return Err(IntErrorKind::Empty);
    }
    if s.len() == 1 && s[0] == '+' {
        return Err(IntErrorKind::InvalidDigit);
    }
    let start: usize = if s[0] == '+' { 1 } else { 0 };
    assert(start == 1 ==> s@.subrange(1, s@.len() as int) == s@.drop_first());
    assert(start == 0 ==> s@.subrange(0, s@.len() as int) == s@);
    let mut acc: u64 = 0;
    let mut i: usize = start;
    while i < s.len()
        invariant
            start <= i <= s@.len(),
            acc <= max,
            parse_unsigned(s@, max as nat) == scan_digits(s@.subrange(i as int, s@.len() as int), max as nat, acc as nat),
        decreases s.len() - i,
    {
        let c = s[i];
        let ghost rest = s@.subrange(i as int, s@.len() as int);
        assert(rest[0] == c);
        if !('0' <= c && c <= '9') {
            return Err(IntErrorKind::InvalidDigit);
        }
        let dv = (c as u32 - '0' as u32) as u64;
        assert(dv as nat == digit_value(c));
        if dv > max || acc > (max - dv) / 10 {
            assert(acc * 10 + dv > max) by (nonlinear_arith)
                requires dv > max || acc > (max - dv) / 10, acc >= 0;
            return Err(IntErrorKind::PosOverflow);
        }
        proof {
            assert(acc * 10 + dv <= max) by (nonlinear_arith)
                requires acc <= (max - dv) / 10, dv <= max;
            lemma_scan_step(s@, i as int, max as nat, acc as nat);
        }
        acc = acc * 10 + dv;
        i = i + 1;
    }
    assert(s@.subrange(i as int, s@.len() as int).len() == 0);
    Ok(acc)
}


/// Whether a text has no `:`.
pub open spec fn no_colon(a: Seq<char>) -> bool {
    forall|i: int| 0 <= i < a.len() ==> #[trigger] a[i] != ':'
}

proof fn lemma_find_from_no_colon(s: Seq<char>, from: int, to: int)
    requires
        0 <= from <= to <= s.len(),
        forall|i: int| from <= i < to ==> #[trigger] s[i] != ':',
    ensures
        find_from(s, "::"@, from) == find_from(s, "::"@, to),
    decreases to - from,
{
    reveal_strlit("::");
    if from < to {
        if from + 2 <= s.len() {
            assert(s.subrange(from, from + 2)[0] == s[from]);
            assert(s.subrange(from, from + 2) != "::"@);
        }
        lemma_find_from_no_colon(s, from + 1, to);
    }
}

/// The first `::` of `a::b` follows `a` when `a` has no `:`.
pub proof fn lemma_find_sep(a: Seq<char>, b: Seq<char>)
    requires
        no_colon(a),
    ensures
        find(a + "::"@ + b, "::"@) == Some(a.len() as int),
{
    reveal_strlit("::");
    let s = a + "::"@ + b;
    assert forall|i: int| 0 <= i < a.len() implies #[trigger] s[i] != ':' by {
        assert(s[i] == a[i]);
    }
    lemma_find_from_no_colon(s, 0, a.len() as int);
    assert(s.subrange(a.len() as int, a.len() as int + 2) =~= "::"@);
}

/// A text without `:` holds no `::`.
pub proof fn lemma_find_none(a: Seq<char>)
    requires
        no_colon(a),
    ensures
        find(a, "::"@) is None,
{
    reveal_strlit("::");
    lemma_find_from_no_colon(a, 0, a.len() as int);
}

/// Splitting `a::b` on `::` gives `a`, then the pieces of `b`, when `a` has no `:`.
pub proof fn lemma_split_sep(a: Seq<char>, b: Seq<char>)
    requires
        no_colon(a),
    ensures
        split_once(a + "::"@ + b, "::"@) == Some((a, b)),
        split_on(a + "::"@ + b, "::"@) == seq![a] + split_on(b, "::"@),
{
    reveal_strlit("::");
    lemma_find_sep(a, b);
    let s = a + "::"@ + b;
    assert(s.subrange(0, a.len() as int) =~= a);
    assert(s.subrange(a.len() as int + 2, s.len() as int) =~= b);
}

/// A text without `:` splits into itself.
pub proof fn lemma_split_none(a: Seq<char>)
    requires
        no_colon(a),
    ensures
        split_once(a, "::"@) is None,
        split_on(a, "::"@) == seq![a],
{
    reveal_strlit("::");
    lemma_find_none(a);
}


proof fn lemma_scan_push(d: Seq<char>, c: char, max: nat, acc: nat)
    requires
        is_ascii_digit(c),
    ensures
        scan_digits(d.push(c), max, acc) == match scan_digits(d, max, acc) {
            Ok(v) => if v * 10 + digit_value(c) > max { Err(IntErrorKind::PosOverflow) } else { Ok(v * 10 + digit_value(c)) },
            Err(e) => Err(e),
        },
    decreases d.len(),
{
    let t = d.push(c);
    if d.len() == 0 {
        assert(t[0] == c);
        assert(t.drop_first() =~= Seq::<char>::empty());
        let a2 = acc * 10 + digit_value(c);
        assert(scan_digits(Seq::<char>::empty(), max, a2) == Ok::<nat, IntErrorKind>(a2));
        assert(scan_digits(d, max, acc) == Ok::<nat, IntErrorKind>(acc));
    } else {
        assert(t[0] == d[0]);
        assert(t.drop_first() =~= d.drop_first().push(c));
        if is_ascii_digit(d[0]) && acc * 10 + digit_value(d[0]) <= max {
            lemma_scan_push(d.drop_first(), c, max, acc * 10 + digit_value(d[0]));
        }
    }
}

proof fn lemma_digit_char(d: nat)
    requires
        d < 10,
    ensures
        is_ascii_digit(digit_char(d)),
        digit_value(digit_char(d)) == d,
{
}

/// The decimal rendering of a number is made of digits, the first not `+`.
pub proof fn lemma_decimal_digits(n: nat)
    ensures
        decimal(n).len() > 0,
        all_ascii_digits(decimal(n)),
    decreases n,
{
    if n < 10 {
        lemma_digit_char(n);
    } else {
        lemma_decimal_digits(n / 10);
        lemma_digit_char(n % 10);
        let d = decimal(n / 10);
        assert forall|i: int| 0 <= i < decimal(n).len() implies is_ascii_digit(#[trigger] decimal(n)[i]) by {
            if i < d.len() { assert(decimal(n)[i] == d[i]); }
        }
    }
}

proof fn lemma_scan_decimal(n: nat, max: nat)
    requires
        n <= max,
    ensures
        scan_digits(decimal(n), max, 0) == Ok::<nat, IntErrorKind>(n),
    decreases n,
{
    if n < 10 {
        lemma_digit_char(n);
        lemma_scan_push(Seq::<char>::empty(), digit_char(n), max, 0);
        assert(Seq::<char>::empty().push(digit_char(n)) =~= decimal(n));
    } else {
        lemma_scan_decimal(n / 10, max);
        lemma_digit_char(n % 10);
        lemma_scan_push(decimal(n / 10), digit_char(n % 10), max, 0);
    }
}

/// Reading back the decimal rendering of a number that fits gives the number.
pub proof fn lemma_parse_decimal(n: nat, max: nat)
    requires
        n <= max,
    ensures
        parse_unsigned(decimal(n), max) == Ok::<nat, IntErrorKind>(n),
{
    lemma_decimal_digits(n);
    lemma_scan_decimal(n, max);
    assert(is_ascii_digit(decimal(n)[0]));
}

/// A decimal rendering has no `:`.
pub proof fn lemma_decimal_no_colon(n: nat)
    ensures
        no_colon(decimal(n)),
{
    lemma_decimal_digits(n);
    assert forall|i: int| 0 <= i < decimal(n).len() implies #[trigger] decimal(n)[i] != ':' by {
        assert(is_ascii_digit(decimal(n)[i]));
    }
}


/// Pieces joined with `::`.
pub open spec fn join_sep(ps: Seq<Seq<char>>) -> Seq<char>
    decreases ps.len(),
{
    if ps.len() <= 1 {
        if ps.len() == 1 { ps[0] } else { Seq::empty() }
    } else {
        ps[0] + "::"@ + join_sep(ps.drop_first())
    }
}

/// Appending a piece appends `::` and the piece.
pub proof fn lemma_join_push(ps: Seq<Seq<char>>, x: Seq<char>)
    requires
        ps.len() > 0,
    ensures
        join_sep(ps.push(x)) == join_sep(ps) + "::"@ + x,
    decreases ps.len(),
{
    let q = ps.push(x);
    assert(q[0] == ps[0]);
    if ps.len() == 1 {
        assert(q.drop_first() =~= seq![x]);
        assert(join_sep(seq![x]) == x);
        assert(join_sep(ps) == ps[0]);
        assert(join_sep(q) == ps[0] + "::"@ + x);
    } else {
        assert(q.drop_first() =~= ps.drop_first().push(x));
        lemma_join_push(ps.drop_first(), x);
        assert(join_sep(q) == ps[0] + "::"@ + join_sep(ps.drop_first().push(x)));
        assert(join_sep(ps) == ps[0] + "::"@ + join_sep(ps.drop_first()));
        assert(join_sep(q) =~= join_sep(ps) + "::"@ + x);
    }
}

/// Splitting pieces without `:` joined with `::` gives the pieces back.
pub proof fn lemma_split_join(ps: Seq<Seq<char>>)
    requires
        ps.len() > 0,
        forall|i: int| 0 <= i < ps.len() ==> no_colon(#[trigger] ps[i]),
    ensures
        split_on(join_sep(ps), "::"@) == ps,
    decreases ps.len(),
{
    reveal_strlit("::");
    if ps.len() == 1 {
        assert(no_colon(ps[0]));
        lemma_split_none(ps[0]);
        assert(seq![ps[0]] =~= ps);
    } else {
        let rest = ps.drop_first();
        assert forall|i: int| 0 <= i < rest.len() implies no_colon(#[trigger] rest[i]) by {
            assert(rest[i] == ps[i + 1]);
        }
        lemma_split_join(rest);
        assert(no_colon(ps[0]));
        lemma_split_sep(ps[0], join_sep(rest));
        assert(seq![ps[0]] + rest =~= ps);
    }
}

} // verus!
