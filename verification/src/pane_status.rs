//! Sanitizing of per-pane status text for zjstatus.
//!
//! Untrusted opening braces become `{ `: receiver click routing searches already
//! expanded output for widget tokens, even without recursive template expansion.

use vstd::prelude::*;
use crate::text::{
    all_ascii_digits, chars_eq, chars_of, find, find_chars, find_from, is_ascii_digit, is_prefix,
    lemma_find_from_bounds, parse_unsigned, parse_unsigned_chars, push_chars, push_str, slice_chars,
    split_chars, split_on, string_of,
};

verus! {

/// `char::is_control`: the Unicode `Cc` category.
pub open spec fn is_control(c: char) -> bool {
    c <= '\u{1f}' || ('\u{7f}' <= c && c <= '\u{9f}')
}

/// Controls, bidi and invisible formatting characters.
pub open spec fn unsafe_char(c: char) -> bool {
    is_control(c) || c == '\u{ad}' || c == '\u{61c}' || c == '\u{180e}'
        || ('\u{200b}' <= c && c <= '\u{200f}') || ('\u{2028}' <= c && c <= '\u{202e}')
        || ('\u{2060}' <= c && c <= '\u{206f}') || c == '\u{feff}' || ('\u{fff9}' <= c && c <= '\u{fffb}')
        || c == '\u{e0001}' || ('\u{e0020}' <= c && c <= '\u{e007f}')
}

pub fn unsafe_character(c: char) -> (r: bool)
    ensures
        r == unsafe_char(c),
{
    c <= '\u{1f}' || ('\u{7f}' <= c && c <= '\u{9f}') || c == '\u{ad}' || c == '\u{61c}' || c == '\u{180e}'
        || ('\u{200b}' <= c && c <= '\u{200f}') || ('\u{2028}' <= c && c <= '\u{202e}')
        || ('\u{2060}' <= c && c <= '\u{206f}') || c == '\u{feff}' || ('\u{fff9}' <= c && c <= '\u{fffb}')
        || c == '\u{e0001}' || ('\u{e0020}' <= c && c <= '\u{e007f}')
}

/// Plain-text sanitizing: unsafe characters become spaces, `#[` becomes `# [`,
/// and every `{` is followed by a space.
pub open spec fn escape_seq(s: Seq<char>) -> Seq<char>
    decreases s.len(),
{
    if s.len() == 0 {
        Seq::empty()
    } else {
        let prev = escape_seq(s.drop_last());
        let c = s.last();
        if unsafe_char(c) {
            prev.push(' ')
        } else {
            let spaced = if c == '[' && prev.len() > 0 && prev.last() == '#' { prev.push(' ') } else { prev };
            if c == '{' { spaced.push(c).push(' ') } else { spaced.push(c) }
        }
    }
}

/// Sanitize plain text for zjstatus: replace controls, bidi and invisible
/// formatting characters with spaces, and neutralize `#[` as `# [`.
/// Add a space after every `{`, preserving `}`.
pub fn escape_text(value: &str) -> (r: String)
    ensures
        r@ == escape_seq(value@),
{
    let cs = chars_of(value);
    let out = escape_chars(&cs);
    string_of(&out)
}

pub fn escape_chars(cs: &[char]) -> (out: Vec<char>)
    ensures
        out@ == escape_seq(cs@),
{
    let mut out: Vec<char> = Vec::new();
    let mut i: usize = 0;
    while i < cs.len()
        invariant
            i <= cs@.len(),
            out@ == escape_seq(cs@.subrange(0, i as int)),
        decreases cs.len() - i,
    {
        let c = cs[i];
        assert(cs@.subrange(0, i + 1).drop_last() == cs@.subrange(0, i as int));
        if unsafe_character(c) {
            out.push(' ');
        } else {
            let n = out.len();
            if c == '[' && n > 0 && out[n - 1] == '#' {
                out.push(' ');
            }
            out.push(c);
            if c == '{' {
                out.push(' ');
            }
        }
        i = i + 1;
    }
    assert(cs@.subrange(0, cs@.len() as int) == cs@);
    out
}

pub open spec fn is_hex_digit(c: char) -> bool {
    ('0' <= c && c <= '9') || ('a' <= c && c <= 'f') || ('A' <= c && c <= 'F')
}

pub open spec fn color_name(s: Seq<char>) -> bool {
    s == "black"@ || s == "red"@ || s == "green"@ || s == "yellow"@ || s == "blue"@
        || s == "magenta"@ || s == "cyan"@ || s == "white"@
}

/// A supported color: `#rrggbb`, a decimal index up to 255, or a (bright) name.
pub open spec fn valid_color_spec(color: Seq<char>) -> bool {
    if color.len() > 0 && color[0] == '#' {
        color.len() == 7 && forall|i: int| 1 <= i < 7 ==> is_hex_digit(#[trigger] color[i])
    } else if color.len() > 0 && all_ascii_digits(color) {
        parse_unsigned(color, 255) is Ok
    } else {
        let base = if is_prefix("bright_"@, color) { color.subrange(7, color.len() as int) } else { color };
        color_name(base)
    }
}

fn lit_eq(s: &[char], lit: &str) -> (r: bool)
    ensures
        r == (s@ == lit@),
{
    let l = chars_of(lit);
    chars_eq(s, &l)
}

fn starts_with_lit(s: &[char], lit: &str) -> (r: bool)
    ensures
        r == is_prefix(lit@, s@),
{
    let l = chars_of(lit);
    if l.len() > s.len() {
        return false;
    }
    let head = slice_chars(s, 0, l.len());
    chars_eq(&head, &l)
}

pub fn valid_color(color: &[char]) -> (r: bool)
    ensures
        r == valid_color_spec(color@),
{
    proof {
        reveal_strlit("bright_");
        reveal_strlit("black");
        reveal_strlit("red");
        reveal_strlit("green");
        reveal_strlit("yellow");
        reveal_strlit("blue");
        reveal_strlit("magenta");
        reveal_strlit("cyan");
        reveal_strlit("white");
    }
    let n = color.len();
    if n > 0 && color[0] == '#' {
        if n != 7 {
            return false;
        }
        let mut i: usize = 1;
        while i < 7
            invariant
                n == 7 == color@.len(),
                color@[0] == '#',
                1 <= i <= 7,
                forall|j: int| 1 <= j < i ==> is_hex_digit(#[trigger] color@[j]),
            decreases 7 - i,
        {
            let c = color[i];
            if !(('0' <= c && c <= '9') || ('a' <= c && c <= 'f') || ('A' <= c && c <= 'F')) {
                assert(!is_hex_digit(color@[i as int]));
                return false;
            }
            i = i + 1;
        }
        return true;
    }
    if n > 0 {
        let mut all = true;
        let mut i: usize = 0;
        while i < n
            invariant
                n == color@.len(),
                n > 0,
                color@[0] != '#',
                i <= n,
                all == forall|j: int| 0 <= j < i ==> is_ascii_digit(#[trigger] color@[j]),
            decreases n - i,
        {
            let c = color[i];
            if !('0' <= c && c <= '9') {
                all = false;
            }
            i = i + 1;
        }
        if all {
            return parse_unsigned_chars(color, 255).is_ok();
        }
    }
    let base = if starts_with_lit(color, "bright_") { slice_chars(color, 7, n) } else { slice_chars(color, 0, n) };
    assert(!(color@.len() > 0 && color@[0] == '#'));
    assert(!(color@.len() > 0 && all_ascii_digits(color@)));
    assert(base@ == (if is_prefix("bright_"@, color@) { color@.subrange(7, color@.len() as int) } else { color@ }));
    lit_eq(&base, "black") || lit_eq(&base, "red") || lit_eq(&base, "green") || lit_eq(&base, "yellow")
        || lit_eq(&base, "blue") || lit_eq(&base, "magenta") || lit_eq(&base, "cyan") || lit_eq(&base, "white")
}

/// The error of one style directive, if it is not accepted.
pub open spec fn directive_error(d: Seq<char>) -> Option<Seq<char>> {
    if d == "bold"@ || d == "italic"@ || d == "underscore"@ {
        None
    } else {
        let color = if is_prefix("fg="@, d) {
            Some(d.subrange(3, d.len() as int))
        } else if is_prefix("bg="@, d) {
            Some(d.subrange(3, d.len() as int))
        } else {
            None
        };
        match color {
            None => Some("unsupported pane status style directive"@),
            Some(c) => if valid_color_spec(c) { None } else { Some("invalid pane status color"@) },
        }
    }
}

/// The error of the first rejected directive.
pub open spec fn directives_error(ds: Seq<Seq<char>>) -> Option<Seq<char>>
    decreases ds.len(),
{
    if ds.len() == 0 {
        None
    } else {
        match directive_error(ds[0]) {
            Some(e) => Some(e),
            None => directives_error(ds.drop_first()),
        }
    }
}

/// The error of a style marker's body; an empty style resets and is accepted.
pub open spec fn style_error(style: Seq<char>) -> Option<Seq<char>> {
    if style.len() == 0 { None } else { directives_error(split_on(style, ","@)) }
}

/// The error of the first rejected `#[...]` marker in `rest`, given the number
/// of markers already seen; more than 64 markers are rejected.
pub open spec fn markers_error(rest: Seq<char>, count: nat) -> Option<Seq<char>>
    decreases rest.len(),
{
    match find(rest, "#["@) {
        None => None,
        Some(start) => if 0 <= start && start + 2 <= rest.len() {
            let after = rest.subrange(start + 2, rest.len() as int);
            match find(after, "]"@) {
                None => Some("unterminated pane status style marker"@),
                Some(end) => if 0 <= end && end < after.len() {
                    if count + 1 > 64 {
                        Some("pane status exceeds 64 style markers"@)
                    } else {
                        match style_error(after.subrange(0, end)) {
                            Some(e) => Some(e),
                            None => markers_error(after.subrange(end + 1, after.len() as int), count + 1),
                        }
                    }
                } else {
                    None
                },
            }
        } else {
            None
        },
    }
}

/// Every `{` followed by a space.
pub open spec fn space_braces(s: Seq<char>) -> Seq<char>
    decreases s.len(),
{
    if s.len() == 0 {
        Seq::empty()
    } else if s.last() == '{' {
        space_braces(s.drop_last()) + seq!['{', ' ']
    } else {
        space_braces(s.drop_last()).push(s.last())
    }
}

/// The accepted, render-ready form of a pane status, or why it is rejected.
pub open spec fn render_status_spec(message: Seq<char>, formatted: bool) -> Result<Seq<char>, Seq<char>> {
    if vstd::utf8::encode_utf8(message).len() > 4096 {
        Err("pane status exceeds 4096 UTF-8 bytes"@)
    } else if exists|i: int| 0 <= i < message.len() && unsafe_char(#[trigger] message[i]) {
        Err("pane status contains unsafe control or formatting characters"@)
    } else if message.len() == 0 || !formatted {
        Ok(escape_seq(message))
    } else {
        match markers_error(message, 0) {
            Some(e) => Err(e),
            None => Ok("#[]"@ + space_braces(message) + "#[]"@),
        }
    }
}

fn check_directive(d: &[char]) -> (r: Option<String>)
    ensures
        match r {
            Some(e) => directive_error(d@) == Some(e@),
            None => directive_error(d@).is_none(),
        },
{
    proof {
        reveal_strlit("bold");
        reveal_strlit("italic");
        reveal_strlit("underscore");
        reveal_strlit("fg=");
        reveal_strlit("bg=");
    }
    if lit_eq(d, "bold") || lit_eq(d, "italic") || lit_eq(d, "underscore") {
        return None;
    }
    let n = d.len();
    let is_color = starts_with_lit(d, "fg=") || starts_with_lit(d, "bg=");
    if !is_color {
        return Some("unsupported pane status style directive".to_owned());
    }
    let color = slice_chars(d, 3, n);
    if valid_color(&color) { None } else { Some("invalid pane status color".to_owned()) }
}

fn check_style(style: &[char]) -> (r: Option<String>)
    ensures
        match r {
            Some(e) => style_error(style@) == Some(e@),
            None => style_error(style@).is_none(),
        },
{
    if style.len() == 0 {
        return None;
    }
    let mut comma: Vec<char> = Vec::new();
    comma.push(',');
    proof { reveal_strlit(","); }
    assert(comma@ == ","@);
    let ds = split_chars(style, &comma);
    let ghost sds = split_on(style@, ","@);
    let mut i: usize = 0;
    assert(sds.subrange(0, sds.len() as int) == sds);
    while i < ds.len()
        invariant
            style@.len() > 0,
            sds == split_on(style@, ","@),
            i <= ds@.len(),
            ds@.len() == sds.len(),
            forall|k: int| 0 <= k < ds@.len() ==> #[trigger] ds@[k]@ == sds[k],
            directives_error(sds) == directives_error(sds.subrange(i as int, sds.len() as int)),
        decreases ds.len() - i,
    {
        let ghost rest = sds.subrange(i as int, sds.len() as int);
        assert(rest.drop_first() == sds.subrange(i + 1, sds.len() as int));
        assert(rest[0] == ds@[i as int]@);
        match check_directive(&ds[i]) {
            Some(e) => return Some(e),
            None => {},
        }
        i = i + 1;
    }
    None
}

fn check_markers(message: &[char]) -> (r: Option<String>)
    ensures
        match r {
            Some(e) => markers_error(message@, 0) == Some(e@),
            None => markers_error(message@, 0).is_none(),
        },
{
    let mut open: Vec<char> = Vec::new();
    open.push('#');
    open.push('[');
    let mut close: Vec<char> = Vec::new();
    close.push(']');
    proof { reveal_strlit("#["); reveal_strlit("]"); }
    assert(open@ == "#["@);
    assert(close@ == "]"@);
    assert(open@ == seq!['#', '[']);
    assert(close@ == seq![']']);
    let mut rest = slice_chars(message, 0, message.len());
    assert(rest@ == message@);
    let mut markers: u64 = 0;
    loop
        invariant
            open@ == "#["@,
            close@ == "]"@,
            open@ == seq!['#', '['],
            close@ == seq![']'],
            markers <= 64,
            markers_error(message@, 0) == markers_error(rest@, markers as nat),
        decreases rest@.len(),
    {
        let start = match find_chars(&rest, &open) {
            Some(s) => s,
            None => return None,
        };
        proof { lemma_find_from_bounds(rest@, open@, 0); }
        let rn = rest.len();
        assert(start + 2 <= rn);
        let after = slice_chars(&rest, start + 2, rn);
        let end = match find_chars(&after, &close) {
            Some(e) => e,
            None => return Some("unterminated pane status style marker".to_owned()),
        };
        proof { lemma_find_from_bounds(after@, close@, 0); }
        let an = after.len();
        assert(end + 1 <= an);
        if markers + 1 > 64 {
            return Some("pane status exceeds 64 style markers".to_owned());
        }
        let style = slice_chars(&after, 0, end);
        match check_style(&style) {
            Some(e) => return Some(e),
            None => {},
        }
        rest = slice_chars(&after, end + 1, an);
        markers = markers + 1;
    }
}

fn space_braces_chars(cs: &[char]) -> (out: Vec<char>)
    ensures
        out@ == space_braces(cs@),
{
    let mut out: Vec<char> = Vec::new();
    let mut i: usize = 0;
    while i < cs.len()
        invariant
            i <= cs@.len(),
            out@ == space_braces(cs@.subrange(0, i as int)),
        decreases cs.len() - i,
    {
        assert(cs@.subrange(0, i + 1).drop_last() == cs@.subrange(0, i as int));
        let ghost before = out@;
        out.push(cs[i]);
        if cs[i] == '{' {
            out.push(' ');
            assert(out@ == before + seq!['{', ' ']);
        }
        i = i + 1;
    }
    assert(cs@.subrange(0, cs@.len() as int) == cs@);
    out
}

/// Validate and render a pane status message. Plain text is escaped; with
/// `formatted`, `#[...]` style markers are checked and kept, braces are spaced,
/// and the result is wrapped in style resets.
pub fn render_status(message: &str, formatted: bool) -> (r: Result<String, String>)
    ensures
        match r {
            Ok(s) => render_status_spec(message@, formatted) == Ok::<Seq<char>, Seq<char>>(s@),
            Err(e) => render_status_spec(message@, formatted) == Err::<Seq<char>, Seq<char>>(e@),
        },
{
    let bytes = message.as_bytes();
    if bytes.len() > 4096 {
        return Err("pane status exceeds 4096 UTF-8 bytes".to_owned());
    }
    assert(bytes@ == vstd::utf8::encode_utf8(message@));
    assert(vstd::utf8::encode_utf8(message@).len() <= 4096);
    let cs = chars_of(message);
    let mut i: usize = 0;
    while i < cs.len()
        invariant
            i <= cs@.len(),
            cs@ == message@,
            vstd::utf8::encode_utf8(message@).len() <= 4096,
            forall|j: int| 0 <= j < i ==> !unsafe_char(#[trigger] cs@[j]),
        decreases cs.len() - i,
    {
        if unsafe_character(cs[i]) {
            assert(unsafe_char(message@[i as int]));
            return Err("pane status contains unsafe control or formatting characters".to_owned());
        }
        i = i + 1;
    }
    assert(!(exists|j: int| 0 <= j < message@.len() && unsafe_char(#[trigger] message@[j])));
    assert(vstd::utf8::encode_utf8(message@).len() <= 4096);
    if cs.len() == 0 || !formatted {
        let e = escape_chars(&cs);
        return Ok(string_of(&e));
    }
    match check_markers(&cs) {
        Some(e) => return Err(e),
        None => {},
    }
    let mut out: Vec<char> = Vec::new();
    push_str(&mut out, "#[]");
    let spaced = space_braces_chars(&cs);
    push_chars(&mut out, &spaced);
    push_str(&mut out, "#[]");
    Ok(string_of(&out))
}

} // verus!
