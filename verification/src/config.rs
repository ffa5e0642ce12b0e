//! Configuration path resolution: environment parsing, the zellij config
//! directory search order, and include path expansion.

use vstd::prelude::*;
pub use vstd::hash_map::StringHashMap;
use crate::text::{chars_eq, chars_of, find_chars, lemma_find_from_bounds, push_chars, push_str,
    slice_chars, split_chars, split_on, split_once, string_of, to_string};

verus! {

/// The environment that a sequence of `KEY=VALUE` records describes; a record
/// without `=` is skipped and a later record wins over an earlier one.
pub open spec fn environ_of(records: Seq<Seq<char>>) -> Map<Seq<char>, Seq<char>>
    decreases records.len(),
{
    if records.len() == 0 {
        Map::empty()
    } else {
        let m = environ_of(records.drop_last());
        match split_once(records.last(), "="@) {
            Some((k, v)) => m.insert(k, v),
            None => m,
        }
    }
}

/// The string view of an environment map.
pub open spec fn env_view(env: Map<Seq<char>, String>) -> Map<Seq<char>, Seq<char>> {
    env.map_values(|v: String| v@)
}

/// Parse null-separated `KEY=VALUE` environment records.
pub fn parse_environ(contents: &str) -> (env: StringHashMap<String>)
    ensures
        env_view(env@) == environ_of(split_on(contents@, seq!['\0'])),
{
    let cs = chars_of(contents);
    let mut nul: Vec<char> = Vec::new();
    nul.push('\0');
    let mut eq: Vec<char> = Vec::new();
    eq.push('=');
    proof { reveal_strlit("="); }
    assert(eq@ == "="@);
    assert("="@ == seq!['=']);
    assert(nul@ == seq!['\0']);
    let records = split_chars(&cs, &nul);
    let ghost recs = split_on(cs@, nul@);
    let mut env: StringHashMap<String> = StringHashMap::new();
    let mut i: usize = 0;
    while i < records.len()
        invariant
            i <= records@.len(),
            records@.len() == recs.len(),
            forall|k: int| 0 <= k < records@.len() ==> #[trigger] records@[k]@ == recs[k],
            eq@ == "="@,
            "="@ == seq!['='],
            eq@.len() == 1,
            env_view(env@) == environ_of(recs.subrange(0, i as int)),
        decreases records.len() - i,
    {
        let rec = &records[i];
        assert(recs.subrange(0, i + 1).drop_last() == recs.subrange(0, i as int));
        assert(recs.subrange(0, i + 1).last() == rec@);
        match find_chars(rec, &eq) {
            Some(j) => {
                proof { lemma_find_from_bounds(rec@, eq@, 0); }
                let n = rec.len();
                assert(j + eq@.len() <= n);
                let key = slice_chars(rec, 0, j);
                let value = slice_chars(rec, j + 1, n);
                let ghost before = env@;
                env.insert(string_of(&key), string_of(&value));
                assert(env_view(env@) =~= env_view(before).insert(key@, value@));
            },
            None => {},
        }
        i = i + 1;
    }
    assert(recs.subrange(0, records@.len() as int) == recs);
    env
}

/// `PathBuf::join` on Unix: an absolute path replaces the base; otherwise a
/// separator is added unless the base is empty or already ends with one.
pub open spec fn path_join(base: Seq<char>, path: Seq<char>) -> Seq<char> {
    if path.len() > 0 && path[0] == '/' {
        path
    } else if base.len() == 0 || base.last() == '/' {
        base + path
    } else {
        base + seq!['/'] + path
    }
}

/// The zellij config directory for an environment, in zellij's search order.
pub open spec fn zellij_config_dir(env: Map<Seq<char>, Seq<char>>) -> Seq<char> {
    if env.contains_key("ZELLIJ_CONFIG_DIR"@) {
        env["ZELLIJ_CONFIG_DIR"@]
    } else if env.contains_key("XDG_CONFIG_HOME"@) {
        path_join(env["XDG_CONFIG_HOME"@], "zellij"@)
    } else if env.contains_key("HOME"@) {
        path_join(path_join(env["HOME"@], ".config"@), "zellij"@)
    } else {
        "/etc/zellij"@
    }
}

fn join_path(base: &[char], path: &[char]) -> (r: Vec<char>)
    ensures
        r@ == path_join(base@, path@),
{
    if path.len() > 0 && path[0] == '/' {
        return slice_chars(path, 0, path.len());
    }
    let mut out = slice_chars(base, 0, base.len());
    if !(base.len() == 0 || base[base.len() - 1] == '/') {
        out.push('/');
    }
    push_chars(&mut out, path);
    out
}

fn lookup(env: &StringHashMap<String>, key: &str) -> (r: Option<Vec<char>>)
    ensures
        match r {
            Some(v) => env@.contains_key(key@) && v@ == env@[key@]@,
            None => !env@.contains_key(key@),
        },
{
    match env.get(key) {
        Some(v) => Some(chars_of(v.as_str())),
        None => None,
    }
}

/// Get the zellij config directory using the given environment variables.
///
/// Search order: `ZELLIJ_CONFIG_DIR`, `$XDG_CONFIG_HOME/zellij`,
/// `$HOME/.config/zellij`, then `/etc/zellij`.
pub fn get_zellij_config_dir_with_env(env: &StringHashMap<String>) -> (dir: String)
    ensures
        dir@ == zellij_config_dir(env_view(env@)),
{
    proof {
        reveal_strlit("ZELLIJ_CONFIG_DIR");
        reveal_strlit("XDG_CONFIG_HOME");
        reveal_strlit("HOME");
    }
    let v = config_dir_chars(env);
    string_of(&v)
}

fn config_dir_chars(env: &StringHashMap<String>) -> (dir: Vec<char>)
    ensures
        dir@ == zellij_config_dir(env_view(env@)),
{
    if let Some(d) = lookup(env, "ZELLIJ_CONFIG_DIR") {
        return d;
    }
    if let Some(x) = lookup(env, "XDG_CONFIG_HOME") {
        let z = chars_of("zellij");
        return join_path(&x, &z);
    }
    if let Some(h) = lookup(env, "HOME") {
        let c = chars_of(".config");
        let z = chars_of("zellij");
        let hc = join_path(&h, &c);
        return join_path(&hc, &z);
    }
    chars_of("/etc/zellij")
}

/// Detect the home directory using the given environment variables.
pub fn detect_home_dir_with_env(env: &StringHashMap<String>) -> (home: Option<String>)
    ensures
        match home {
            Some(h) => env_view(env@).contains_key("HOME"@) && h@ == env_view(env@)["HOME"@],
            None => !env_view(env@).contains_key("HOME"@),
        },
{
    match env.get("HOME") {
        Some(h) => Some(h.clone()),
        None => None,
    }
}

/// `char::is_whitespace`: the Unicode `White_Space` property.
pub open spec fn is_whitespace(c: char) -> bool {
    ('\u{9}' <= c && c <= '\u{d}') || c == ' ' || c == '\u{85}' || c == '\u{a0}'
        || c == '\u{1680}' || ('\u{2000}' <= c && c <= '\u{200a}') || c == '\u{2028}'
        || c == '\u{2029}' || c == '\u{202f}' || c == '\u{205f}' || c == '\u{3000}'
}

pub(crate) fn whitespace(c: char) -> (r: bool)
    ensures
        r == is_whitespace(c),
{
    ('\u{9}' <= c && c <= '\u{d}') || c == ' ' || c == '\u{85}' || c == '\u{a0}'
        || c == '\u{1680}' || ('\u{2000}' <= c && c <= '\u{200a}') || c == '\u{2028}'
        || c == '\u{2029}' || c == '\u{202f}' || c == '\u{205f}' || c == '\u{3000}'
}

/// `str::trim`: the text between the leading and the trailing whitespace.
pub open spec fn trimmed(s: Seq<char>, start: int, end: int) -> bool {
    &&& 0 <= start <= end <= s.len()
    &&& forall|i: int| 0 <= i < start ==> is_whitespace(#[trigger] s[i])
    &&& forall|i: int| end <= i < s.len() ==> is_whitespace(#[trigger] s[i])
    &&& (start < end ==> !is_whitespace(s[start]) && !is_whitespace(s[end - 1]))
}

pub open spec fn trim(s: Seq<char>) -> Seq<char> {
    let (a, b) = choose|a: int, b: int| trimmed(s, a, b);
    s.subrange(a, b)
}

proof fn lemma_trim_unique(s: Seq<char>, a: int, b: int)
    requires
        trimmed(s, a, b),
    ensures
        trim(s) == s.subrange(a, b),
{
    let (a2, b2) = choose|x: int, y: int| trimmed(s, x, y);
    assert(trimmed(s, a2, b2));
    if a < b {
        assert(a2 == a) by {
            if a2 < a { assert(is_whitespace(s[a2])); if a2 < b2 { } else { assert(is_whitespace(s[a])); } }
            if a2 > a { assert(is_whitespace(s[a])); }
        }
        assert(b2 == b) by {
            if b2 > b { assert(is_whitespace(s[b2 - 1])); }
            if b2 < b { assert(is_whitespace(s[b - 1])); }
        }
    } else {
        assert(s.subrange(a, b).len() == 0);
        if a2 < b2 {
            if a2 < a { assert(is_whitespace(s[a2])); } else { assert(is_whitespace(s[a2])); }
        }
        assert(s.subrange(a2, b2) =~= s.subrange(a, b));
    }
}

fn trim_chars(s: &[char]) -> (r: Vec<char>)
    ensures
        r@ == trim(s@),
{
    let n = s.len();
    let mut a: usize = 0;
    while a < n && whitespace(s[a])
        invariant
            n == s@.len(),
            a <= n,
            forall|i: int| 0 <= i < a ==> is_whitespace(#[trigger] s@[i]),
        decreases n - a,
    {
        a = a + 1;
    }
    let mut b: usize = n;
    while b > a && whitespace(s[b - 1])
        invariant
            n == s@.len(),
            a <= b <= n,
            forall|i: int| b <= i < n ==> is_whitespace(#[trigger] s@[i]),
        decreases b,
    {
        b = b - 1;
    }
    proof {
        assert(trimmed(s@, a as int, b as int));
        lemma_trim_unique(s@, a as int, b as int);
    }
    slice_chars(s, a, b)
}

/// Expand a leading `~` to the home directory, as `replacen('~', home, 1)` does
/// for a string that starts with `~`.
pub open spec fn expand_tilde(s: Seq<char>, home: Option<Seq<char>>) -> Seq<char> {
    match home {
        Some(h) => if s.len() > 0 && s[0] == '~' { h + s.drop_first() } else { s },
        None => s,
    }
}

/// The absolute path an include path resolves to.
pub open spec fn resolved_include_path(
    path: Seq<char>,
    config_dir: Option<Seq<char>>,
    env: Map<Seq<char>, Seq<char>>,
) -> Seq<char> {
    let p = trim(path);
    let home = if env.contains_key("HOME"@) { Some(env["HOME"@]) } else { None };
    if p.len() > 0 && p[0] == '/' {
        p
    } else if p.len() > 0 && p[0] == '~' {
        expand_tilde(p, home)
    } else {
        let base = match config_dir {
            Some(d) => expand_tilde(d, home),
            None => zellij_config_dir(env),
        };
        path_join(base, p)
    }
}

fn expand_tilde_chars(s: &[char], home: &Option<String>) -> (r: Vec<char>)
    ensures
        r@ == expand_tilde(s@, match home { Some(h) => Some(h@), None => None }),
{
    match home {
        Some(h) => {
            if s.len() > 0 && s[0] == '~' {
                let mut out = chars_of(h.as_str());
                let rest = slice_chars(s, 1, s.len());
                assert(rest@ == s@.drop_first());
                push_chars(&mut out, &rest);
                out
            } else {
                slice_chars(s, 0, s.len())
            }
        },
        None => slice_chars(s, 0, s.len()),
    }
}

/// Resolve an include path using the given environment variables.
///
/// Absolute paths are kept, a leading `~` is expanded to `HOME`, and relative
/// paths are joined to `config_dir` (itself `~`-expanded) or to the zellij
/// config directory.
pub fn resolve_include_path_with_env(
    path: &str,
    config_dir: Option<&str>,
    env: &StringHashMap<String>,
) -> (r: String)
    ensures
        r@ == resolved_include_path(
            path@,
            match config_dir { Some(d) => Some(d@), None => None },
            env_view(env@),
        ),
{
    proof {
        reveal_strlit("HOME");
    }
    let raw = chars_of(path);
    let p = trim_chars(&raw);
    if p.len() > 0 && p[0] == '/' {
        return string_of(&p);
    }
    let home = detect_home_dir_with_env(env);
    if p.len() > 0 && p[0] == '~' {
        let e = expand_tilde_chars(&p, &home);
        return string_of(&e);
    }
    let base = match config_dir {
        Some(d) => {
            let dc = chars_of(d);
            expand_tilde_chars(&dc, &home)
        },
        None => config_dir_chars(env),
    };
    let joined = join_path(&base, &p);
    string_of(&joined)
}

} // verus!
