//! Targets of the `focus-tab` message.

use vstd::prelude::*;
use crate::message::ParseError;
use crate::text::{
    chars_of, decimal, int_error_text, parse_unsigned, parse_unsigned_chars, push_chars, push_decimal,
    push_str, str_equals, string_of, IntErrorKind,
};

verus! {

/// Where a `focus-tab` message points: a tab position or a native tab ID.
pub enum FocusTabTarget {
    Position(u32),
    TabId(usize),
}

/// The error text for a malformed number in a `focus-tab` message.
pub open spec fn invalid_number_text(prefix: Seq<char>, k: IntErrorKind) -> Seq<char> {
    prefix + int_error_text(k)
}

/// What `parse_focus_tab_target` returns for the given arguments.
pub open spec fn focus_tab_target_spec(args: Seq<Seq<char>>) -> Result<FocusTabTarget, Seq<char>> {
    if args.len() == 1 {
        match parse_unsigned(args[0], u32::MAX as nat) {
            Ok(v) => Ok(FocusTabTarget::Position(v as u32)),
            Err(k) => Err(invalid_number_text("Invalid tab index: "@, k)),
        }
    } else if args.len() == 2 && args[0] == "position"@ {
        match parse_unsigned(args[1], u32::MAX as nat) {
            Ok(v) => Ok(FocusTabTarget::Position(v as u32)),
            Err(k) => Err(invalid_number_text("Invalid tab index: "@, k)),
        }
    } else if args.len() == 2 && args[0] == "id"@ {
        match parse_unsigned(args[1], usize::MAX as nat) {
            Ok(v) => Ok(FocusTabTarget::TabId(v as usize)),
            Err(k) => Err(invalid_number_text("Invalid tab ID: "@, k)),
        }
    } else {
        Err("focus-tab requires 1 argument (position) or 2 arguments (position::<n> / id::<id>), got "@
            + decimal(args.len()))
    }
}

fn invalid_number(prefix: &str, k: IntErrorKind) -> (e: ParseError)
    ensures
        e matches ParseError::InvalidArgs(m) && m@ == invalid_number_text(prefix@, k),
{
    let mut out: Vec<char> = Vec::new();
    push_str(&mut out, prefix);
    let d = k.description();
    push_str(&mut out, d.as_str());
    ParseError::InvalidArgs(string_of(&out))
}

/// Parse the arguments of a `focus-tab` message: `<n>`, `position::<n>` or `id::<id>`.
pub fn parse_focus_tab_target(args: &[&str]) -> (r: Result<FocusTabTarget, ParseError>)
    ensures
        match focus_tab_target_spec(args@.map_values(|a: &str| a@)) {
            Ok(FocusTabTarget::Position(p)) => r matches Ok(FocusTabTarget::Position(q)) && p == q,
            Ok(FocusTabTarget::TabId(p)) => r matches Ok(FocusTabTarget::TabId(q)) && p == q,
            Err(m) => r matches Err(ParseError::InvalidArgs(e)) && e@ == m,
        },
{
    let ghost sargs = args@.map_values(|a: &str| a@);
    proof {
        reveal_strlit("position");
        reveal_strlit("id");
    }
    if args.len() == 1 {
        let cs = chars_of(args[0]);
        assert(sargs[0] == args@[0]@);
        return match parse_unsigned_chars(&cs, u32::MAX as u64) {
            Ok(v) => Ok(FocusTabTarget::Position(v as u32)),
            Err(k) => Err(invalid_number("Invalid tab index: ", k)),
        };
    }
    if args.len() == 2 {
        assert(sargs[0] == args@[0]@ && sargs[1] == args@[1]@);
        if str_equals(args[0], "position") {
            let cs = chars_of(args[1]);
            return match parse_unsigned_chars(&cs, u32::MAX as u64) {
                Ok(v) => Ok(FocusTabTarget::Position(v as u32)),
                Err(k) => Err(invalid_number("Invalid tab index: ", k)),
            };
        }
        if str_equals(args[0], "id") {
            let cs = chars_of(args[1]);
            return match parse_unsigned_chars(&cs, usize::MAX as u64) {
                Ok(v) => Ok(FocusTabTarget::TabId(v as usize)),
                Err(k) => Err(invalid_number("Invalid tab ID: ", k)),
            };
        }
    }
    let mut out: Vec<char> = Vec::new();
    push_str(&mut out, "focus-tab requires 1 argument (position) or 2 arguments (position::<n> / id::<id>), got ");
    push_decimal(&mut out, args.len() as u64);
    Err(ParseError::InvalidArgs(string_of(&out)))
}

} // verus!
