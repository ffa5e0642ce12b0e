//! Pipe message envelope: `zellij-tools::event::arg1::arg2::...`.

use vstd::prelude::*;
use crate::text::{chars_eq, chars_of, find_chars, lemma_find_from_bounds, push_str, slice_chars, split_chars, split_on, split_once, string_of};

verus! {

/// Errors that can occur when parsing pipe messages.
#[derive(Debug)]
pub enum ParseError {
    InvalidFormat,
    WrongPlugin,
    UnknownEvent(String),
    InvalidArgs(String),
    InvalidScratchpadName(String),
}

pub open spec fn parse_error_text(e: ParseError) -> Seq<char> {
    match e {
        ParseError::InvalidFormat => "Message format should be 'plugin::event::args...'"@,
        ParseError::WrongPlugin => "Message not intended for zellij-tools"@,
        ParseError::UnknownEvent(event) => "Unknown event: "@ + event@,
        ParseError::InvalidArgs(msg) => "Invalid arguments: "@ + msg@,
        ParseError::InvalidScratchpadName(name) => "Invalid scratchpad name '"@ + name@
            + "': must match [a-zA-Z0-9_-]+"@,
    }
}

impl ParseError {
    /// The human-readable text of the error.
    pub fn to_message(&self) -> (s: String)
        ensures
            s@ == parse_error_text(*self),
    {
        let mut out: Vec<char> = Vec::new();
        match self {
            ParseError::InvalidFormat => {
                push_str(&mut out, "Message format should be 'plugin::event::args...'");
            },
            ParseError::WrongPlugin => {
                push_str(&mut out, "Message not intended for zellij-tools");
            },
            ParseError::UnknownEvent(event) => {
                push_str(&mut out, "Unknown event: ");
                push_str(&mut out, event.as_str());
            },
            ParseError::InvalidArgs(msg) => {
                push_str(&mut out, "Invalid arguments: ");
                push_str(&mut out, msg.as_str());
            },
            ParseError::InvalidScratchpadName(name) => {
                push_str(&mut out, "Invalid scratchpad name '");
                push_str(&mut out, name.as_str());
                push_str(&mut out, "': must match [a-zA-Z0-9_-]+");
            },
        }
        string_of(&out)
    }
}

/// A parsed pipe message.
pub struct Message {
    pub event: String,
    pub args: Vec<String>,
}

/// The plugin name every message must start with.
pub open spec fn plugin_name() -> Seq<char> {
    "zellij-tools"@
}

/// The message separator.
pub open spec fn sep() -> Seq<char> {
    "::"@
}

/// The parts of a payload as `splitn(3, "::")` yields them: the text before the
/// first separator, then (if there is one) the text up to the second, then the rest.
pub open spec fn message_parts(payload: Seq<char>) -> Option<(Seq<char>, Seq<char>, Seq<char>)> {
    match split_once(payload, sep()) {
        None => None,
        Some((plugin, rest)) => match split_once(rest, sep()) {
            Some((event, args)) => Some((plugin, event, args)),
            None => Some((plugin, rest, Seq::empty())),
        },
    }
}

/// The arguments of a message: none for an empty argument string, else the
/// `::`-separated pieces.
pub open spec fn message_args(args: Seq<char>) -> Seq<Seq<char>> {
    if args.len() == 0 {
        Seq::empty()
    } else {
        split_on(args, sep())
    }
}

fn split_once_chars(s: &[char], sep: &[char]) -> (r: Option<(Vec<char>, Vec<char>)>)
    requires
        sep@.len() > 0,
    ensures
        match r {
            Some((a, b)) => split_once(s@, sep@) == Some((a@, b@)),
            None => split_once(s@, sep@).is_none(),
        },
{
    match find_chars(s, sep) {
        Some(i) => {
            proof { lemma_find_from_bounds(s@, sep@, 0); }
            let n = s.len();
            assert(i + sep@.len() <= n);
            let a = slice_chars(s, 0, i);
            let b = slice_chars(s, i + sep.len(), n);
            Some((a, b))
        },
        None => None,
    }
}

/// Parse a pipe message payload into event and args.
/// Format: "zellij-tools::event::arg1::arg2::..."
pub fn parse_message(payload: &str) -> (r: Result<Message, ParseError>)
    ensures
        match message_parts(payload@) {
            None => r matches Err(ParseError::InvalidFormat),
            Some((plugin, event, args)) => if plugin != plugin_name() {
                r matches Err(ParseError::WrongPlugin)
            } else {
                r matches Ok(m) && m.event@ == event
                    && m.args@.len() == message_args(args).len()
                    && forall|k: int| 0 <= k < m.args@.len() ==> #[trigger] m.args@[k]@ == message_args(args)[k]
            },
        },
{
    let chars = chars_of(payload);
    let sep_chars = chars_of("::");
    let zt = chars_of("zellij-tools");
    proof {
        reveal_strlit("::");
        reveal_strlit("zellij-tools");
    }
    let (plugin, rest) = match split_once_chars(&chars, &sep_chars) {
        Some(p) => p,
        None => return Err(ParseError::InvalidFormat),
    };
    let (event, args_str) = match split_once_chars(&rest, &sep_chars) {
        Some(p) => p,
        None => (rest, Vec::new()),
    };
    if !chars_eq(&plugin, &zt) {
        return Err(ParseError::WrongPlugin);
    }
    let mut args: Vec<String> = Vec::new();
    if args_str.len() > 0 {
        let pieces = split_chars(&args_str, &sep_chars);
        let mut k: usize = 0;
        while k < pieces.len()
            invariant
                k <= pieces@.len(),
                args@.len() == k,
                forall|j: int| 0 <= j < k ==> #[trigger] args@[j]@ == pieces@[j]@,
            decreases pieces.len() - k,
        {
            args.push(string_of(&pieces[k]));
            k = k + 1;
        }
    }
    Ok(Message { event: string_of(&event), args })
}

} // verus!
