//! What a scratchpad manager keeps across plugin reloads, and where.

use vstd::prelude::*;
use crate::text::{decimal, push_decimal, push_str, string_of};

verus! {

/// State that survives a plugin reload. Lists of pairs rather than maps, so
/// that every key serializes.
#[derive(Debug, Clone, Default)]
pub struct PersistedState {
    /// `((scratchpad name, tab ID), pane ID)`.
    pub panes: Vec<((String, usize), u32)>,
    /// `((scratchpad name, tab ID), last focus stamp)`.
    pub focus_times: Vec<((String, usize), u64)>,
    /// The focus counter.
    pub focus_counter: u64,
}

pub open spec fn state_file_text(zellij_pid: u32) -> Seq<char> {
    "/tmp/zellij-tools-"@ + decimal(zellij_pid as nat) + "-state.json"@
}

/// The path of the state file of a zellij session.
pub fn state_file_path(zellij_pid: u32) -> (p: String)
    ensures
        p@ == state_file_text(zellij_pid),
{
    let mut out: Vec<char> = Vec::new();
    push_str(&mut out, "/tmp/zellij-tools-");
    push_decimal(&mut out, zellij_pid as u64);
    push_str(&mut out, "-state.json");
    string_of(&out)
}

} // verus!
