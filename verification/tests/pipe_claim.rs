use std::collections::hash_map::DefaultHasher;
use std::collections::BTreeMap;
use std::hash::{Hash, Hasher};

use zellij_tile::prelude::{PipeMessage, PipeSource};
use zellij_tools::pipe_claim::{broadcast_pipe_claim_key, claim_key_of_hash};

fn keybind_message(name: &str, payload: &str) -> PipeMessage {
    PipeMessage {
        source: PipeSource::Keybind,
        name: name.to_string(),
        payload: Some(payload.to_string()),
        args: BTreeMap::new(),
        is_private: true,
    }
}

#[test]
fn broadcast_pipe_claim_key_is_stable_for_identical_messages() {
    let message = keybind_message("scratchpad-toggle", "zellij-tools::scratchpad::toggle::term");
    assert_eq!(broadcast_pipe_claim_key(&message), broadcast_pipe_claim_key(&message));
}

#[test]
fn broadcast_pipe_claim_key_changes_for_different_messages() {
    let term = keybind_message("scratchpad-toggle", "zellij-tools::scratchpad::toggle::term");
    let logs = keybind_message("scratchpad-toggle", "zellij-tools::scratchpad::toggle::logs");
    assert_ne!(broadcast_pipe_claim_key(&term), broadcast_pipe_claim_key(&logs));
}

#[test]
fn claim_keys_are_sixteen_hex_digits() {
    assert_eq!(claim_key_of_hash(0), "broadcast-0000000000000000");
    assert_eq!(claim_key_of_hash(0xdead_beef), "broadcast-00000000deadbeef");
    assert_eq!(claim_key_of_hash(u64::MAX), "broadcast-ffffffffffffffff");
    assert_eq!(claim_key_of_hash(0x0123_4567_89ab_cdef), "broadcast-0123456789abcdef");
}

#[test]
fn claim_key_hashes_the_message_fields_in_order() {
    let mut args = BTreeMap::new();
    args.insert("k".to_string(), "v".to_string());
    let message = PipeMessage {
        source: PipeSource::Cli("pipe-1".to_string()),
        name: "zellij-tools".to_string(),
        payload: None,
        args,
        is_private: false,
    };
    let mut hash = DefaultHasher::new();
    message.source.hash(&mut hash);
    message.name.hash(&mut hash);
    message.payload.hash(&mut hash);
    message.args.hash(&mut hash);
    message.is_private.hash(&mut hash);
    assert_eq!(broadcast_pipe_claim_key(&message), format!("broadcast-{:016x}", hash.finish()));
}
