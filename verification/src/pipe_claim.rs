//! Claim keys for broadcast pipe messages: every plugin instance that sees
//! the same broadcast derives the same key from the message.

use vstd::prelude::*;
use crate::text::{push_str, string_of};

verus! {

#[verifier::external_type_specification]
#[verifier::external_body]
pub struct ExPipeMessage(zellij_tile::prelude::PipeMessage);

/// The lower-case hexadecimal digit of a value below 16.
pub open spec fn hex_digit(d: nat) -> char {
    if d < 10 { (d + 48) as char } else { (d + 87) as char }
}

/// The last `n` hexadecimal digits of `h`, most significant first, with
/// leading zeros.
pub open spec fn hex_digits(h: nat, n: nat) -> Seq<char>
    decreases n,
{
    if n == 0 {
        Seq::empty()
    } else {
        hex_digits(h / 16, (n - 1) as nat).push(hex_digit(h % 16))
    }
}

/// The claim key for a message hash: `broadcast-` and the hash as sixteen
/// lower-case hexadecimal digits.
pub open spec fn claim_key(h: u64) -> Seq<char> {
    "broadcast-"@ + hex_digits(h as nat, 16)
}

/// Hashes a pipe message with std's `DefaultHasher` (through
/// `BuildHasher::hash_one` on a `BuildHasherDefault<DefaultHasher>`), feeding
/// it the source, name, payload, arguments and privacy flag in that order.
/// Nothing is stated of the value: std leaves the hashing algorithm
/// unspecified, and the bytes hashed for lengths depend on the platform.
#[verifier::external_body]
fn pipe_message_hash(message: &zellij_tile::prelude::PipeMessage) -> (h: u64) {
    std::hash::BuildHasher::hash_one(
        &std::hash::BuildHasherDefault::<std::collections::hash_map::DefaultHasher>::default(),
        (&message.source, &message.name, &message.payload, &message.args, &message.is_private),
    )
}

fn push_hex(out: &mut Vec<char>, h: u64, n: u32)
    ensures
        final(out)@ == old(out)@ + hex_digits(h as nat, n as nat),
    decreases n,
{
    if n > 0 {
        let ghost before = out@;
        push_hex(out, h / 16, n - 1);
        let d: u64 = h % 16;
        let c = if d < 10 { ((d as u8) + 48u8) as char } else { ((d as u8) + 87u8) as char };
        assert(c == hex_digit(h as nat % 16));
        out.push(c);
        assert(out@ =~= before + hex_digits(h as nat, n as nat));
    }
}

/// The claim key for a message hash.
pub fn claim_key_of_hash(h: u64) -> (r: String)
    ensures
        r@ == claim_key(h),
{
    let mut m: Vec<char> = Vec::new();
    push_str(&mut m, "broadcast-");
    push_hex(&mut m, h, 16);
    assert(m@ =~= claim_key(h));
    string_of(&m)
}

/// The key under which instances claim a broadcast pipe message: the claim
/// key of the message's hash, so identical messages share a key.
pub fn broadcast_pipe_claim_key(pipe_message: &zellij_tile::prelude::PipeMessage) -> (r: String)
    ensures
        exists|h: u64| r@ == claim_key(h),
{
    let h = pipe_message_hash(pipe_message);
    claim_key_of_hash(h)
}

} // verus!
