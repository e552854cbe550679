//! Native implementation of the Inter-Asterisk eXchange v2 protocol (RFC 5456).

use vstd::prelude::*;
use vstd::utf8::*;

pub mod accounts;
pub mod action;
pub mod audio_laws;
pub mod call_laws;
pub mod calltest;
pub mod client;
pub mod client_laws;
pub mod client_model;
pub mod consts;
pub mod daemon_laws;
pub mod digest;
pub mod frame;
pub mod frame_laws;
pub mod g711;
pub mod handshake_laws;
pub mod ie;
pub mod jitter;
pub mod jitter_laws;
pub mod leg;
pub mod leg_laws;
pub mod pcm;
pub mod phone_laws;
pub mod regdaemon;
pub mod registration_laws;
pub mod regtest;
pub mod softphone;
pub mod softphone_laws;
pub mod softphone_model;
pub mod table;
pub mod text;
pub mod text_laws;
pub mod time;
pub mod words;

pub use client::{Command, Config, Event, PbxClient};
pub use frame::{FullFrame, MiniFrame};
pub use ie::Ie;
pub use jitter::{JitterBuffer, Pull};

verus! {

/// The answer to an MD5 challenge: the digest of the challenge followed by the
/// secret, in lower-case hexadecimal.
pub open spec fn md5_answer(challenge: Seq<char>, secret: Seq<char>) -> Seq<char> {
    text::hex(digest::md5_digest(encode_utf8(challenge + secret)))
}

/// Answers an MD5 challenge: the digest of the challenge followed by the
/// secret, as 32 lower-case hexadecimal characters.
pub fn md5_response(challenge: &str, secret: &str) -> (r: String)
    ensures
        r@ == md5_answer(challenge@, secret@),
        r@.len() == 32,
        forall|i: int|
            0 <= i < r@.len() ==> ('0' <= #[trigger] r@[i] <= '9' || 'a' <= r@[i] <= 'f'),
{
    let mut input = String::new();
    input.append(challenge);
    input.append(secret);
    let digest = digest::compute_md5(input.as_str().as_bytes());
    proof {
        text::law_hex_alphabet(digest@);
    }
    assert(input@ =~= challenge@ + secret@);
    text::to_hex(&digest)
}

} // verus!
