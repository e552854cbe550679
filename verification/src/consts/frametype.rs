//! Frame types: octet 10 of a full frame.

use vstd::prelude::*;

verus! {

/// A DTMF digit; the subclass is the ASCII digit.
pub const DTMF: u8 = 0x01;

/// Encoded audio.
pub const VOICE: u8 = 0x02;

/// Encoded video.
pub const VIDEO: u8 = 0x03;

/// Call-progress signalling.
pub const CONTROL: u8 = 0x04;

/// A null frame.
pub const NULL: u8 = 0x05;

/// Protocol control (`NEW`, `REGREQ`, ...).
pub const IAX: u8 = 0x06;

/// Text.
pub const TEXT: u8 = 0x07;

/// Image data.
pub const IMAGE: u8 = 0x08;

/// HTML.
pub const HTML: u8 = 0x09;

/// Comfort noise.
pub const CNG: u8 = 0x0A;

} // verus!
