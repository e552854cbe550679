//! Bits of the audio formats (`CAPABILITY` and `FORMAT` elements).

use vstd::prelude::*;

verus! {

pub const G723_1: u32 = 0x0001;

pub const GSM: u32 = 0x0002;

pub const ULAW: u32 = 0x0004;

pub const ALAW: u32 = 0x0008;

pub const SLINEAR: u32 = 0x0040;

pub const G729: u32 = 0x0100;

pub const SPEEX: u32 = 0x0200;

} // verus!
