//! Bits of the authentication methods element.

use vstd::prelude::*;

verus! {

pub const PLAINTEXT: u16 = 0x0001;

pub const MD5: u16 = 0x0002;

pub const RSA: u16 = 0x0004;

} // verus!
