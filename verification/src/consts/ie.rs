//! Information element types (RFC 5456, section 8.6).

use vstd::prelude::*;

verus! {

pub const CALLED_NUMBER: u8 = 0x01;

pub const CALLING_NUMBER: u8 = 0x02;

pub const CALLING_NAME: u8 = 0x04;

pub const CALLED_CONTEXT: u8 = 0x05;

pub const USERNAME: u8 = 0x06;

pub const PASSWORD: u8 = 0x07;

pub const CAPABILITY: u8 = 0x08;

pub const FORMAT: u8 = 0x09;

pub const VERSION: u8 = 0x0B;

pub const AUTHMETHODS: u8 = 0x0E;

pub const CHALLENGE: u8 = 0x0F;

pub const MD5_RESULT: u8 = 0x10;

pub const RSA_RESULT: u8 = 0x11;

pub const APPARENT_ADDR: u8 = 0x12;

pub const REFRESH: u8 = 0x13;

pub const CAUSE: u8 = 0x16;

pub const DATETIME: u8 = 0x1F;

/// Cause as a number; Asterisk often sends this one and not `CAUSE`.
pub const CAUSECODE: u8 = 0x2A;

/// Anti-spoofing token of `NEW` and `REGREQ`.
pub const CALLTOKEN: u8 = 0x36;

} // verus!
