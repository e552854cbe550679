//! Subclasses of a frame of type `CONTROL` (the `AST_CONTROL_*` values).

use vstd::prelude::*;

verus! {

pub const HANGUP: u8 = 0x01;

pub const RING: u8 = 0x02;

pub const RINGING: u8 = 0x03;

pub const ANSWER: u8 = 0x04;

pub const BUSY: u8 = 0x05;

pub const CONGESTION: u8 = 0x08;

pub const PROGRESS: u8 = 0x0E;

pub const PROCEEDING: u8 = 0x0F;

/// Put the call on hold; the PBX plays music on hold.
pub const HOLD: u8 = 0x10;

/// Take the call off hold.
pub const UNHOLD: u8 = 0x11;

} // verus!
