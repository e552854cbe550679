//! Subclasses of a frame of type `IAX`.

use vstd::prelude::*;

verus! {

pub const NEW: u8 = 0x01;

pub const PING: u8 = 0x02;

pub const PONG: u8 = 0x03;

pub const ACK: u8 = 0x04;

pub const HANGUP: u8 = 0x05;

pub const REJECT: u8 = 0x06;

pub const ACCEPT: u8 = 0x07;

pub const AUTHREQ: u8 = 0x08;

pub const AUTHREP: u8 = 0x09;

pub const INVAL: u8 = 0x0A;

pub const LAGRQ: u8 = 0x0B;

pub const LAGRP: u8 = 0x0C;

pub const REGREQ: u8 = 0x0D;

pub const REGAUTH: u8 = 0x0E;

pub const REGACK: u8 = 0x0F;

pub const REGREJ: u8 = 0x10;

pub const REGREL: u8 = 0x11;

pub const VNAK: u8 = 0x12;

pub const POKE: u8 = 0x1E;

pub const CALLTOKEN: u8 = 0x28;

} // verus!
