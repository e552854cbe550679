//! Protocol constants of IAX2, as RFC 5456 and `chan_iax2` number them.

use vstd::prelude::*;

pub mod authmethod;
pub mod control;
pub mod format;
pub mod frametype;
pub mod iax;
pub mod ie;

verus! {

/// Protocol version announced in a `NEW` (`VERSION` element).
pub const IAX_PROTO_VERSION: u16 = 2;

} // verus!
