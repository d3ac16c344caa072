//! Error codes carried by an error message.

use vstd::prelude::*;

verus! {

pub const PROTO_MISMATCH: u16 = 1;

pub const NO_SESSION: u16 = 2;

pub const INTERNAL: u16 = 3;

pub const BAD_REQUEST: u16 = 4;

pub const EXISTS: u16 = 5;

} // verus!
