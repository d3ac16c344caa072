//! Exit codes besides the session's own.

use vstd::prelude::*;

verus! {

pub const DETACHED: u8 = 0;

pub const ERROR: u8 = 1;

pub const USAGE: u8 = 2;

pub const TAKEN_OVER: u8 = 3;

pub const NO_SESSION: u8 = 4;

pub const INSTALL_FAILED: u8 = 254;

pub const UNREACHABLE: u8 = 255;

} // verus!
