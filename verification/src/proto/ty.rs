//! The type byte that starts each frame.

use vstd::prelude::*;

verus! {

pub const HELLO: u8 = 1;

pub const WELCOME: u8 = 2;

pub const BUSY: u8 = 3;

pub const DATA: u8 = 4;

pub const INPUT: u8 = 5;

pub const ACK: u8 = 6;

pub const RESIZE: u8 = 7;

pub const PING: u8 = 8;

pub const PONG: u8 = 9;

pub const DETACH: u8 = 10;

pub const KILL: u8 = 11;

pub const EXIT: u8 = 12;

pub const TAKEOVER: u8 = 13;

pub const STATUS: u8 = 14;

pub const STATUS_REPLY: u8 = 15;

pub const ERROR: u8 = 16;

} // verus!
