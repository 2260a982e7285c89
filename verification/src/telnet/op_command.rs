//! Telnet command bytes (RFC 854/855).

use vstd::prelude::*;

verus! {

/// "Interpret As Command": introduces every protocol sequence.
pub const IAC: u8 = 255;

/// Sender wants to enable an option on its own side.
pub const WILL: u8 = 251;

/// Sender refuses to enable an option on its own side.
pub const WONT: u8 = 252;

/// Sender asks the receiver to enable an option.
pub const DO: u8 = 253;

/// Sender asks the receiver to disable an option.
pub const DONT: u8 = 254;

/// No operation.
pub const NOP: u8 = 241;

/// Begins a subnegotiation carrying out-of-band data.
pub const SB: u8 = 250;

/// Ends a subnegotiation sequence.
pub const SE: u8 = 240;

/// Marks a value in an option sub-protocol.
pub const IS: u8 = 0;

/// Requests a value in an option sub-protocol.
pub const SEND: u8 = 1;

/// Go ahead.
pub const GA: u8 = 249;

/// End of record.
pub const EOR: u8 = 239;

} // verus!
