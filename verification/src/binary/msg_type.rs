//! The message-type byte that opens every binary frame.
use vstd::prelude::*;

verus! {

// Requests (client → server)
pub const CONNECT: u8 = 0x01;
pub const BIND: u8 = 0x02;
pub const LISTEN: u8 = 0x03;
pub const SEND: u8 = 0x04;
pub const CLOSE: u8 = 0x05;
pub const CONNECT_UDP: u8 = 0x06;
pub const SEND_TO: u8 = 0x07;
pub const RESOLVE: u8 = 0x08;
pub const CONNECT_TLS: u8 = 0x09;

// Events (server → client)
pub const CONNECTED: u8 = 0x81;
pub const DATA: u8 = 0x82;
pub const LISTENING: u8 = 0x83;
pub const ACCEPTED: u8 = 0x84;
pub const CLOSED: u8 = 0x85;
pub const ERROR: u8 = 0x86;
pub const DENIED: u8 = 0x87;
pub const DATA_FROM: u8 = 0x88;
pub const RESOLVED: u8 = 0x89;
pub const UDP_BOUND: u8 = 0x8A;

} // verus!
