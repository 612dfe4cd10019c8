//! Operation and status codes carried in the two high bits of a packet's
//! first byte.

use vstd::prelude::*;

verus! {

/// Request: read registers from the coprocessor.
pub const PACKET_CODE_READ: u8 = 0x00;

/// Request: write registers to the coprocessor.
pub const PACKET_CODE_WRITE: u8 = 0x40;

/// Reply: the request was carried out.
pub const PACKET_CODE_SUCCESS: u8 = 0x00;

/// Reply: the coprocessor received a corrupt packet.
pub const PACKET_CODE_CORRUPT: u8 = 0x40;

/// Reply: the coprocessor rejected the request.
pub const PACKET_CODE_ERROR: u8 = 0x80;

/// The bits of the first byte that hold the operation or status code.
pub const PACKET_CODE_MASK: u8 = 0xc0;

/// The bits of the first byte that hold the number of valid registers.
pub const PACKET_REG_COUNT_MASK: u8 = 0x3f;

} // verus!
