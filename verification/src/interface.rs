//! The packet format and the links that carry it.

pub mod link;
pub mod packet;
pub mod serial;

pub use packet::{
    IoPacket, PacketView, RegisterValue, MAX_PACKET_REGISTERS, PACKET_HEADER_LEN, PACKET_MAX_LEN,
};
pub use serial::{LinkAction, LinkEvent, SerialInterface};

use vstd::prelude::*;

verus! {

/// A way of exchanging packets with the coprocessor.
///
/// The driver makes no assumption about what an implementation returns: it
/// judges every reply by itself.
pub trait DeviceInterface {
    /// The error that the interface reports.
    type InterfaceError;

    /// Prepares the link. Called once, before the first exchange.
    fn setup(&mut self) -> Result<(), Self::InterfaceError>;

    /// Sends the bytes of `send` that travel and receives the reply into
    /// `recv`, in up to `retries` attempts. Returns the number of bytes
    /// received.
    fn exchange_packets(&mut self, send: &IoPacket, recv: &mut IoPacket, retries: u8) -> Result<
        usize,
        Self::InterfaceError,
    >;

    /// Drops whatever input is waiting on the link, without blocking.
    fn discard_input(&mut self);
}

} // verus!
