//! The register-level driver: reads, writes and read-modify-writes of the
//! coprocessor's registers over any packet interface.

use crate::error::Error;
use crate::interface::packet::{IoPacket, PacketView, RegisterValue, MAX_PACKET_REGISTERS};
use crate::interface::DeviceInterface;
use crate::protocol::{
    PACKET_CODE_CORRUPT, PACKET_CODE_ERROR, PACKET_CODE_READ, PACKET_CODE_WRITE,
};
use vstd::prelude::*;

verus! {

/// Attempts that the interface is given for each exchange.
pub const EXCHANGE_RETRIES: u8 = 10;

/// A reply is accepted where bytes were received, its checksum is valid and
/// its code is neither the one for a corrupt request nor the one for an
/// error.
pub open spec fn reply_accepted(received: usize, reply: PacketView) -> bool {
    &&& received > 0
    &&& reply.crc_valid()
    &&& reply.code() != PACKET_CODE_CORRUPT
    &&& reply.code() != PACKET_CODE_ERROR
}

/// The outcome of an exchange is accepted where the interface reports
/// success and the reply that it left is accepted.
pub open spec fn outcome_accepted<E>(outcome: Result<usize, E>, reply: PacketView) -> bool {
    match outcome {
        Ok(received) => reply_accepted(received, reply),
        Err(_) => false,
    }
}

/// The value that a register takes when `clear_bits` are cleared in `value`
/// and then `set_bits` are set.
pub open spec fn modified_value(
    value: RegisterValue,
    clear_bits: RegisterValue,
    set_bits: RegisterValue,
) -> RegisterValue {
    (value & !clear_bits) | set_bits
}

/// Judges the outcome of an exchange: only an accepted reply is a success,
/// and whatever else happened is reported as an error response.
pub fn classify_reply<E, CommE>(outcome: &Result<usize, E>, reply: &IoPacket) -> (res: Result<
    (),
    Error<CommE>,
>)
    ensures
        res is Ok <==> outcome_accepted(*outcome, reply@),
        res matches Err(e) ==> e is ErrorResponse,
{
    match outcome {
        Ok(received) => {
            if *received > 0 && reply.is_crc_valid() {
                let code = reply.packet_code();
                if code != PACKET_CODE_CORRUPT && code != PACKET_CODE_ERROR {
                    Ok(())
                } else {
                    Err(Error::ErrorResponse)
                }
            } else {
                Err(Error::ErrorResponse)
            }
        },
        Err(_) => Err(Error::ErrorResponse),
    }
}

/// Clears `clear_bits` in `value`, then sets `set_bits`.
pub fn modify_value(value: RegisterValue, clear_bits: RegisterValue, set_bits: RegisterValue) -> (new:
    RegisterValue)
    ensures
        new == modified_value(value, clear_bits, set_bits),
{
    (value & !clear_bits) | set_bits
}

/// The driver for the coprocessor's registers.
pub struct IoMcuDriver<DI> {
    di: DI,
    recv_packet: IoPacket,
    send_packet: IoPacket,
}

impl<DI, CommE> IoMcuDriver<DI> where DI: DeviceInterface<InterfaceError = Error<CommE>> {
    /// The request that the driver built last.
    pub closed spec fn sent(self) -> PacketView {
        self.send_packet@
    }

    /// The reply that the driver received last.
    pub closed spec fn received(self) -> PacketView {
        self.recv_packet@
    }

    /// The interface that the driver talks through.
    pub closed spec fn device(self) -> DI {
        self.di
    }

    /// A driver on `device_interface`, with both packets zeroed.
    pub fn new_with_interface(device_interface: DI) -> (driver: Self)
        ensures
            driver.device() == device_interface,
            driver.sent() == PacketView::zeroed(),
            driver.received() == PacketView::zeroed(),
    {
        Self {
            di: device_interface,
            recv_packet: IoPacket::default(),
            send_packet: IoPacket::default(),
        }
    }

    /// Prepares the interface: its `setup` is called once, and what that
    /// call returns and leaves of the interface is what the driver returns
    /// and holds afterwards. The packets stay as they are.
    pub fn setup(&mut self) -> (res: Result<(), DI::InterfaceError>)
        ensures
            final(self).sent() == old(self).sent(),
            final(self).received() == old(self).received(),
            exists|device: &mut DI|
                *device == old(self).device() && *final(device) == final(self).device()
                    && #[trigger] call_ensures(DI::setup, (device,), res),
    {
        self.di.setup()
    }

    /// The interface that the driver talks through.
    pub fn interface(&self) -> (device: &DI)
        ensures
            *device == self.device(),
    {
        &self.di
    }

    /// The request that the driver built last.
    pub fn send_packet(&self) -> (packet: &IoPacket)
        ensures
            packet@ == self.sent(),
    {
        &self.send_packet
    }

    /// The reply that the driver received last.
    pub fn recv_packet(&self) -> (packet: &IoPacket)
        ensures
            packet@ == self.received(),
    {
        &self.recv_packet
    }

    /// Clears the receive packet, has the interface exchange the request for
    /// a reply in up to `retries` attempts, and judges the outcome.
    fn packet_exchange(&mut self, retries: u8) -> (res: Result<(), DI::InterfaceError>)
        ensures
            final(self).sent() == old(self).sent(),
            final(self).received().wf(),
            (exists|
                device: &mut DI,
                send: &IoPacket,
                recv: &mut IoPacket,
                outcome: Result<usize, DI::InterfaceError>,
            |
                {
                    &&& *device == old(self).device()
                    &&& send@ == final(self).sent()
                    &&& recv@ == PacketView::cleared()
                    &&& #[trigger] call_ensures(
                        DI::exchange_packets,
                        (device, send, recv, retries),
                        outcome,
                    )
                    &&& *final(device) == final(self).device()
                    &&& final(recv)@ == final(self).received()
                    &&& res is Ok <==> outcome_accepted(outcome, final(self).received())
                }),
            res matches Err(e) ==> e is ErrorResponse,
    {
        self.recv_packet.clear();
        let outcome = self.di.exchange_packets(&self.send_packet, &mut self.recv_packet, retries);
        proof {
            use_type_invariant(&self.recv_packet);
        }
        classify_reply(&outcome, &self.recv_packet)
    }

    /// Writes `values` to the registers that start at `offset` of `page`.
    ///
    /// The request is a write packet with `values`. The interface is called
    /// once, with this request, a cleared receive packet and ten attempts to
    /// make. The write has succeeded where the outcome of that call is
    /// accepted; every other outcome is an error response.
    pub fn set_registers(&mut self, page: u8, offset: u8, values: &[RegisterValue]) -> (res: Result<
        (),
        DI::InterfaceError,
    >)
        requires
            values@.len() <= MAX_PACKET_REGISTERS,
        ensures
            final(self).sent() == old(self).sent().with_values(
                PACKET_CODE_WRITE,
                page,
                offset,
                values@,
            ),
            final(self).received().wf(),
            (exists|
                device: &mut DI,
                send: &IoPacket,
                recv: &mut IoPacket,
                outcome: Result<usize, DI::InterfaceError>,
            |
                {
                    &&& *device == old(self).device()
                    &&& send@ == final(self).sent()
                    &&& recv@ == PacketView::cleared()
                    &&& #[trigger] call_ensures(
                        DI::exchange_packets,
                        (device, send, recv, EXCHANGE_RETRIES),
                        outcome,
                    )
                    &&& *final(device) == final(self).device()
                    &&& final(recv)@ == final(self).received()
                    &&& res is Ok <==> outcome_accepted(outcome, final(self).received())
                }),
            res matches Err(e) ==> e is ErrorResponse,
    {
        assert(PACKET_CODE_WRITE & 0x3f == 0) by (bit_vector);
        self.send_packet.set_values(PACKET_CODE_WRITE, page, offset, values);
        self.packet_exchange(EXCHANGE_RETRIES)
    }

    /// Writes `value` to the register at `offset` of `page`.
    pub fn set_one_register(&mut self, page: u8, offset: u8, value: RegisterValue) -> (res: Result<
        (),
        DI::InterfaceError,
    >)
        ensures
            final(self).sent() == old(self).sent().with_values(
                PACKET_CODE_WRITE,
                page,
                offset,
                seq![value],
            ),
            final(self).received().wf(),
            (exists|
                device: &mut DI,
                send: &IoPacket,
                recv: &mut IoPacket,
                outcome: Result<usize, DI::InterfaceError>,
            |
                {
                    &&& *device == old(self).device()
                    &&& send@ == final(self).sent()
                    &&& recv@ == PacketView::cleared()
                    &&& #[trigger] call_ensures(
                        DI::exchange_packets,
                        (device, send, recv, EXCHANGE_RETRIES),
                        outcome,
                    )
                    &&& *final(device) == final(self).device()
                    &&& final(recv)@ == final(self).received()
                    &&& res is Ok <==> outcome_accepted(outcome, final(self).received())
                }),
            res matches Err(e) ==> e is ErrorResponse,
    {
        let values = [value];
        assert(values@ =~= seq![value]);
        self.set_registers(page, offset, &values)
    }

    /// Reads as many registers as `values` holds, starting at `offset` of
    /// `page`.
    ///
    /// The request is a read packet that asks for `values.len()` registers;
    /// its register part carries what `values` held. The interface is called
    /// once, with this request, a cleared receive packet and ten attempts to
    /// make. Where the outcome of that call is accepted, `values` takes the
    /// front of the reply's register buffer. Every other outcome is an error
    /// response and leaves `values` as it was.
    pub fn get_registers(&mut self, page: u8, offset: u8, values: &mut [RegisterValue]) -> (res:
        Result<(), DI::InterfaceError>)
        requires
            old(values)@.len() <= MAX_PACKET_REGISTERS,
        ensures
            final(self).sent() == old(self).sent().with_values(
                PACKET_CODE_READ,
                page,
                offset,
                old(values)@,
            ),
            final(self).received().wf(),
            final(values)@.len() == old(values)@.len(),
            (exists|
                device: &mut DI,
                send: &IoPacket,
                recv: &mut IoPacket,
                outcome: Result<usize, DI::InterfaceError>,
            |
                {
                    &&& *device == old(self).device()
                    &&& send@ == final(self).sent()
                    &&& recv@ == PacketView::cleared()
                    &&& #[trigger] call_ensures(
                        DI::exchange_packets,
                        (device, send, recv, EXCHANGE_RETRIES),
                        outcome,
                    )
                    &&& *final(device) == final(self).device()
                    &&& final(recv)@ == final(self).received()
                    &&& res is Ok <==> outcome_accepted(outcome, final(self).received())
                }),
            res is Ok ==> final(values)@ == final(self).received().registers.take(
                old(values)@.len() as int,
            ),
            res matches Err(e) ==> e is ErrorResponse && final(values)@ == old(values)@,
    {
        assert(PACKET_CODE_READ & 0x3f == 0) by (bit_vector);
        self.send_packet.set_values(PACKET_CODE_READ, page, offset, values);
        match self.packet_exchange(EXCHANGE_RETRIES) {
            Ok(()) => {
                let count = values.len();
                let mut i: usize = 0;
                while i < count
                    invariant
                        count == values@.len(),
                        count <= MAX_PACKET_REGISTERS,
                        i <= count,
                        self.recv_packet@.wf(),
                        forall|k: int| 0 <= k < i ==> values@[k] == self.recv_packet@.registers[k],
                    decreases count - i,
                {
                    values[i] = self.recv_packet.register(i);
                    i += 1;
                }
                Ok(())
            },
            Err(e) => Err(e),
        }
    }

    /// Reads the register at `offset` of `page`.
    pub fn get_one_register(&mut self, page: u8, offset: u8) -> (res: Result<
        RegisterValue,
        DI::InterfaceError,
    >)
        ensures
            final(self).sent() == old(self).sent().with_values(
                PACKET_CODE_READ,
                page,
                offset,
                seq![0u16],
            ),
            final(self).received().wf(),
            (exists|
                device: &mut DI,
                send: &IoPacket,
                recv: &mut IoPacket,
                outcome: Result<usize, DI::InterfaceError>,
            |
                {
                    &&& *device == old(self).device()
                    &&& send@ == final(self).sent()
                    &&& recv@ == PacketView::cleared()
                    &&& #[trigger] call_ensures(
                        DI::exchange_packets,
                        (device, send, recv, EXCHANGE_RETRIES),
                        outcome,
                    )
                    &&& *final(device) == final(self).device()
                    &&& final(recv)@ == final(self).received()
                    &&& res is Ok <==> outcome_accepted(outcome, final(self).received())
                }),
            res matches Ok(value) ==> value == final(self).received().registers[0],
            res matches Err(e) ==> e is ErrorResponse,
    {
        let mut read_buf: [RegisterValue; 1] = [0;1];
        assert(read_buf@ =~= seq![0u16]);
        match self.get_registers(page, offset, &mut read_buf) {
            Ok(()) => Ok(read_buf[0]),
            Err(e) => Err(e),
        }
    }

    /// Reads the register at `offset` of `page`, clears `clear_bits` in its
    /// value, sets `set_bits` and writes the result back.
    ///
    /// These are two exchanges, each one call of the interface with a
    /// cleared receive packet and ten attempts to make. The first carries the
    /// read request. Where its outcome is not accepted, nothing is written:
    /// the result is the error, and the read request is the last that the
    /// driver built. Where it is accepted, the second exchange carries the
    /// write of the first register of that reply, modified, and its outcome
    /// decides the result.
    pub fn modify_register(
        &mut self,
        page: u8,
        offset: u8,
        clear_bits: RegisterValue,
        set_bits: RegisterValue,
    ) -> (res: Result<(), DI::InterfaceError>)
        ensures
            final(self).received().wf(),
            ({
                let read = old(self).sent().with_values(PACKET_CODE_READ, page, offset, seq![0u16]);
                let held = final(self).device();
                let request = final(self).sent();
                let reply = final(self).received();
                exists|
                    device: &mut DI,
                    send: &IoPacket,
                    recv: &mut IoPacket,
                    outcome: Result<usize, DI::InterfaceError>,
                |
                    {
                        &&& *device == old(self).device()
                        &&& send@ == read
                        &&& recv@ == PacketView::cleared()
                        &&& #[trigger] call_ensures(
                            DI::exchange_packets,
                            (device, send, recv, EXCHANGE_RETRIES),
                            outcome,
                        )
                        &&& if outcome_accepted(outcome, final(recv)@) {
                            let written = modified_value(
                                final(recv)@.registers[0],
                                clear_bits,
                                set_bits,
                            );
                            exists|
                                second_device: &mut DI,
                                second_send: &IoPacket,
                                second_recv: &mut IoPacket,
                                second_outcome: Result<usize, DI::InterfaceError>,
                            |
                                {
                                    &&& *second_device == *final(device)
                                    &&& second_send@ == read.with_values(
                                        PACKET_CODE_WRITE,
                                        page,
                                        offset,
                                        seq![written],
                                    )
                                    &&& second_recv@ == PacketView::cleared()
                                    &&& #[trigger] call_ensures(
                                        DI::exchange_packets,
                                        (second_device, second_send, second_recv, EXCHANGE_RETRIES),
                                        second_outcome,
                                    )
                                    &&& request == second_send@
                                    &&& held == *final(second_device)
                                    &&& reply == final(second_recv)@
                                    &&& res is Ok <==> outcome_accepted(second_outcome, reply)
                                }
                        } else {
                            &&& res is Err
                            &&& request == read
                            &&& held == *final(device)
                            &&& reply == final(recv)@
                        }
                    }
            }),
            res matches Err(e) ==> e is ErrorResponse,
    {
        match self.get_one_register(page, offset) {
            Ok(value) => {
                let new_value = modify_value(value, clear_bits, set_bits);
                self.set_one_register(page, offset, new_value)
            },
            Err(e) => Err(e),
        }
    }
}

} // verus!
