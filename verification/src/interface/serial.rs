//! The transport over a byte-at-a-time serial link.
//!
//! The transport does no input or output itself. It is a state machine that
//! tells its caller what to do with the link next (poll for a byte, hand over
//! a byte, flush) and is told in turn what the link answered. One exchange is
//! a number of attempts; each attempt drains stale input, writes the request,
//! and reads the reply's header and then its registers. A read that finds no
//! byte twice in a row ends the attempt, so a silent link cannot hold the
//! caller forever.

use crate::error::Error;
use crate::interface::packet::{
    IoPacket, PacketView, MAX_PACKET_REGISTERS, PACKET_HEADER_LEN, PACKET_MAX_LEN,
};
use crate::protocol::{PACKET_CODE_MASK, PACKET_REG_COUNT_MASK};
use vstd::prelude::*;

verus! {

/// How many reads in a row may find no byte before the attempt is given up.
pub const BLOCK_TOLERANCE: u8 = 1;

/// What the link answered to the action that the transport asked for.
#[derive(Debug, PartialEq, Eq)]
pub enum LinkEvent<E> {
    /// A read delivered this byte.
    Byte(u8),
    /// A read found no byte waiting, or the link cannot take a write or a
    /// flush yet.
    WouldBlock,
    /// A write or a flush went through.
    Sent,
    /// The link reported an error.
    Fault(E),
}

/// What the transport asks its caller to do with the link.
#[derive(Debug, PartialEq, Eq)]
pub enum LinkAction<E> {
    /// Poll the link for one byte, without waiting.
    Read,
    /// Hand this byte to the link.
    Write(u8),
    /// Have the link send out what it still buffers.
    Flush,
    /// The exchange is over: the number of bytes received, or the error.
    Done(Result<usize, Error<E>>),
}

/// Where an exchange stands.
#[derive(Debug, Clone, Copy, PartialEq, Eq)]
pub enum Phase {
    /// No exchange is under way.
    Idle,
    /// Stale input is being drained before the request is written.
    Discarding,
    /// The request is being written.
    Writing,
    /// The link is being flushed after the last byte of the request.
    Flushing,
    /// The reply's header is being read.
    ReadingHeader,
    /// The reply's registers are being read.
    ReadingBody,
}

/// The transport as a mathematical value.
pub struct TransportView {
    /// Where the exchange stands.
    pub phase: Phase,
    /// Attempts that the exchange may still make, the current one included.
    pub attempts_left: nat,
    /// Bytes of the request written, or bytes of the header or of the
    /// registers read, in the current phase.
    pub position: nat,
    /// Reads in a row that found no byte.
    pub blocked: nat,
    /// The reply's header as far as it was read.
    pub header: Seq<u8>,
    /// Attempts given up because the link stayed silent.
    pub stalls: nat,
    /// Exchanges ended by an error of the link.
    pub faults: nat,
}

/// What one step of the transport leaves: its own state, the receive packet
/// and the next action.
pub struct Step<E> {
    pub transport: TransportView,
    pub recv: PacketView,
    pub action: LinkAction<E>,
}

/// A counter after one more event; it stays at its maximum once there.
pub open spec fn bumped(count: nat) -> nat {
    if count < u32::MAX {
        count + 1
    } else {
        count
    }
}

impl TransportView {
    /// Number of registers that the header read so far announces.
    pub open spec fn announced(self) -> nat {
        (self.header[0] & PACKET_REG_COUNT_MASK) as nat
    }

    /// The state is one that the transport can be in.
    pub open spec fn wf(self) -> bool {
        &&& self.header.len() == PACKET_HEADER_LEN
        &&& self.attempts_left <= u8::MAX
        &&& self.stalls <= u32::MAX
        &&& self.faults <= u32::MAX
        &&& match self.phase {
            Phase::Idle => self.attempts_left == 0 && self.position == 0 && self.blocked == 0,
            Phase::Discarding | Phase::Flushing => self.attempts_left > 0 && self.position == 0
                && self.blocked == 0,
            Phase::Writing => self.attempts_left > 0 && self.position < PACKET_MAX_LEN
                && self.blocked == 0,
            Phase::ReadingHeader => self.attempts_left > 0 && self.position < PACKET_HEADER_LEN
                && self.blocked <= BLOCK_TOLERANCE,
            Phase::ReadingBody => self.attempts_left > 0 && 0 < self.announced()
                <= MAX_PACKET_REGISTERS && self.position < 2 * self.announced() && self.blocked
                <= BLOCK_TOLERANCE,
        }
    }

    /// A transport that has not exchanged anything yet.
    pub open spec fn fresh() -> TransportView {
        TransportView {
            phase: Phase::Idle,
            attempts_left: 0,
            position: 0,
            blocked: 0,
            header: Seq::new(PACKET_HEADER_LEN as nat, |i: int| 0u8),
            stalls: 0,
            faults: 0,
        }
    }

    /// This transport with no exchange under way.
    pub open spec fn idle(self) -> TransportView {
        TransportView { phase: Phase::Idle, attempts_left: 0, position: 0, blocked: 0, ..self }
    }

    /// This transport at the start of an attempt, with `attempts` to go.
    pub open spec fn attempting(self, attempts: nat) -> TransportView {
        TransportView {
            phase: Phase::Discarding,
            attempts_left: attempts,
            position: 0,
            blocked: 0,
            ..self
        }
    }

    /// The start of an exchange of up to `retries` attempts: without any
    /// attempt to make it is over at once, else the first attempt starts by
    /// draining the link.
    pub open spec fn begin<E>(self, retries: u8) -> (TransportView, LinkAction<E>) {
        if retries == 0 {
            (self.idle(), LinkAction::Done(Err(Error::Unresponsive)))
        } else {
            (self.attempting(retries as nat), LinkAction::Read)
        }
    }

    /// The current attempt has failed: the next one starts, or, after the
    /// last, the exchange ends as unresponsive.
    pub open spec fn retry<E>(self, recv: PacketView) -> Step<E> {
        if self.attempts_left <= 1 {
            Step {
                transport: self.idle(),
                recv,
                action: LinkAction::Done(Err(Error::Unresponsive)),
            }
        } else {
            Step {
                transport: self.attempting((self.attempts_left - 1) as nat),
                recv,
                action: LinkAction::Read,
            }
        }
    }

    /// The link has reported an error: the exchange ends with it.
    pub open spec fn abort<E>(self, recv: PacketView, fault: E) -> Step<E> {
        Step {
            transport: TransportView { faults: bumped(self.faults), ..self }.idle(),
            recv,
            action: LinkAction::Done(Err(Error::Comm(fault))),
        }
    }

    /// A read has found no byte: within the tolerance the read is repeated,
    /// beyond it the attempt is given up as stalled.
    pub open spec fn blocked_read<E>(self, recv: PacketView) -> Step<E> {
        if self.blocked >= BLOCK_TOLERANCE {
            TransportView { stalls: bumped(self.stalls), ..self }.retry(recv)
        } else {
            Step {
                transport: TransportView { blocked: self.blocked + 1, ..self },
                recv,
                action: LinkAction::Read,
            }
        }
    }

    /// A byte of the header has arrived. With the fourth the header is
    /// judged: one that carries an error or corrupt code, or announces more
    /// registers than a packet holds, fails the attempt; one without
    /// registers completes the exchange; any other is followed by its
    /// registers.
    pub open spec fn header_byte<E>(self, recv: PacketView, byte: u8) -> Step<E> {
        let header = self.header.update(self.position as int, byte);
        let received = TransportView { header, ..self };
        if self.position + 1 < PACKET_HEADER_LEN {
            Step {
                transport: TransportView { position: self.position + 1, blocked: 0, ..received },
                recv,
                action: LinkAction::Read,
            }
        } else if header[0] & PACKET_CODE_MASK != 0 || received.announced()
            > MAX_PACKET_REGISTERS {
            received.retry(recv)
        } else if received.announced() == 0 {
            Step {
                transport: received.idle(),
                recv: recv.with_header(header),
                action: LinkAction::Done(Ok(PACKET_HEADER_LEN)),
            }
        } else {
            Step {
                transport: TransportView {
                    phase: Phase::ReadingBody,
                    position: 0,
                    blocked: 0,
                    ..received
                },
                recv,
                action: LinkAction::Read,
            }
        }
    }

    /// A byte of the registers has arrived and goes to its place in the
    /// receive packet. With the last one the header is stored too and the
    /// exchange is complete.
    pub open spec fn body_byte<E>(self, recv: PacketView, byte: u8) -> Step<E> {
        let filled = recv.with_body_byte(self.position as int, byte);
        if self.position + 1 < 2 * self.announced() {
            Step {
                transport: TransportView { position: self.position + 1, blocked: 0, ..self },
                recv: filled,
                action: LinkAction::Read,
            }
        } else {
            Step {
                transport: self.idle(),
                recv: filled.with_header(self.header),
                action: LinkAction::Done(Ok((PACKET_HEADER_LEN + 2 * self.announced()) as usize)),
            }
        }
    }

    /// What the transport does when the link answers `event` while `send` is
    /// the request and `recv` the receive packet.
    ///
    /// An event that is no answer to the action asked for leaves everything
    /// as it is, and the action is asked for again. While stale input is
    /// drained every answer but "no byte" counts as more input. A write or
    /// flush that the link cannot take yet is repeated until it goes through.
    pub open spec fn step<E>(self, send: PacketView, recv: PacketView, event: LinkEvent<E>) -> Step<
        E,
    > {
        match self.phase {
            Phase::Idle => Step {
                transport: self,
                recv,
                action: LinkAction::Done(Err(Error::Unresponsive)),
            },
            Phase::Discarding => match event {
                LinkEvent::WouldBlock => Step {
                    transport: TransportView { phase: Phase::Writing, ..self },
                    recv,
                    action: LinkAction::Write(send.frame()[0]),
                },
                _ => Step { transport: self, recv, action: LinkAction::Read },
            },
            Phase::Writing => match event {
                LinkEvent::Sent => if self.position + 1 < send.wire_len() {
                    Step {
                        transport: TransportView { position: self.position + 1, ..self },
                        recv,
                        action: LinkAction::Write(send.frame()[self.position + 1 as int]),
                    }
                } else {
                    Step {
                        transport: TransportView { phase: Phase::Flushing, position: 0, ..self },
                        recv,
                        action: LinkAction::Flush,
                    }
                },
                LinkEvent::Fault(fault) => self.abort(recv, fault),
                _ => Step {
                    transport: self,
                    recv,
                    action: LinkAction::Write(send.frame()[self.position as int]),
                },
            },
            Phase::Flushing => match event {
                LinkEvent::Sent => Step {
                    transport: TransportView { phase: Phase::ReadingHeader, ..self },
                    recv,
                    action: LinkAction::Read,
                },
                LinkEvent::Fault(fault) => self.abort(recv, fault),
                _ => Step { transport: self, recv, action: LinkAction::Flush },
            },
            Phase::ReadingHeader => match event {
                LinkEvent::Byte(byte) => self.header_byte(recv, byte),
                LinkEvent::WouldBlock => self.blocked_read(recv),
                LinkEvent::Fault(fault) => self.abort(recv, fault),
                LinkEvent::Sent => Step { transport: self, recv, action: LinkAction::Read },
            },
            Phase::ReadingBody => match event {
                LinkEvent::Byte(byte) => self.body_byte(recv, byte),
                LinkEvent::WouldBlock => self.blocked_read(recv),
                LinkEvent::Fault(fault) => self.abort(recv, fault),
                LinkEvent::Sent => Step { transport: self, recv, action: LinkAction::Read },
            },
        }
    }
}

/// The transport over a byte-at-a-time serial link.
#[derive(Debug, Clone, Copy)]
pub struct SerialInterface {
    phase: Phase,
    attempts_left: u8,
    position: usize,
    block_count: u8,
    header_buf: [u8; 4],
    restart_count_blocking: u32,
    restart_count_comm_err: u32,
}

impl View for SerialInterface {
    type V = TransportView;

    closed spec fn view(&self) -> TransportView {
        TransportView {
            phase: self.phase,
            attempts_left: self.attempts_left as nat,
            position: self.position as nat,
            blocked: self.block_count as nat,
            header: self.header_buf@,
            stalls: self.restart_count_blocking as nat,
            faults: self.restart_count_comm_err as nat,
        }
    }
}

fn bump(count: u32) -> (next: u32)
    ensures
        next == bumped(count as nat),
{
    if count < u32::MAX {
        count + 1
    } else {
        count
    }
}

impl SerialInterface {
    /// Every transport that the program holds is in a state that it can be
    /// in.
    #[verifier::type_invariant]
    pub open spec fn well_formed(self) -> bool {
        self@.wf()
    }

    /// A transport that has not exchanged anything yet.
    pub fn new() -> (transport: Self)
        ensures
            transport@ == TransportView::fresh(),
            transport@.wf(),
    {
        let transport = Self {
            phase: Phase::Idle,
            attempts_left: 0,
            position: 0,
            block_count: 0,
            header_buf: [0;4],
            restart_count_blocking: 0,
            restart_count_comm_err: 0,
        };
        assert(transport@.header =~= TransportView::fresh().header);
        transport
    }

    /// Whether an exchange is under way.
    pub fn is_busy(&self) -> (busy: bool)
        ensures
            busy == (self@.phase != Phase::Idle),
            self@.wf(),
    {
        proof {
            use_type_invariant(self);
        }
        match self.phase {
            Phase::Idle => false,
            _ => true,
        }
    }

    /// Attempts given up so far because the link stayed silent.
    pub fn stall_count(&self) -> (count: u32)
        ensures
            count == self@.stalls,
    {
        self.restart_count_blocking
    }

    /// Exchanges ended so far by an error of the link.
    pub fn fault_count(&self) -> (count: u32)
        ensures
            count == self@.faults,
    {
        self.restart_count_comm_err
    }

    /// Whether `event` says that the link has no more input waiting. This is
    /// what ends the draining of stale input.
    pub fn input_drained<E>(event: &LinkEvent<E>) -> (drained: bool)
        ensures
            drained == (*event is WouldBlock),
    {
        match event {
            LinkEvent::WouldBlock => true,
            _ => false,
        }
    }

    /// Starts an exchange of up to `retries` attempts and says what to do
    /// first. An exchange that was under way is dropped.
    pub fn begin<E>(&mut self, retries: u8) -> (action: LinkAction<E>)
        ensures
            (final(self)@, action) == old(self)@.begin::<E>(retries),
            final(self)@.wf(),
    {
        proof {
            use_type_invariant(&*self);
        }
        if retries == 0 {
            self.reset(Phase::Idle, 0);
            LinkAction::Done(Err(Error::Unresponsive))
        } else {
            self.reset(Phase::Discarding, retries);
            LinkAction::Read
        }
    }

    /// Takes the link's answer to the last action and says what to do next.
    /// `send` is the request of the exchange, `recv` the packet that takes
    /// the reply.
    pub fn step<E>(&mut self, send: &IoPacket, recv: &mut IoPacket, event: LinkEvent<E>) -> (action:
        LinkAction<E>)
        ensures
            (Step { transport: final(self)@, recv: final(recv)@, action }) == old(self)@.step(
                send@,
                old(recv)@,
                event,
            ),
            final(self)@.wf(),
            final(recv)@.wf(),
    {
        proof {
            use_type_invariant(&*self);
            use_type_invariant(&*recv);
        }
        let wire_len = send.wire_len();
        match self.phase {
            Phase::Idle => LinkAction::Done(Err(Error::Unresponsive)),
            Phase::Discarding => {
                if Self::input_drained(&event) {
                    self.enter(Phase::Writing, 0);
                    LinkAction::Write(send.wire_byte(0))
                } else {
                    LinkAction::Read
                }
            },
            Phase::Writing => match event {
                LinkEvent::Sent => {
                    if self.position + 1 < wire_len {
                        self.enter(Phase::Writing, self.position + 1);
                        LinkAction::Write(send.wire_byte(self.position))
                    } else {
                        self.enter(Phase::Flushing, 0);
                        LinkAction::Flush
                    }
                },
                LinkEvent::Fault(fault) => self.abort(fault),
                _ => LinkAction::Write(send.wire_byte(self.position)),
            },
            Phase::Flushing => match event {
                LinkEvent::Sent => {
                    self.enter(Phase::ReadingHeader, 0);
                    LinkAction::Read
                },
                LinkEvent::Fault(fault) => self.abort(fault),
                _ => LinkAction::Flush,
            },
            Phase::ReadingHeader => match event {
                LinkEvent::Byte(byte) => self.header_byte(recv, byte),
                LinkEvent::WouldBlock => self.blocked_read(Ghost(recv@)),
                LinkEvent::Fault(fault) => self.abort(fault),
                LinkEvent::Sent => LinkAction::Read,
            },
            Phase::ReadingBody => match event {
                LinkEvent::Byte(byte) => self.body_byte(recv, byte),
                LinkEvent::WouldBlock => self.blocked_read(Ghost(recv@)),
                LinkEvent::Fault(fault) => self.abort(fault),
                LinkEvent::Sent => LinkAction::Read,
            },
        }
    }

    // All of the state that belongs to one attempt, set at once.
    fn reset(&mut self, phase: Phase, attempts_left: u8)
        requires
            (phase == Phase::Idle && attempts_left == 0) || (phase == Phase::Discarding
                && attempts_left > 0),
        ensures
            final(self)@ == (TransportView {
                phase,
                attempts_left: attempts_left as nat,
                position: 0,
                blocked: 0,
                ..old(self)@
            }),
            final(self)@.wf(),
    {
        proof {
            use_type_invariant(&*self);
        }
        *self = Self {
            phase,
            attempts_left,
            position: 0,
            block_count: 0,
            header_buf: self.header_buf,
            restart_count_blocking: self.restart_count_blocking,
            restart_count_comm_err: self.restart_count_comm_err,
        };
    }

    // The move to another phase or position within the attempt.
    fn enter(&mut self, phase: Phase, position: usize)
        requires
            (TransportView { phase, position: position as nat, blocked: 0, ..old(self)@ }).wf(),
        ensures
            final(self)@ == (TransportView {
                phase,
                position: position as nat,
                blocked: 0,
                ..old(self)@
            }),
            final(self)@.wf(),
    {
        *self = Self {
            phase,
            attempts_left: self.attempts_left,
            position,
            block_count: 0,
            header_buf: self.header_buf,
            restart_count_blocking: self.restart_count_blocking,
            restart_count_comm_err: self.restart_count_comm_err,
        };
    }

    fn retry<E>(&mut self, Ghost(recv): Ghost<PacketView>) -> (action: LinkAction<E>)
        ensures
            (Step { transport: final(self)@, recv, action }) == old(self)@.retry::<E>(recv),
            final(self)@.wf(),
    {
        proof {
            use_type_invariant(&*self);
        }
        if self.attempts_left <= 1 {
            self.reset(Phase::Idle, 0);
            LinkAction::Done(Err(Error::Unresponsive))
        } else {
            self.reset(Phase::Discarding, self.attempts_left - 1);
            LinkAction::Read
        }
    }

    fn abort<E>(&mut self, fault: E) -> (action: LinkAction<E>)
        ensures
            final(self)@ == (TransportView { faults: bumped(old(self)@.faults), ..old(self)@ }).idle(),
            action == LinkAction::Done(Err::<usize, Error<E>>(Error::Comm(fault))),
            final(self)@.wf(),
    {
        proof {
            use_type_invariant(&*self);
        }
        *self = Self {
            phase: Phase::Idle,
            attempts_left: 0,
            position: 0,
            block_count: 0,
            header_buf: self.header_buf,
            restart_count_blocking: self.restart_count_blocking,
            restart_count_comm_err: bump(self.restart_count_comm_err),
        };
        LinkAction::Done(Err(Error::Comm(fault)))
    }

    fn blocked_read<E>(&mut self, Ghost(recv): Ghost<PacketView>) -> (action: LinkAction<E>)
        requires
            old(self)@.phase == Phase::ReadingHeader || old(self)@.phase == Phase::ReadingBody,
        ensures
            (Step { transport: final(self)@, recv, action }) == old(self)@.blocked_read::<E>(recv),
            final(self)@.wf(),
    {
        proof {
            use_type_invariant(&*self);
        }
        if self.block_count >= BLOCK_TOLERANCE {
            *self = Self {
                phase: self.phase,
                attempts_left: self.attempts_left,
                position: self.position,
                block_count: self.block_count,
                header_buf: self.header_buf,
                restart_count_blocking: bump(self.restart_count_blocking),
                restart_count_comm_err: self.restart_count_comm_err,
            };
            self.retry(Ghost(recv))
        } else {
            *self = Self {
                phase: self.phase,
                attempts_left: self.attempts_left,
                position: self.position,
                block_count: self.block_count + 1,
                header_buf: self.header_buf,
                restart_count_blocking: self.restart_count_blocking,
                restart_count_comm_err: self.restart_count_comm_err,
            };
            LinkAction::Read
        }
    }

    fn header_byte<E>(&mut self, recv: &mut IoPacket, byte: u8) -> (action: LinkAction<E>)
        requires
            old(self)@.phase == Phase::ReadingHeader,
        ensures
            (Step { transport: final(self)@, recv: final(recv)@, action }) == old(
                self,
            )@.header_byte::<E>(old(recv)@, byte),
            final(self)@.wf(),
    {
        proof {
            use_type_invariant(&*self);
        }
        let mut header = self.header_buf;
        header[self.position] = byte;
        let complete = self.position + 1 >= PACKET_HEADER_LEN;
        let first = header[0];
        let count = first & PACKET_REG_COUNT_MASK;
        let code = first & PACKET_CODE_MASK;
        assert(count <= 0x3f) by (bit_vector)
            requires
                count == first & 0x3f,
        ;
        if !complete {
            *self = Self {
                phase: Phase::ReadingHeader,
                attempts_left: self.attempts_left,
                position: self.position + 1,
                block_count: 0,
                header_buf: header,
                restart_count_blocking: self.restart_count_blocking,
                restart_count_comm_err: self.restart_count_comm_err,
            };
            LinkAction::Read
        } else if code != 0 || count as usize > MAX_PACKET_REGISTERS {
            *self = Self {
                phase: Phase::ReadingHeader,
                attempts_left: self.attempts_left,
                position: self.position,
                block_count: self.block_count,
                header_buf: header,
                restart_count_blocking: self.restart_count_blocking,
                restart_count_comm_err: self.restart_count_comm_err,
            };
            self.retry(Ghost(recv@))
        } else if count == 0 {
            *self = Self {
                phase: Phase::Idle,
                attempts_left: 0,
                position: 0,
                block_count: 0,
                header_buf: header,
                restart_count_blocking: self.restart_count_blocking,
                restart_count_comm_err: self.restart_count_comm_err,
            };
            recv.store_header(&header);
            LinkAction::Done(Ok(PACKET_HEADER_LEN))
        } else {
            *self = Self {
                phase: Phase::ReadingBody,
                attempts_left: self.attempts_left,
                position: 0,
                block_count: 0,
                header_buf: header,
                restart_count_blocking: self.restart_count_blocking,
                restart_count_comm_err: self.restart_count_comm_err,
            };
            LinkAction::Read
        }
    }

    fn body_byte<E>(&mut self, recv: &mut IoPacket, byte: u8) -> (action: LinkAction<E>)
        requires
            old(self)@.phase == Phase::ReadingBody,
        ensures
            (Step { transport: final(self)@, recv: final(recv)@, action }) == old(
                self,
            )@.body_byte::<E>(old(recv)@, byte),
            final(self)@.wf(),
    {
        proof {
            use_type_invariant(&*self);
        }
        let count = (self.header_buf[0] & PACKET_REG_COUNT_MASK) as usize;
        recv.store_body_byte(self.position, byte);
        if self.position + 1 < 2 * count {
            *self = Self {
                phase: Phase::ReadingBody,
                attempts_left: self.attempts_left,
                position: self.position + 1,
                block_count: 0,
                header_buf: self.header_buf,
                restart_count_blocking: self.restart_count_blocking,
                restart_count_comm_err: self.restart_count_comm_err,
            };
            LinkAction::Read
        } else {
            recv.store_header(&self.header_buf);
            self.reset(Phase::Idle, 0);
            LinkAction::Done(Ok(PACKET_HEADER_LEN + 2 * count))
        }
    }
}

} // verus!
