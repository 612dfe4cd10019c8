//! What the serial transport does on a link of known behaviour.
//!
//! The link is modelled with the coprocessor behind it: bytes wait to be
//! read, and each time a request has been flushed out the coprocessor puts
//! its next reply on the link. Driving the transport against such a link
//! shows what an exchange comes to.

use crate::error::Error;
use crate::interface::packet::{
    high_byte, lemma_bytes_of_register, low_byte, PacketView, MAX_PACKET_REGISTERS,
};
use crate::interface::serial::{bumped, LinkAction, LinkEvent, Phase, Step, TransportView};
use crate::protocol::{PACKET_CODE_MASK, PACKET_CODE_SUCCESS, PACKET_REG_COUNT_MASK};
use vstd::prelude::*;

verus! {

/// A link with the coprocessor behind it.
pub struct Wire {
    /// Bytes that wait to be read.
    pub pending: Seq<u8>,
    /// What the coprocessor puts on the link after each request, the reply
    /// to the first request first. After the last it stays silent.
    pub replies: Seq<Seq<u8>>,
}

impl Wire {
    /// What the link answers to `action`, and the link afterwards. A read
    /// takes the byte that has waited longest; writes and flushes go through
    /// at once, and a flush brings the next reply.
    pub open spec fn answer<E>(self, action: LinkAction<E>) -> (Wire, LinkEvent<E>) {
        match action {
            LinkAction::Read => if self.pending.len() > 0 {
                (Wire { pending: self.pending.skip(1), ..self }, LinkEvent::Byte(self.pending[0]))
            } else {
                (self, LinkEvent::WouldBlock)
            },
            LinkAction::Write(_) => (self, LinkEvent::Sent),
            LinkAction::Flush => if self.replies.len() > 0 {
                (
                    Wire {
                        pending: self.pending + self.replies[0],
                        replies: self.replies.skip(1),
                    },
                    LinkEvent::Sent,
                )
            } else {
                (self, LinkEvent::Sent)
            },
            LinkAction::Done(_) => (self, LinkEvent::WouldBlock),
        }
    }
}

/// A transport in the middle of an exchange together with its link.
pub struct Run<E> {
    pub step: Step<E>,
    pub wire: Wire,
}

/// The transport and the link one action later.
pub open spec fn advance<E>(run: Run<E>, send: PacketView) -> Run<E> {
    let (wire, event) = run.wire.answer(run.step.action);
    Run { step: run.step.transport.step(send, run.step.recv, event), wire }
}

/// The transport and the link after up to `steps` actions were carried out
/// and answered; nothing more happens once the exchange is done.
pub open spec fn drive<E>(run: Run<E>, send: PacketView, steps: nat) -> Run<E>
    decreases steps,
{
    if steps == 0 || run.step.action is Done {
        run
    } else {
        drive(advance(run, send), send, (steps - 1) as nat)
    }
}

/// Driving for `a + b` steps is driving for `a` steps and then for `b`.
pub proof fn lemma_drive_add<E>(run: Run<E>, send: PacketView, a: nat, b: nat)
    ensures
        drive(run, send, a + b) == drive(drive(run, send, a), send, b),
    decreases a,
{
    if run.step.action is Done {
        assert(drive(run, send, a) == run);
        if b > 0 {
        }
    } else if a > 0 {
        lemma_drive_add(advance(run, send), send, (a - 1) as nat, b);
    }
}

/// How many of the first `steps` actions poll the link for a byte.
pub open spec fn reads<E>(run: Run<E>, send: PacketView, steps: nat) -> nat
    decreases steps,
{
    if steps == 0 || run.step.action is Done {
        0
    } else {
        let one: nat = if run.step.action is Read {
            1
        } else {
            0
        };
        one + reads(advance(run, send), send, (steps - 1) as nat)
    }
}

/// How many of the first `steps` actions hand a byte to the link.
pub open spec fn writes<E>(run: Run<E>, send: PacketView, steps: nat) -> nat
    decreases steps,
{
    if steps == 0 || run.step.action is Done {
        0
    } else {
        let one: nat = if run.step.action is Write {
            1
        } else {
            0
        };
        one + writes(advance(run, send), send, (steps - 1) as nat)
    }
}

/// The reads and writes of `a + b` steps are those of the first `a` steps
/// and those of the `b` steps that follow.
pub proof fn lemma_tally_add<E>(run: Run<E>, send: PacketView, a: nat, b: nat)
    ensures
        reads(run, send, a + b) == reads(run, send, a) + reads(drive(run, send, a), send, b),
        writes(run, send, a + b) == writes(run, send, a) + writes(drive(run, send, a), send, b),
    decreases a,
{
    if run.step.action is Done {
        assert(drive(run, send, a) == run);
    } else if a > 0 {
        lemma_tally_add(advance(run, send), send, (a - 1) as nat, b);
    }
}

// While stale input is drained, the bytes that wait are read and dropped one
// by one.
proof fn lemma_drain<E>(run: Run<E>, send: PacketView)
    requires
        run.step.transport.phase == Phase::Discarding,
        run.step.action == LinkAction::<E>::Read,
    ensures
        drive(run, send, run.wire.pending.len()) == (Run {
            step: run.step,
            wire: Wire { pending: Seq::empty(), ..run.wire },
        }),
        reads(run, send, run.wire.pending.len()) == run.wire.pending.len(),
        writes(run, send, run.wire.pending.len()) == 0,
    decreases run.wire.pending.len(),
{
    if run.wire.pending.len() == 0 {
        assert(run.wire.pending =~= Seq::empty());
    } else {
        let next = advance(run, send);
        assert(next.step == run.step);
        lemma_drain(next, send);
    }
}

// The rest of the request is written byte by byte, and then the link is
// flushed.
proof fn lemma_write<E>(run: Run<E>, send: PacketView)
    requires
        send.wf(),
        run.step.transport.phase == Phase::Writing,
        run.step.transport.position < send.wire_len(),
        run.step.action == LinkAction::<E>::Write(
            send.frame()[run.step.transport.position as int],
        ),
    ensures
        drive(run, send, (send.wire_len() - run.step.transport.position) as nat) == (Run {
            step: Step {
                transport: TransportView {
                    phase: Phase::Flushing,
                    position: 0,
                    ..run.step.transport
                },
                recv: run.step.recv,
                action: LinkAction::<E>::Flush,
            },
            wire: run.wire,
        }),
        reads(run, send, (send.wire_len() - run.step.transport.position) as nat) == 0,
        writes(run, send, (send.wire_len() - run.step.transport.position) as nat)
            == send.wire_len() - run.step.transport.position,
    decreases send.wire_len() - run.step.transport.position,
{
    let next = advance(run, send);
    if run.step.transport.position + 1 < send.wire_len() {
        lemma_write(next, send);
    } else {
        assert(drive(next, send, 0) == next);
        assert(reads(next, send, 0) == 0 && writes(next, send, 0) == 0);
    }
}

// One attempt on a link that stays silent: the request goes out, no header
// comes in, and the attempt is given up as stalled.
proof fn lemma_silent_attempt<E>(run: Run<E>, send: PacketView)
    requires
        send.wf(),
        run.step.transport.wf(),
        run.step.transport.phase == Phase::Discarding,
        run.step.action == LinkAction::<E>::Read,
        run.wire.pending.len() == 0,
        run.wire.replies.len() == 0,
    ensures
        drive(run, send, send.wire_len() + 4) == (Run {
            step: TransportView {
                stalls: bumped(run.step.transport.stalls),
                ..run.step.transport
            }.retry::<E>(run.step.recv),
            wire: run.wire,
        }),
        reads(run, send, send.wire_len() + 4) == 3,
        writes(run, send, send.wire_len() + 4) == send.wire_len(),
{
    let before = send.wire_len() + 2;
    lemma_request_goes_out(run, send);
    assert(run.wire.pending =~= Seq::empty());
    let reading = drive(run, send, before);
    let blocked = advance(reading, send);
    let given_up = advance(blocked, send);
    assert(drive(given_up, send, 0) == given_up);
    assert(drive(blocked, send, 1) == given_up);
    assert(drive(reading, send, 2) == given_up);
    lemma_drive_add(run, send, before, 2);
    assert(reads(given_up, send, 0) == 0 && writes(given_up, send, 0) == 0);
    assert(reads(blocked, send, 1) == 1 && writes(blocked, send, 1) == 0);
    assert(reads(reading, send, 2) == 2 && writes(reading, send, 2) == 0);
    lemma_tally_add(run, send, before, 2);
}

// On a link that stays silent every attempt is given up, and after the last
// the exchange ends as unresponsive.
proof fn lemma_silent_attempts<E>(run: Run<E>, send: PacketView)
    requires
        send.wf(),
        run.step.transport.wf(),
        run.step.transport.phase == Phase::Discarding,
        run.step.action == LinkAction::<E>::Read,
        run.wire.pending.len() == 0,
        run.wire.replies.len() == 0,
    ensures
        ({
            let end = drive(
                run,
                send,
                run.step.transport.attempts_left * (send.wire_len() + 4),
            );
            &&& end.step.action == LinkAction::<E>::Done(Err(Error::Unresponsive))
            &&& end.step.transport.phase == Phase::Idle
            &&& end.step.recv == run.step.recv
        }),
        reads(run, send, run.step.transport.attempts_left * (send.wire_len() + 4)) == 3
            * run.step.transport.attempts_left,
        writes(run, send, run.step.transport.attempts_left * (send.wire_len() + 4))
            == run.step.transport.attempts_left * send.wire_len(),
    decreases run.step.transport.attempts_left,
{
    let left = run.step.transport.attempts_left;
    let each = send.wire_len() + 4;
    let len = send.wire_len();
    lemma_silent_attempt(run, send);
    let next = drive(run, send, each);
    assert(left * each == each + (left - 1) * each && left * len == len + (left - 1) * len)
        by (nonlinear_arith)
        requires
            left >= 1,
    ;
    lemma_drive_add(run, send, each, ((left - 1) * each) as nat);
    lemma_tally_add(run, send, each, ((left - 1) * each) as nat);
    if left > 1 {
        lemma_silent_attempts(next, send);
    } else {
        assert(drive(next, send, 0) == next);
        assert(reads(next, send, 0) == 0 && writes(next, send, 0) == 0);
        assert((left - 1) * each == 0 && left * len == len) by (nonlinear_arith)
            requires
                left == 1,
        ;
    }
}

/// On a link that holds some stale input and then stays silent, an exchange
/// ends as unresponsive after the stale input was drained and every attempt
/// has written the request and waited in vain: it takes no more than a
/// number of steps that is known beforehand, and the receive packet stays as
/// it was. Each attempt writes the request once and polls the link three
/// times; the first attempt polls it once more for each byte of stale input.
pub proof fn lemma_silent_link_is_unresponsive<E>(
    transport: TransportView,
    send: PacketView,
    recv: PacketView,
    stale: Seq<u8>,
    retries: u8,
)
    requires
        transport.wf(),
        send.wf(),
    ensures
        ({
            let (started, first) = transport.begin::<E>(retries);
            let start = Run {
                step: Step { transport: started, recv, action: first },
                wire: Wire { pending: stale, replies: Seq::empty() },
            };
            let steps = stale.len() + (retries as nat) * (send.wire_len() + 4);
            let end = drive(start, send, steps);
            &&& end.step.action == LinkAction::<E>::Done(Err(Error::Unresponsive))
            &&& end.step.transport.phase == Phase::Idle
            &&& end.step.recv == recv
            &&& retries > 0 ==> reads(start, send, steps) == stale.len() + 3 * retries
            &&& retries == 0 ==> reads(start, send, steps) == 0
            &&& writes(start, send, steps) == retries * send.wire_len()
        }),
{
    let (started, first) = transport.begin::<E>(retries);
    let start = Run {
        step: Step { transport: started, recv, action: first },
        wire: Wire { pending: stale, replies: Seq::empty() },
    };
    let total = (retries as nat) * (send.wire_len() + 4);
    if retries == 0 {
        assert(drive(start, send, stale.len() + total) == start);
    } else {
        lemma_drain(start, send);
        let drained = drive(start, send, stale.len());
        lemma_silent_attempts(drained, send);
        lemma_drive_add(start, send, stale.len(), total);
        lemma_tally_add(start, send, stale.len(), total);
    }
}

// A packet after the first `count` bytes of `body` were received as the
// registers' part of a frame.
spec fn with_body(recv: PacketView, body: Seq<u8>, count: nat) -> PacketView
    decreases count,
{
    if count == 0 {
        recv
    } else {
        with_body(recv, body, (count - 1) as nat).with_body_byte(count - 1, body[count - 1])
    }
}

// Receiving the bytes of whole registers puts these registers at the front
// of the buffer and leaves the rest of the packet as it was.
proof fn lemma_with_body(recv: PacketView, reply: PacketView, registers: nat)
    requires
        recv.wf(),
        reply.wf(),
        registers <= MAX_PACKET_REGISTERS,
    ensures
        with_body(recv, reply.frame().skip(4), 2 * registers) == (PacketView {
            registers: reply.registers.take(registers as int) + recv.registers.skip(
                registers as int,
            ),
            ..recv
        }),
    decreases registers,
{
    let body = reply.frame().skip(4);
    if registers == 0 {
        assert(reply.registers.take(0) + recv.registers.skip(0) =~= recv.registers);
    } else {
        let k: int = registers - 1;
        lemma_with_body(recv, reply, k as nat);
        let before = with_body(recv, body, (2 * k) as nat);
        let half = with_body(recv, body, (2 * k + 1) as nat);
        let after = with_body(recv, body, 2 * registers);
        assert(half == before.with_body_byte(2 * k, body[2 * k]));
        assert(after == half.with_body_byte(2 * k + 1, body[2 * k + 1]));
        let value = reply.registers[k];
        assert(body[2 * k] == low_byte(value));
        assert(body[2 * k + 1] == high_byte(value));
        let old = before.registers[k];
        lemma_bytes_of_register(value, low_byte(value), high_byte(old));
        assert(after.registers =~= reply.registers.take(registers as int) + recv.registers.skip(
            registers as int,
        ));
    }
}

// The four bytes of a header that marks a success are read one by one.
// Without registers to follow the exchange is complete; else the registers
// are read next.
proof fn lemma_read_header<E>(run: Run<E>, send: PacketView, frame: Seq<u8>)
    requires
        run.step.transport.wf(),
        run.step.transport.phase == Phase::ReadingHeader,
        run.step.transport.position == 0,
        run.step.action == LinkAction::<E>::Read,
        frame.len() >= 4,
        run.wire.pending == frame,
        frame[0] & PACKET_CODE_MASK == 0,
        frame[0] & PACKET_REG_COUNT_MASK <= MAX_PACKET_REGISTERS,
    ensures
        ({
            let end = drive(run, send, 4);
            let received = TransportView { header: frame.take(4), ..run.step.transport };
            &&& end.wire == Wire { pending: frame.skip(4), ..run.wire }
            &&& received.announced() == 0 ==> end.step == Step {
                transport: received.idle(),
                recv: run.step.recv.with_header(frame.take(4)),
                action: LinkAction::<E>::Done(Ok(4)),
            }
            &&& received.announced() != 0 ==> end.step == Step {
                transport: TransportView {
                    phase: Phase::ReadingBody,
                    position: 0,
                    blocked: 0,
                    ..received
                },
                recv: run.step.recv,
                action: LinkAction::<E>::Read,
            }
        }),
{
    let one = advance(run, send);
    assert(one.wire.pending =~= frame.skip(1));
    let two = advance(one, send);
    assert(two.wire.pending =~= frame.skip(2));
    let three = advance(two, send);
    assert(three.wire.pending =~= frame.skip(3));
    let four = advance(three, send);
    assert(four.wire.pending =~= frame.skip(4));
    assert(four.step.transport.header =~= frame.take(4));
    assert(drive(four, send, 0) == four);
    assert(drive(three, send, 1) == four);
    assert(drive(two, send, 2) == four);
    assert(drive(one, send, 3) == four);
    assert(drive(run, send, 4) == four);
}

// The registers' part of a reply is read byte by byte into the receive
// packet; with the last byte the header is stored and the exchange is
// complete.
proof fn lemma_read_body<E>(run: Run<E>, send: PacketView, recv: PacketView, body: Seq<u8>)
    requires
        run.step.transport.wf(),
        run.step.transport.phase == Phase::ReadingBody,
        run.step.action == LinkAction::<E>::Read,
        body.len() == 2 * run.step.transport.announced(),
        run.wire.pending == body.skip(run.step.transport.position as int),
        run.step.recv == with_body(recv, body, run.step.transport.position),
    ensures
        ({
            let end = drive(run, send, (body.len() - run.step.transport.position) as nat);
            &&& end.step.action == LinkAction::<E>::Done(
                Ok((4 + 2 * run.step.transport.announced()) as usize),
            )
            &&& end.step.transport.phase == Phase::Idle
            &&& end.step.recv == with_body(recv, body, body.len()).with_header(
                run.step.transport.header,
            )
        }),
    decreases body.len() - run.step.transport.position,
{
    let position = run.step.transport.position;
    let next = advance(run, send);
    assert(run.wire.pending[0] == body[position as int]);
    let filled = run.step.recv.with_body_byte(position as int, body[position as int]);
    assert(filled == with_body(recv, body, position + 1));
    if position + 1 < body.len() {
        assert(next.wire.pending =~= body.skip(position + 1 as int));
        lemma_read_body(next, send, recv, body);
    } else {
        assert(drive(next, send, 0) == next);
    }
}

// An attempt up to the point where the reply is awaited: the stale input is
// drained, the request is written and the link is flushed, which brings the
// coprocessor's next reply if there is one.
proof fn lemma_request_goes_out<E>(run: Run<E>, send: PacketView)
    requires
        send.wf(),
        run.step.transport.wf(),
        run.step.transport.phase == Phase::Discarding,
        run.step.action == LinkAction::<E>::Read,
    ensures
        drive(run, send, run.wire.pending.len() + send.wire_len() + 2) == (Run {
            step: Step {
                transport: TransportView { phase: Phase::ReadingHeader, ..run.step.transport },
                recv: run.step.recv,
                action: LinkAction::<E>::Read,
            },
            wire: if run.wire.replies.len() > 0 {
                Wire { pending: run.wire.replies[0], replies: run.wire.replies.skip(1) }
            } else {
                Wire { pending: Seq::empty(), ..run.wire }
            },
        }),
        reads(run, send, run.wire.pending.len() + send.wire_len() + 2) == run.wire.pending.len()
            + 1,
        writes(run, send, run.wire.pending.len() + send.wire_len() + 2) == send.wire_len(),
{
    let stale = run.wire.pending.len();
    let len = send.wire_len();
    lemma_drain(run, send);
    let drained = drive(run, send, stale);
    let writing = advance(drained, send);
    lemma_write(writing, send);
    let flushing = drive(writing, send, len);
    let reading = advance(flushing, send);
    if run.wire.replies.len() > 0 {
        assert(reading.wire.pending =~= run.wire.replies[0]);
    }
    assert(drive(reading, send, 0) == reading);
    assert(drive(flushing, send, 1) == reading);
    lemma_drive_add(writing, send, len, 1);
    assert(drive(drained, send, len + 2) == reading);
    lemma_drive_add(run, send, stale, len + 2);
    assert(reads(reading, send, 0) == 0 && writes(reading, send, 0) == 0);
    assert(reads(flushing, send, 1) == 0 && writes(flushing, send, 1) == 0);
    lemma_tally_add(writing, send, len, 1);
    assert(reads(drained, send, len + 2) == 1 && writes(drained, send, len + 2) == len);
    lemma_tally_add(run, send, stale, len + 2);
}

// An attempt that finds the frame of a packet marked as a success as the
// coprocessor's next reply completes the exchange with that packet received.
proof fn lemma_attempt_receives<E>(run: Run<E>, send: PacketView, reply: PacketView)
    requires
        send.wf(),
        run.step.transport.wf(),
        run.step.recv.wf(),
        run.step.transport.phase == Phase::Discarding,
        run.step.action == LinkAction::<E>::Read,
        reply.wf(),
        reply.code() == PACKET_CODE_SUCCESS,
        run.wire.replies.len() > 0,
        run.wire.replies[0] == reply.wire(),
    ensures
        ({
            let end = drive(
                run,
                send,
                run.wire.pending.len() + send.wire_len() + 2 + reply.wire_len(),
            );
            &&& end.step.action == LinkAction::<E>::Done(Ok(reply.wire_len() as usize))
            &&& end.step.transport.phase == Phase::Idle
            &&& end.step.recv == run.step.recv.with_reply(reply)
        }),
{
    let before = run.wire.pending.len() + send.wire_len() + 2;
    lemma_request_goes_out(run, send);
    let reading = drive(run, send, before);
    lemma_reply_is_read(reading, send, reply);
    lemma_drive_add(run, send, before, reply.wire_len());
}

/// On a link where the coprocessor answers the first request with the frame
/// of `reply`, a packet that is marked as a success, the exchange completes
/// in its first attempt, whatever stale input the link held before. It
/// reports as many bytes as the reply's frame has and leaves the reply in the
/// receive packet.
pub proof fn lemma_reply_is_received<E>(
    transport: TransportView,
    send: PacketView,
    recv: PacketView,
    stale: Seq<u8>,
    reply: PacketView,
    later: Seq<Seq<u8>>,
    retries: u8,
)
    requires
        transport.wf(),
        send.wf(),
        recv.wf(),
        reply.wf(),
        reply.code() == PACKET_CODE_SUCCESS,
        retries > 0,
    ensures
        ({
            let (started, first) = transport.begin::<E>(retries);
            let start = Run {
                step: Step { transport: started, recv, action: first },
                wire: Wire { pending: stale, replies: seq![reply.wire()] + later },
            };
            let end = drive(start, send, stale.len() + send.wire_len() + 2 + reply.wire_len());
            &&& end.step.action == LinkAction::<E>::Done(Ok(reply.wire_len() as usize))
            &&& end.step.transport.phase == Phase::Idle
            &&& end.step.recv == recv.with_reply(reply)
        }),
{
    let (started, first) = transport.begin::<E>(retries);
    let start = Run {
        step: Step { transport: started, recv, action: first },
        wire: Wire { pending: stale, replies: seq![reply.wire()] + later },
    };
    lemma_attempt_receives(start, send, reply);
}

/// A reply that the transport turns down: it breaks off before its header is
/// complete, or its header carries an error or corrupt code or announces more
/// registers than a packet holds.
pub open spec fn turned_down(reply: Seq<u8>) -> bool {
    ||| reply.len() < 4
    ||| reply[0] & PACKET_CODE_MASK != 0
    ||| reply[0] & PACKET_REG_COUNT_MASK > MAX_PACKET_REGISTERS
}

// A header that breaks off is waited for twice in vain, and the attempt is
// given up.
proof fn lemma_header_breaks_off<E>(run: Run<E>, send: PacketView)
    requires
        run.step.transport.wf(),
        run.step.transport.phase == Phase::ReadingHeader,
        run.step.transport.attempts_left >= 2,
        run.step.transport.blocked == 0,
        run.step.action == LinkAction::<E>::Read,
        run.step.transport.position + run.wire.pending.len() < 4,
    ensures
        ({
            let end = drive(run, send, run.wire.pending.len() + 2);
            &&& end.step.transport.wf()
            &&& end.step.transport.phase == Phase::Discarding
            &&& end.step.transport.attempts_left == run.step.transport.attempts_left - 1
            &&& end.step.action == LinkAction::<E>::Read
            &&& end.step.recv == run.step.recv
            &&& end.wire == Wire { pending: Seq::empty(), ..run.wire }
        }),
    decreases run.wire.pending.len(),
{
    if run.wire.pending.len() == 0 {
        assert(run.wire.pending =~= Seq::empty());
        let blocked = advance(run, send);
        let given_up = advance(blocked, send);
        assert(drive(given_up, send, 0) == given_up);
        assert(drive(blocked, send, 1) == given_up);
    } else {
        let next = advance(run, send);
        lemma_header_breaks_off(next, send);
    }
}

// A complete header that is turned down ends the attempt; what follows it on
// the link stays there for the next attempt to drain.
proof fn lemma_header_turned_down<E>(run: Run<E>, send: PacketView)
    requires
        run.step.transport.wf(),
        run.step.transport.phase == Phase::ReadingHeader,
        run.step.transport.attempts_left >= 2,
        run.step.transport.position == 0,
        run.step.action == LinkAction::<E>::Read,
        run.wire.pending.len() >= 4,
        turned_down(run.wire.pending),
    ensures
        ({
            let end = drive(run, send, 4);
            &&& end.step.transport.wf()
            &&& end.step.transport.phase == Phase::Discarding
            &&& end.step.transport.attempts_left == run.step.transport.attempts_left - 1
            &&& end.step.action == LinkAction::<E>::Read
            &&& end.step.recv == run.step.recv
            &&& end.wire == Wire { pending: run.wire.pending.skip(4), ..run.wire }
        }),
{
    let frame = run.wire.pending;
    let one = advance(run, send);
    assert(one.wire.pending =~= frame.skip(1));
    let two = advance(one, send);
    assert(two.wire.pending =~= frame.skip(2));
    let three = advance(two, send);
    assert(three.wire.pending =~= frame.skip(3));
    let four = advance(three, send);
    assert(four.wire.pending =~= frame.skip(4));
    assert(drive(four, send, 0) == four);
    assert(drive(three, send, 1) == four);
    assert(drive(two, send, 2) == four);
    assert(drive(one, send, 3) == four);
    assert(drive(run, send, 4) == four);
}

// An attempt whose reply is turned down is followed by the next attempt.
// The receive packet stays as it was.
proof fn lemma_turned_down_attempt<E>(run: Run<E>, send: PacketView) -> (steps: nat)
    requires
        send.wf(),
        run.step.transport.wf(),
        run.step.transport.phase == Phase::Discarding,
        run.step.transport.attempts_left >= 2,
        run.step.action == LinkAction::<E>::Read,
        run.wire.replies.len() > 0,
        turned_down(run.wire.replies[0]),
    ensures
        ({
            let end = drive(run, send, steps);
            &&& end.step.transport.wf()
            &&& end.step.transport.phase == Phase::Discarding
            &&& end.step.transport.attempts_left == run.step.transport.attempts_left - 1
            &&& end.step.action == LinkAction::<E>::Read
            &&& end.step.recv == run.step.recv
            &&& end.wire.replies == run.wire.replies.skip(1)
        }),
{
    let before = run.wire.pending.len() + send.wire_len() + 2;
    let reply = run.wire.replies[0];
    lemma_request_goes_out(run, send);
    let reading = drive(run, send, before);
    if reply.len() < 4 {
        lemma_header_breaks_off(reading, send);
        lemma_drive_add(run, send, before, reply.len() + 2);
        before + reply.len() + 2
    } else {
        lemma_header_turned_down(reading, send);
        lemma_drive_add(run, send, before, 4);
        before + 4
    }
}

// After any number of attempts whose replies are turned down, an attempt
// that finds a good reply completes the exchange.
proof fn lemma_attempts_recover<E>(
    run: Run<E>,
    send: PacketView,
    bad: nat,
    reply: PacketView,
) -> (steps: nat)
    requires
        send.wf(),
        run.step.transport.wf(),
        run.step.recv.wf(),
        run.step.transport.phase == Phase::Discarding,
        run.step.action == LinkAction::<E>::Read,
        run.step.transport.attempts_left > bad,
        run.wire.replies.len() > bad,
        forall|i: int| 0 <= i < bad ==> turned_down(#[trigger] run.wire.replies[i]),
        run.wire.replies[bad as int] == reply.wire(),
        reply.wf(),
        reply.code() == PACKET_CODE_SUCCESS,
    ensures
        ({
            let end = drive(run, send, steps);
            &&& end.step.action == LinkAction::<E>::Done(Ok(reply.wire_len() as usize))
            &&& end.step.transport.phase == Phase::Idle
            &&& end.step.recv == run.step.recv.with_reply(reply)
        }),
    decreases bad,
{
    if bad == 0 {
        lemma_attempt_receives(run, send, reply);
        run.wire.pending.len() + send.wire_len() + 2 + reply.wire_len()
    } else {
        let first = lemma_turned_down_attempt(run, send);
        let next = drive(run, send, first);
        assert forall|i: int| 0 <= i < bad - 1 implies turned_down(
            #[trigger] next.wire.replies[i],
        ) by {
            assert(next.wire.replies[i] == run.wire.replies[i + 1]);
        }
        let rest = lemma_attempts_recover(next, send, (bad - 1) as nat, reply);
        lemma_drive_add(run, send, first, rest);
        first + rest
    }
}

/// An exchange recovers from replies that the transport turns down: where
/// the coprocessor answers with any number of such replies and then with the
/// frame of `reply`, a packet that is marked as a success, and the exchange
/// has more attempts than there are bad replies, it completes after `steps`
/// steps with `reply` received.
pub proof fn lemma_recovers_after_turned_down_replies<E>(
    transport: TransportView,
    send: PacketView,
    recv: PacketView,
    stale: Seq<u8>,
    bad: Seq<Seq<u8>>,
    reply: PacketView,
    later: Seq<Seq<u8>>,
    retries: u8,
) -> (steps: nat)
    requires
        transport.wf(),
        send.wf(),
        recv.wf(),
        reply.wf(),
        reply.code() == PACKET_CODE_SUCCESS,
        forall|i: int| 0 <= i < bad.len() ==> turned_down(#[trigger] bad[i]),
        retries > bad.len(),
    ensures
        ({
            let (started, first) = transport.begin::<E>(retries);
            let start = Run {
                step: Step { transport: started, recv, action: first },
                wire: Wire { pending: stale, replies: bad + seq![reply.wire()] + later },
            };
            let end = drive(start, send, steps);
            &&& end.step.action == LinkAction::<E>::Done(Ok(reply.wire_len() as usize))
            &&& end.step.transport.phase == Phase::Idle
            &&& end.step.recv == recv.with_reply(reply)
        }),
{
    let (started, first) = transport.begin::<E>(retries);
    let start = Run {
        step: Step { transport: started, recv, action: first },
        wire: Wire { pending: stale, replies: bad + seq![reply.wire()] + later },
    };
    lemma_attempts_recover(start, send, bad.len(), reply)
}

// A reply that waits on the link in full is read into the receive packet.
proof fn lemma_reply_is_read<E>(run: Run<E>, send: PacketView, reply: PacketView)
    requires
        run.step.transport.wf(),
        run.step.recv.wf(),
        run.step.transport.phase == Phase::ReadingHeader,
        run.step.transport.position == 0,
        run.step.action == LinkAction::<E>::Read,
        reply.wf(),
        reply.code() == PACKET_CODE_SUCCESS,
        run.wire.pending == reply.wire(),
    ensures
        ({
            let end = drive(run, send, reply.wire_len());
            &&& end.step.action == LinkAction::<E>::Done(Ok(reply.wire_len() as usize))
            &&& end.step.transport.phase == Phase::Idle
            &&& end.step.recv == run.step.recv.with_reply(reply)
        }),
{
    let recv = run.step.recv;
    let frame = reply.wire();
    let count = reply.register_count();
    let header = frame.take(4);
    assert(header[0] == reply.count_code);
    assert(recv.with_header(header).count_code == reply.count_code);
    lemma_read_header(run, send, frame);
    let four = drive(run, send, 4);
    lemma_with_body(recv, reply, count);
    let body = frame.skip(4);
    lemma_with_body_prefix(recv, reply.frame().skip(4), body, 2 * count);
    if count == 0 {
        assert(recv.with_header(header) == recv.with_reply(reply));
    } else {
        assert(four.wire.pending =~= body.skip(0));
        lemma_read_body(four, send, recv, body);
        let end = drive(four, send, 2 * count);
        assert(with_body(recv, body, 2 * count).with_header(header) == recv.with_reply(reply));
        lemma_drive_add(run, send, 4, 2 * count);
    }
}

// Only the bytes that were received matter for what the packet holds.
proof fn lemma_with_body_prefix(recv: PacketView, a: Seq<u8>, b: Seq<u8>, count: nat)
    requires
        count <= a.len(),
        count <= b.len(),
        forall|i: int| 0 <= i < count ==> a[i] == b[i],
    ensures
        with_body(recv, a, count) == with_body(recv, b, count),
    decreases count,
{
    if count > 0 {
        lemma_with_body_prefix(recv, a, b, (count - 1) as nat);
    }
}

} // verus!
