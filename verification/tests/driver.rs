use px4io_driver::driver::{classify_reply, modify_value, EXCHANGE_RETRIES};
use px4io_driver::interface::{
    DeviceInterface, IoPacket, LinkAction, LinkEvent, SerialInterface,
};
use px4io_driver::protocol::{
    PACKET_CODE_CORRUPT, PACKET_CODE_ERROR, PACKET_CODE_READ, PACKET_CODE_SUCCESS,
    PACKET_CODE_WRITE,
};
use px4io_driver::registers::{PAGE_CONFIG, PAGE_SETUP, REG_CONFIG_PROTOCOL_VERSION};
use px4io_driver::{Error, IoMcuDriver};

fn frame_of(packet: &IoPacket) -> Vec<u8> {
    (0..packet.wire_len()).map(|i| packet.wire_byte(i)).collect()
}

/// What a scripted interface does in one exchange.
enum Script {
    /// Puts the frame into the receive packet and reports its length.
    Reply(Vec<u8>),
    /// Puts the frame into the receive packet and reports no bytes.
    ReplyUncounted(Vec<u8>),
    /// Reports this error.
    Fail(Error<u8>),
}

/// An interface that follows a script and keeps what it was asked to send.
struct Scripted {
    script: Vec<Script>,
    requests: Vec<Vec<u8>>,
    retries: Vec<u8>,
    cleared: Vec<bool>,
    setup_fails: bool,
}

impl Scripted {
    fn new(script: Vec<Script>) -> Self {
        Scripted {
            script,
            requests: Vec::new(),
            retries: Vec::new(),
            cleared: Vec::new(),
            setup_fails: false,
        }
    }
}

fn load(recv: &mut IoPacket, frame: &[u8]) {
    for (index, byte) in frame[4..].iter().enumerate() {
        recv.store_body_byte(index, *byte);
    }
    recv.store_header(&[frame[0], frame[1], frame[2], frame[3]]);
}

impl DeviceInterface for Scripted {
    type InterfaceError = Error<u8>;

    fn setup(&mut self) -> Result<(), Error<u8>> {
        if self.setup_fails {
            Err(Error::Comm(1))
        } else {
            Ok(())
        }
    }

    fn exchange_packets(
        &mut self,
        send: &IoPacket,
        recv: &mut IoPacket,
        retries: u8,
    ) -> Result<usize, Error<u8>> {
        self.requests.push(frame_of(send));
        self.retries.push(retries);
        let cleared = recv.count_code() == 0
            && recv.crc() == 0
            && recv.page() == 0
            && recv.offset() == 0
            && (0..32).all(|i| recv.register(i) == 0x55aa);
        self.cleared.push(cleared);
        match self.script.remove(0) {
            Script::Reply(frame) => {
                load(recv, &frame);
                Ok(frame.len())
            }
            Script::ReplyUncounted(frame) => {
                load(recv, &frame);
                Ok(0)
            }
            Script::Fail(error) => Err(error),
        }
    }

    fn discard_input(&mut self) {}
}

fn reply(code: u8, page: u8, offset: u8, values: &[u16]) -> Vec<u8> {
    let mut packet = IoPacket::default();
    packet.set_values(code, page, offset, values);
    frame_of(&packet)
}

#[test]
fn new_driver_has_zeroed_packets() {
    let driver = IoMcuDriver::new_with_interface(Scripted::new(vec![]));
    assert_eq!(frame_of(driver.send_packet()), vec![0, 0, 0, 0]);
    assert_eq!(frame_of(driver.recv_packet()), vec![0, 0, 0, 0]);
    assert_eq!(driver.recv_packet().register(0), 0);
}

#[test]
fn setup_passes_on_what_the_interface_says() {
    let mut driver = IoMcuDriver::new_with_interface(Scripted::new(vec![]));
    assert_eq!(driver.setup(), Ok(()));
    let mut failing = Scripted::new(vec![]);
    failing.setup_fails = true;
    let mut driver = IoMcuDriver::new_with_interface(failing);
    assert_eq!(driver.setup(), Err(Error::Comm(1)));
}

#[test]
fn get_registers_delivers_the_replied_values() {
    let script = vec![Script::Reply(reply(PACKET_CODE_SUCCESS, 3, 7, &[0x1234, 0xffff, 0]))];
    let mut driver = IoMcuDriver::new_with_interface(Scripted::new(script));
    let mut values = [0u16; 3];
    assert_eq!(driver.get_registers(3, 7, &mut values), Ok(()));
    assert_eq!(values, [0x1234, 0xffff, 0]);
    let seen = driver.interface();
    assert_eq!(seen.requests.len(), 1);
    assert_eq!(seen.requests[0][0], 3 | PACKET_CODE_READ);
    assert_eq!(seen.requests[0][2], 3);
    assert_eq!(seen.requests[0][3], 7);
    assert_eq!(seen.requests[0].len(), 10);
    assert_eq!(seen.retries, vec![10]);
    assert_eq!(EXCHANGE_RETRIES, 10);
    assert_eq!(seen.cleared, vec![true]);
    assert!(driver.send_packet().is_crc_valid());
}

#[test]
fn read_request_carries_what_the_buffer_held() {
    let script = vec![Script::Reply(reply(PACKET_CODE_SUCCESS, 0, 0, &[1, 2]))];
    let mut driver = IoMcuDriver::new_with_interface(Scripted::new(script));
    let mut values = [0xaaaa, 0xbbbb];
    assert_eq!(driver.get_registers(9, 8, &mut values), Ok(()));
    assert_eq!(
        driver.interface().requests[0],
        reply(PACKET_CODE_READ, 9, 8, &[0xaaaa, 0xbbbb])
    );
    assert_eq!(values, [1, 2]);
}

#[test]
fn end_to_end_protocol_version_request() {
    let script = vec![Script::Reply(reply(PACKET_CODE_SUCCESS, 0, 0, &[4, 1, 2, 8, 9]))];
    let mut driver = IoMcuDriver::new_with_interface(Scripted::new(script));
    let mut values = [0u16; 5];
    let outcome = driver.get_registers(PAGE_CONFIG, REG_CONFIG_PROTOCOL_VERSION, &mut values);
    assert_eq!(outcome, Ok(()));
    assert_eq!(values, [4, 1, 2, 8, 9]);
    assert_eq!(
        driver.interface().requests[0],
        vec![0x05, 0x78, 0, 0, 0, 0, 0, 0, 0, 0, 0, 0, 0, 0]
    );
}

#[test]
fn get_registers_of_the_longest_and_of_no_length() {
    let all: Vec<u16> = (0..32).map(|i| 1000 + i).collect();
    let script = vec![
        Script::Reply(reply(PACKET_CODE_SUCCESS, 0, 0, &all)),
        Script::Reply(reply(PACKET_CODE_SUCCESS, 0, 0, &[])),
    ];
    let mut driver = IoMcuDriver::new_with_interface(Scripted::new(script));
    let mut values = [0u16; 32];
    assert_eq!(driver.get_registers(0, 0, &mut values), Ok(()));
    assert_eq!(values.to_vec(), all);
    let mut none: [u16; 0] = [];
    assert_eq!(driver.get_registers(0, 0, &mut none), Ok(()));
    assert_eq!(driver.interface().requests[1].len(), 4);
}

#[test]
fn shorter_reply_leaves_cleared_registers_in_the_rest() {
    let script = vec![Script::Reply(reply(PACKET_CODE_SUCCESS, 0, 0, &[7]))];
    let mut driver = IoMcuDriver::new_with_interface(Scripted::new(script));
    let mut values = [0u16; 3];
    assert_eq!(driver.get_registers(0, 0, &mut values), Ok(()));
    assert_eq!(values, [7, 0x55aa, 0x55aa]);
}

#[test]
fn get_one_register_delivers_the_first_value() {
    let script = vec![Script::Reply(reply(PACKET_CODE_SUCCESS, 1, 2, &[0x4321]))];
    let mut driver = IoMcuDriver::new_with_interface(Scripted::new(script));
    assert_eq!(driver.get_one_register(1, 2), Ok(0x4321));
    assert_eq!(driver.interface().requests[0], reply(PACKET_CODE_READ, 1, 2, &[0]));
}

#[test]
fn set_registers_sends_the_values_and_takes_an_acknowledgement() {
    let script = vec![Script::Reply(reply(PACKET_CODE_SUCCESS, 50, 1, &[]))];
    let mut driver = IoMcuDriver::new_with_interface(Scripted::new(script));
    assert_eq!(driver.set_registers(PAGE_SETUP, 1, &[0x00ff, 0x0f0f, 0x1000]), Ok(()));
    let seen = driver.interface();
    assert_eq!(seen.requests[0], reply(PACKET_CODE_WRITE, 50, 1, &[0x00ff, 0x0f0f, 0x1000]));
    assert_eq!(seen.requests[0][0], 0x43);
    assert_eq!(&seen.requests[0][4..], &[0xff, 0x00, 0x0f, 0x0f, 0x00, 0x10]);
    assert_eq!(seen.retries, vec![10]);
    assert_eq!(seen.cleared, vec![true]);
}

#[test]
fn set_one_register_sends_one_value() {
    let script = vec![Script::Reply(reply(PACKET_CODE_SUCCESS, 0, 0, &[]))];
    let mut driver = IoMcuDriver::new_with_interface(Scripted::new(script));
    assert_eq!(driver.set_one_register(50, 3, 0x0100), Ok(()));
    assert_eq!(driver.interface().requests[0], vec![0x41, 0x60, 0x32, 0x03, 0x00, 0x01]);
}

#[test]
fn modify_register_writes_back_the_modified_value() {
    let script = vec![
        Script::Reply(reply(PACKET_CODE_SUCCESS, 50, 3, &[0x01ff])),
        Script::Reply(reply(PACKET_CODE_SUCCESS, 50, 3, &[])),
    ];
    let mut driver = IoMcuDriver::new_with_interface(Scripted::new(script));
    assert_eq!(driver.modify_register(50, 3, 0x00ff, 0x0100), Ok(()));
    let seen = driver.interface();
    assert_eq!(seen.requests.len(), 2);
    assert_eq!(seen.requests[0], reply(PACKET_CODE_READ, 50, 3, &[0]));
    assert_eq!(seen.requests[1], reply(PACKET_CODE_WRITE, 50, 3, &[0x0100]));
    assert_eq!(seen.requests[1], vec![0x41, 0x60, 0x32, 0x03, 0x00, 0x01]);
}

#[test]
fn modify_register_sets_bits_that_it_is_also_told_to_clear() {
    let script = vec![
        Script::Reply(reply(PACKET_CODE_SUCCESS, 0, 0, &[0xf0f0])),
        Script::Reply(reply(PACKET_CODE_SUCCESS, 0, 0, &[])),
    ];
    let mut driver = IoMcuDriver::new_with_interface(Scripted::new(script));
    assert_eq!(driver.modify_register(0, 0, 0xff00, 0x0300), Ok(()));
    assert_eq!(driver.interface().requests[1], reply(PACKET_CODE_WRITE, 0, 0, &[0x03f0]));
}

#[test]
fn modify_register_writes_nothing_where_the_read_fails() {
    let script = vec![Script::Fail(Error::Unresponsive)];
    let mut driver = IoMcuDriver::new_with_interface(Scripted::new(script));
    assert_eq!(driver.modify_register(50, 3, 0x00ff, 0x0100), Err(Error::ErrorResponse));
    assert_eq!(driver.interface().requests.len(), 1);
}

#[test]
fn modify_value_clears_then_sets() {
    assert_eq!(modify_value(0x01ff, 0x00ff, 0x0100), 0x0100);
    assert_eq!(modify_value(0xffff, 0x0000, 0x0000), 0xffff);
    assert_eq!(modify_value(0xffff, 0xffff, 0x0000), 0x0000);
    assert_eq!(modify_value(0x0000, 0x0000, 0xa5a5), 0xa5a5);
    assert_eq!(modify_value(0xf0f0, 0xff00, 0x0300), 0x03f0);
}

fn interface_error(kind: usize) -> Error<u8> {
    match kind {
        0 => Error::Comm(9),
        1 => Error::ErrorResponse,
        2 => Error::Stalled,
        3 => Error::GenericOverload,
        _ => Error::Unresponsive,
    }
}

fn failing(kind: usize) -> IoMcuDriver<Scripted> {
    IoMcuDriver::new_with_interface(Scripted::new(vec![Script::Fail(interface_error(kind))]))
}

#[test]
fn every_interface_error_becomes_an_error_response() {
    for kind in 0..5 {
        let mut driver = failing(kind);
        let mut values = [0x1111u16, 0x2222];
        assert_eq!(driver.get_registers(0, 0, &mut values), Err(Error::ErrorResponse));
        // Nothing was delivered.
        assert_eq!(values, [0x1111, 0x2222]);
        assert_eq!(failing(kind).set_registers(0, 0, &[1]), Err(Error::ErrorResponse));
        assert_eq!(failing(kind).get_one_register(0, 0), Err(Error::ErrorResponse));
        assert_eq!(failing(kind).set_one_register(0, 0, 1), Err(Error::ErrorResponse));
    }
}

#[test]
fn reply_with_wrong_checksum_is_an_error_response() {
    let mut frame = reply(PACKET_CODE_SUCCESS, 0, 0, &[4, 1, 2, 8, 9]);
    frame[6] ^= 0x10;
    let mut driver = IoMcuDriver::new_with_interface(Scripted::new(vec![Script::Reply(frame)]));
    let mut values = [0u16; 5];
    assert_eq!(driver.get_registers(0, 0, &mut values), Err(Error::ErrorResponse));
    assert_eq!(values, [0u16; 5]);
}

#[test]
fn reply_marked_as_error_or_corrupt_is_an_error_response() {
    for code in [PACKET_CODE_ERROR, PACKET_CODE_CORRUPT] {
        for values in [vec![], vec![1u16, 2]] {
            let frame = reply(code, 0, 0, &values);
            let mut driver =
                IoMcuDriver::new_with_interface(Scripted::new(vec![Script::Reply(frame)]));
            assert_eq!(driver.set_registers(0, 0, &[5]), Err(Error::ErrorResponse));
        }
    }
}

#[test]
fn reply_with_both_code_bits_is_neither_corrupt_nor_error() {
    // The code 0xc0 is neither the one for a corrupt request nor the one
    // for an error: with a valid checksum the driver accepts the reply.
    let code = PACKET_CODE_ERROR | PACKET_CODE_CORRUPT;
    let script = vec![
        Script::Reply(reply(code, 0, 0, &[])),
        Script::Reply(reply(code, 2, 3, &[0x0bad, 0xcafe])),
    ];
    let mut driver = IoMcuDriver::new_with_interface(Scripted::new(script));
    assert_eq!(driver.set_registers(0, 0, &[5]), Ok(()));
    let mut values = [0u16; 2];
    assert_eq!(driver.get_registers(2, 3, &mut values), Ok(()));
    assert_eq!(values, [0x0bad, 0xcafe]);
    assert_eq!(driver.recv_packet().packet_code(), 0xc0);
}

#[test]
fn reply_without_bytes_is_an_error_response() {
    let frame = reply(PACKET_CODE_SUCCESS, 0, 0, &[1]);
    let script = vec![Script::ReplyUncounted(frame)];
    let mut driver = IoMcuDriver::new_with_interface(Scripted::new(script));
    assert_eq!(driver.get_one_register(0, 0), Err(Error::ErrorResponse));
}

#[test]
fn classify_reply_accepts_only_a_valid_reply_without_error_code() {
    let mut good = IoPacket::default();
    good.set_values(PACKET_CODE_SUCCESS, 1, 2, &[3]);
    let accepted: Result<(), Error<u8>> = classify_reply(&Ok::<usize, u8>(6), &good);
    assert_eq!(accepted, Ok(()));
    let uncounted: Result<(), Error<u8>> = classify_reply(&Ok::<usize, u8>(0), &good);
    assert_eq!(uncounted, Err(Error::ErrorResponse));
    let failed: Result<(), Error<u8>> = classify_reply(&Err::<usize, u8>(1), &good);
    assert_eq!(failed, Err(Error::ErrorResponse));
    for code in [PACKET_CODE_ERROR, PACKET_CODE_CORRUPT] {
        let mut marked = IoPacket::default();
        marked.set_values(code, 1, 2, &[3]);
        let rejected: Result<(), Error<u8>> = classify_reply(&Ok::<usize, u8>(6), &marked);
        assert_eq!(rejected, Err(Error::ErrorResponse));
    }
    let mut both = IoPacket::default();
    both.set_values(PACKET_CODE_ERROR | PACKET_CODE_CORRUPT, 1, 2, &[3]);
    let taken: Result<(), Error<u8>> = classify_reply(&Ok::<usize, u8>(6), &both);
    assert_eq!(taken, Ok(()));
    let mut broken = good;
    broken.store_body_byte(0, 0x77);
    let invalid: Result<(), Error<u8>> = classify_reply(&Ok::<usize, u8>(6), &broken);
    assert_eq!(invalid, Err(Error::ErrorResponse));
}

/// A coprocessor behind a byte link: it holds one page of registers and
/// answers the request that was flushed out to it.
struct Coprocessor {
    registers: Vec<u16>,
    pending: Vec<u8>,
    request: Vec<u8>,
    /// Requests to stay silent on before it starts answering.
    deaf_for: usize,
    /// Requests to answer with an error header before it starts answering.
    rejects: usize,
    writes_seen: Vec<(u8, u8, Vec<u16>)>,
    requests_seen: usize,
}

impl Coprocessor {
    fn new(registers: Vec<u16>) -> Self {
        Coprocessor {
            registers,
            pending: Vec::new(),
            request: Vec::new(),
            deaf_for: 0,
            rejects: 0,
            writes_seen: Vec::new(),
            requests_seen: 0,
        }
    }

    fn serve(&mut self) {
        let request = std::mem::take(&mut self.request);
        self.requests_seen += 1;
        if self.deaf_for > 0 {
            self.deaf_for -= 1;
            return;
        }
        if self.rejects > 0 {
            self.rejects -= 1;
            self.pending.extend([PACKET_CODE_CORRUPT, 0x5a, 0xa5, 0xff, 0x12, 0x34]);
            return;
        }
        let count = (request[0] & 0x3f) as usize;
        assert_eq!(request.len(), 4 + 2 * count);
        assert_eq!(IoPacket::crc8_anon(&request, count), request[1]);
        let (page, offset) = (request[2], request[3]);
        let mut answer = IoPacket::default();
        if request[0] & 0xc0 == PACKET_CODE_WRITE {
            let values: Vec<u16> = (0..count)
                .map(|i| request[4 + 2 * i] as u16 | (request[5 + 2 * i] as u16) << 8)
                .collect();
            for (i, value) in values.iter().enumerate() {
                self.registers[offset as usize + i] = *value;
            }
            self.writes_seen.push((page, offset, values));
            answer.set_values(PACKET_CODE_SUCCESS, page, offset, &[]);
        } else {
            let start = offset as usize;
            answer.set_values(PACKET_CODE_SUCCESS, page, offset, &self.registers[start..start + count]);
        }
        self.pending.extend(frame_of(&answer));
    }

    fn answer(&mut self, action: &LinkAction<u8>) -> LinkEvent<u8> {
        match action {
            LinkAction::Read => {
                if self.pending.is_empty() {
                    LinkEvent::WouldBlock
                } else {
                    LinkEvent::Byte(self.pending.remove(0))
                }
            }
            LinkAction::Write(byte) => {
                self.request.push(*byte);
                LinkEvent::Sent
            }
            LinkAction::Flush => {
                self.serve();
                LinkEvent::Sent
            }
            LinkAction::Done(_) => unreachable!(),
        }
    }
}

/// The serial transport on a link to a simulated coprocessor.
struct OverSerial {
    transport: SerialInterface,
    coprocessor: Coprocessor,
}

impl DeviceInterface for OverSerial {
    type InterfaceError = Error<u8>;

    fn setup(&mut self) -> Result<(), Error<u8>> {
        Ok(())
    }

    fn exchange_packets(
        &mut self,
        send: &IoPacket,
        recv: &mut IoPacket,
        retries: u8,
    ) -> Result<usize, Error<u8>> {
        let mut action = self.transport.begin(retries);
        loop {
            if let LinkAction::Done(outcome) = action {
                return outcome;
            }
            let event = self.coprocessor.answer(&action);
            action = self.transport.step(send, recv, event);
        }
    }

    fn discard_input(&mut self) {
        loop {
            let event = self.coprocessor.answer(&LinkAction::Read);
            if SerialInterface::input_drained(&event) {
                break;
            }
        }
    }
}

fn over_serial(registers: Vec<u16>) -> IoMcuDriver<OverSerial> {
    IoMcuDriver::new_with_interface(OverSerial {
        transport: SerialInterface::new(),
        coprocessor: Coprocessor::new(registers),
    })
}

#[test]
fn registers_are_read_over_the_serial_transport() {
    let mut driver = over_serial(vec![4, 1, 2, 8, 9, 0, 0, 0]);
    let mut values = [0u16; 5];
    assert_eq!(driver.get_registers(PAGE_CONFIG, 0, &mut values), Ok(()));
    assert_eq!(values, [4, 1, 2, 8, 9]);
    assert_eq!(driver.get_one_register(PAGE_CONFIG, 3), Ok(8));
}

#[test]
fn registers_are_written_over_the_serial_transport() {
    let mut driver = over_serial(vec![0; 8]);
    assert_eq!(driver.set_registers(2, 1, &[0x1111, 0x2222]), Ok(()));
    assert_eq!(driver.set_one_register(2, 5, 0xabcd), Ok(()));
    let seen = &driver.interface().coprocessor;
    assert_eq!(seen.registers, vec![0, 0x1111, 0x2222, 0, 0, 0xabcd, 0, 0]);
    let mut values = [0u16; 8];
    assert_eq!(driver.get_registers(2, 0, &mut values), Ok(()));
    assert_eq!(values, [0, 0x1111, 0x2222, 0, 0, 0xabcd, 0, 0]);
}

#[test]
fn register_is_modified_over_the_serial_transport() {
    let mut driver = over_serial(vec![0, 0, 0, 0x01ff]);
    assert_eq!(driver.modify_register(50, 3, 0x00ff, 0x0100), Ok(()));
    let seen = &driver.interface().coprocessor;
    assert_eq!(seen.writes_seen, vec![(50, 3, vec![0x0100])]);
    assert_eq!(seen.registers[3], 0x0100);
}

#[test]
fn silent_coprocessor_fails_the_read_after_all_retries() {
    let mut driver = over_serial(vec![0; 4]);
    let mut link = OverSerial { transport: SerialInterface::new(), coprocessor: Coprocessor::new(vec![]) };
    link.coprocessor.deaf_for = usize::MAX;
    let mut send = IoPacket::default();
    send.set_values(PACKET_CODE_READ, 0, 0, &[0]);
    let mut recv = IoPacket::default();
    // The transport itself reports that the coprocessor does not respond.
    assert_eq!(link.exchange_packets(&send, &mut recv, 10), Err(Error::Unresponsive));
    assert_eq!(link.coprocessor.requests_seen, 10);
    assert_eq!(link.transport.stall_count(), 10);
    // The driver reports every failed exchange as an error response.
    driver = IoMcuDriver::new_with_interface(link);
    let mut values = [7u16; 2];
    assert_eq!(driver.get_registers(0, 0, &mut values), Err(Error::ErrorResponse));
    assert_eq!(values, [7, 7]);
    assert_eq!(driver.interface().coprocessor.requests_seen, 20);
}

#[test]
fn read_recovers_after_two_rejected_attempts() {
    let mut driver = over_serial(vec![4, 1, 2, 8, 9]);
    let mut values = [0u16; 5];
    {
        let mut link = OverSerial {
            transport: SerialInterface::new(),
            coprocessor: Coprocessor::new(vec![4, 1, 2, 8, 9]),
        };
        link.coprocessor.rejects = 2;
        driver = IoMcuDriver::new_with_interface(link);
    }
    assert_eq!(driver.get_registers(0, 0, &mut values), Ok(()));
    assert_eq!(values, [4, 1, 2, 8, 9]);
    assert_eq!(driver.interface().coprocessor.requests_seen, 3);
}

#[test]
fn read_recovers_after_two_silent_attempts() {
    let mut link = OverSerial {
        transport: SerialInterface::new(),
        coprocessor: Coprocessor::new(vec![11, 22]),
    };
    link.coprocessor.deaf_for = 2;
    let mut driver = IoMcuDriver::new_with_interface(link);
    assert_eq!(driver.get_one_register(0, 1), Ok(22));
    assert_eq!(driver.interface().transport.stall_count(), 2);
}

#[test]
fn discard_input_drains_the_link() {
    let mut link = OverSerial {
        transport: SerialInterface::new(),
        coprocessor: Coprocessor::new(vec![]),
    };
    link.coprocessor.pending = vec![1, 2, 3];
    link.discard_input();
    assert!(link.coprocessor.pending.is_empty());
}

#[test]
fn reply_with_a_good_header_and_a_wrong_checksum_is_not_retried() {
    // The transport takes the reply, since its header marks a success; the
    // driver then finds the checksum wrong.
    let mut driver = IoMcuDriver::new_with_interface(Garbled { requests: 0 });
    let mut values = [0u16; 1];
    assert_eq!(driver.get_registers(0, 0, &mut values), Err(Error::ErrorResponse));
    assert_eq!(driver.interface().requests, 1);
    assert_eq!(values, [0]);
    assert_eq!(driver.recv_packet().register(0), 0x1234);
    assert!(!driver.recv_packet().is_crc_valid());
}

/// The serial transport on a link whose coprocessor answers every request
/// with one register behind a header that marks a success, and with a wrong
/// checksum.
struct Garbled {
    requests: usize,
}

impl DeviceInterface for Garbled {
    type InterfaceError = Error<u8>;

    fn setup(&mut self) -> Result<(), Error<u8>> {
        Ok(())
    }

    fn exchange_packets(
        &mut self,
        send: &IoPacket,
        recv: &mut IoPacket,
        retries: u8,
    ) -> Result<usize, Error<u8>> {
        let mut transport = SerialInterface::new();
        let mut pending: Vec<u8> = Vec::new();
        let mut action = transport.begin(retries);
        loop {
            let event = match action {
                LinkAction::Read => {
                    if pending.is_empty() {
                        LinkEvent::WouldBlock
                    } else {
                        LinkEvent::Byte(pending.remove(0))
                    }
                }
                LinkAction::Write(_) => LinkEvent::Sent,
                LinkAction::Flush => {
                    self.requests += 1;
                    pending.extend([0x01, 0xff, 0x00, 0x00, 0x34, 0x12]);
                    LinkEvent::Sent
                }
                LinkAction::Done(outcome) => return outcome,
            };
            action = transport.step(send, recv, event);
        }
    }

    fn discard_input(&mut self) {}
}
