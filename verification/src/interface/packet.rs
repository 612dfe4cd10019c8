//! The wire packet: a four byte header followed by up to 32 registers.
//!
//! On the wire a packet is a frame of bytes: the count and code byte, the
//! checksum, the page, the offset, and then each valid register with its low
//! byte first. Only the header and the valid registers travel; the rest of
//! the register buffer is scratch space.

use crate::crc::{
    crc8_fold, crc8_frame, crc8_lookup, crc8_update, lemma_fold_push, lemma_frame_detects_change,
    CRC8_TABLE,
};
use crate::protocol::{PACKET_CODE_MASK, PACKET_REG_COUNT_MASK};
use vstd::prelude::*;

verus! {

/// The unit of all register state.
pub type RegisterValue = u16;

/// Bytes of a packet's header.
pub const PACKET_HEADER_LEN: usize = 4;

/// The most registers that one packet can carry.
pub const MAX_PACKET_REGISTERS: usize = 32;

/// Bytes of the longest frame.
pub const PACKET_MAX_LEN: usize = PACKET_HEADER_LEN + MAX_PACKET_REGISTERS * 2;

/// What `clear` leaves in every register, to make stale data stand out.
pub const CLEARED_REGISTER: RegisterValue = 0x55aa;

/// The byte of a register that travels first.
pub open spec fn low_byte(value: RegisterValue) -> u8 {
    (value & 0xff) as u8
}

/// The byte of a register that travels second.
pub open spec fn high_byte(value: RegisterValue) -> u8 {
    (value >> 8) as u8
}

/// The register that travels as `low`, then `high`.
pub open spec fn join_bytes(low: u8, high: u8) -> RegisterValue {
    (low as u16) | ((high as u16) << 8)
}

/// A packet as a mathematical value.
pub struct PacketView {
    /// Operation or status code in the two high bits, number of valid
    /// registers in the six low bits.
    pub count_code: u8,
    /// The checksum as stored, whether or not it matches the contents.
    pub crc: u8,
    /// Page of the first register.
    pub page: u8,
    /// Offset of the first register within the page.
    pub offset: u8,
    /// The whole register buffer.
    pub registers: Seq<RegisterValue>,
}

impl PacketView {
    /// The buffer has its fixed size and the count does not exceed it.
    pub open spec fn wf(self) -> bool {
        &&& self.registers.len() == MAX_PACKET_REGISTERS
        &&& self.register_count() <= MAX_PACKET_REGISTERS
    }

    /// Number of registers that the packet declares valid.
    pub open spec fn register_count(self) -> nat {
        (self.count_code & PACKET_REG_COUNT_MASK) as nat
    }

    /// The operation or status code.
    pub open spec fn code(self) -> u8 {
        self.count_code & PACKET_CODE_MASK
    }

    /// The byte at `index` of the packet laid out as a frame of
    /// `PACKET_MAX_LEN` bytes.
    pub open spec fn frame_byte(self, index: int) -> u8 {
        if index == 0 {
            self.count_code
        } else if index == 1 {
            self.crc
        } else if index == 2 {
            self.page
        } else if index == 3 {
            self.offset
        } else if (index - 4) % 2 == 0 {
            low_byte(self.registers[(index - 4) / 2])
        } else {
            high_byte(self.registers[(index - 4) / 2])
        }
    }

    /// The packet laid out as a frame of `PACKET_MAX_LEN` bytes.
    pub open spec fn frame(self) -> Seq<u8> {
        Seq::new(PACKET_MAX_LEN as nat, |index: int| self.frame_byte(index))
    }

    /// Number of bytes that travel: the header and the valid registers.
    pub open spec fn wire_len(self) -> nat {
        4 + 2 * self.register_count()
    }

    /// The bytes that travel.
    pub open spec fn wire(self) -> Seq<u8> {
        self.frame().take(self.wire_len() as int)
    }

    /// The checksum that the contents call for.
    pub open spec fn checksum(self) -> u8 {
        crc8_frame(self.frame(), self.register_count())
    }

    /// The stored checksum is the one that the contents call for.
    pub open spec fn crc_valid(self) -> bool {
        self.crc == self.checksum()
    }

    /// The packet that `clear` leaves.
    pub open spec fn cleared() -> PacketView {
        PacketView {
            count_code: 0,
            crc: 0,
            page: 0,
            offset: 0,
            registers: Seq::new(MAX_PACKET_REGISTERS as nat, |i: int| CLEARED_REGISTER),
        }
    }

    /// The packet that `default` makes.
    pub open spec fn zeroed() -> PacketView {
        PacketView {
            count_code: 0,
            crc: 0,
            page: 0,
            offset: 0,
            registers: Seq::new(MAX_PACKET_REGISTERS as nat, |i: int| 0u16),
        }
    }

    /// This packet after `values` were set in it: they fill the front of the
    /// register buffer, the rest of the buffer stays, and the checksum is the
    /// one that the new contents call for.
    pub open spec fn with_values(
        self,
        mode: u8,
        page: u8,
        offset: u8,
        values: Seq<RegisterValue>,
    ) -> PacketView {
        let unsigned = PacketView {
            count_code: (values.len() as u8) | mode,
            crc: 0,
            page,
            offset,
            registers: values + self.registers.skip(values.len() as int),
        };
        PacketView { crc: unsigned.checksum(), ..unsigned }
    }

    /// This packet after the frame of `reply` was received into it: the
    /// header and the valid registers are the reply's, the rest of the
    /// register buffer stays.
    pub open spec fn with_reply(self, reply: PacketView) -> PacketView {
        PacketView {
            count_code: reply.count_code,
            crc: reply.crc,
            page: reply.page,
            offset: reply.offset,
            registers: reply.registers.take(reply.register_count() as int)
                + self.registers.skip(reply.register_count() as int),
        }
    }

    /// This packet with a header as received.
    pub open spec fn with_header(self, header: Seq<u8>) -> PacketView {
        PacketView {
            count_code: header[0],
            crc: header[1],
            page: header[2],
            offset: header[3],
            registers: self.registers,
        }
    }

    /// This packet after `byte` was received as byte `index` of the
    /// registers' part of the frame.
    pub open spec fn with_body_byte(self, index: int, byte: u8) -> PacketView {
        let old = self.registers[index / 2];
        let new = if index % 2 == 0 {
            join_bytes(byte, high_byte(old))
        } else {
            join_bytes(low_byte(old), byte)
        };
        PacketView { registers: self.registers.update(index / 2, new), ..self }
    }
}

/// A packet of the register protocol.
#[derive(Copy, Clone, Debug)]
pub struct IoPacket {
    count_code: u8,
    crc: u8,
    page: u8,
    offset: u8,
    registers: [RegisterValue; 32],
}

impl View for IoPacket {
    type V = PacketView;

    closed spec fn view(&self) -> PacketView {
        PacketView {
            count_code: self.count_code,
            crc: self.crc,
            page: self.page,
            offset: self.offset,
            registers: self.registers@,
        }
    }
}

fn low_byte_of(value: RegisterValue) -> (byte: u8)
    ensures
        byte == low_byte(value),
{
    assert(value & 0xff <= 0xff) by (bit_vector);
    (value & 0xff) as u8
}

fn high_byte_of(value: RegisterValue) -> (byte: u8)
    ensures
        byte == high_byte(value),
{
    assert(value >> 8 <= 0xff) by (bit_vector);
    (value >> 8) as u8
}

fn join_bytes_of(low: u8, high: u8) -> (value: RegisterValue)
    ensures
        value == join_bytes(low, high),
{
    (low as u16) | ((high as u16) << 8)
}

/// Splitting a register into its bytes and joining them gives the register
/// back, and the other way round.
pub proof fn lemma_bytes_of_register(value: RegisterValue, low: u8, high: u8)
    ensures
        join_bytes(low_byte(value), high_byte(value)) == value,
        low_byte(join_bytes(low, high)) == low,
        high_byte(join_bytes(low, high)) == high,
{
    assert(((value & 0xff) as u8 as u16) | (((value >> 8) as u8 as u16) << 8) == value)
        by (bit_vector);
    assert((((low as u16) | ((high as u16) << 8)) & 0xff) as u8 == low) by (bit_vector);
    assert((((low as u16) | ((high as u16) << 8)) >> 8) as u8 == high) by (bit_vector);
}

/// A packet in which values were set is well formed, declares as many
/// registers as were set, carries them at the front of its buffer and has a
/// valid checksum.
pub proof fn lemma_with_values_valid(
    p: PacketView,
    mode: u8,
    page: u8,
    offset: u8,
    values: Seq<RegisterValue>,
)
    requires
        p.wf(),
        values.len() <= MAX_PACKET_REGISTERS,
        mode & PACKET_REG_COUNT_MASK == 0,
    ensures
        ({
            let q = p.with_values(mode, page, offset, values);
            &&& q.wf()
            &&& q.register_count() == values.len()
            &&& q.code() == mode
            &&& q.page == page
            &&& q.offset == offset
            &&& q.registers.take(values.len() as int) == values
            &&& q.crc_valid()
        }),
{
    let q = p.with_values(mode, page, offset, values);
    let count_byte = values.len() as u8;
    assert((count_byte | mode) & 0x3f == count_byte && (count_byte | mode) & 0xc0 == mode)
        by (bit_vector)
        requires
            count_byte <= 32,
            mode & 0x3f == 0,
    ;
    assert(q.registers.take(values.len() as int) =~= values);
    let unsigned = PacketView { crc: 0, ..q };
    assert(q.frame().subrange(2, 4 + 2 * values.len() as int) =~= unsigned.frame().subrange(
        2,
        4 + 2 * values.len() as int,
    ));
}

/// A packet with no registers gets another checksum when exactly one of the
/// header bytes that the checksum covers changes: the code, the page or the
/// offset.
pub proof fn lemma_header_change_changes_checksum(p: PacketView, q: PacketView)
    requires
        p.wf(),
        q.wf(),
        p.register_count() == 0,
        q.register_count() == 0,
        (p.count_code != q.count_code && p.page == q.page && p.offset == q.offset) || (p.count_code
            == q.count_code && p.page != q.page && p.offset == q.offset) || (p.count_code
            == q.count_code && p.page == q.page && p.offset != q.offset),
    ensures
        p.checksum() != q.checksum(),
{
    let at: int = if p.count_code != q.count_code {
        0
    } else if p.page != q.page {
        2
    } else {
        3
    };
    lemma_frame_detects_change(p.frame(), q.frame(), 0, at);
}

/// A packet whose checksum is valid no longer has a valid checksum after
/// exactly one of the bytes that travel, other than the checksum, was
/// changed in a way that leaves the register count as it was.
pub proof fn lemma_tamper_detected(p: PacketView, q: PacketView, at: int)
    requires
        p.wf(),
        q.wf(),
        p.crc_valid(),
        q.register_count() == p.register_count(),
        at == 0 || 2 <= at < p.wire_len(),
        q.frame()[at] != p.frame()[at],
        forall|j: int| 0 <= j < p.wire_len() && j != at ==> q.frame()[j] == p.frame()[j],
    ensures
        !q.crc_valid(),
{
    assert(q.frame()[1] == p.frame()[1]);
    lemma_frame_detects_change(p.frame(), q.frame(), p.register_count(), at);
}

/// A packet whose checksum is valid no longer has a valid checksum after one
/// bit was flipped in one of the bytes that travel, other than the checksum,
/// where the flip leaves the register count as it was.
pub proof fn lemma_bit_flip_detected(p: PacketView, q: PacketView, at: int, bit: u8)
    requires
        p.wf(),
        q.wf(),
        p.crc_valid(),
        q.register_count() == p.register_count(),
        at == 0 || 2 <= at < p.wire_len(),
        bit < 8,
        q.frame()[at] == p.frame()[at] ^ (1u8 << bit),
        forall|j: int| 0 <= j < p.wire_len() && j != at ==> q.frame()[j] == p.frame()[j],
    ensures
        !q.crc_valid(),
{
    let byte = p.frame()[at];
    assert(byte ^ (1u8 << bit) != byte) by (bit_vector)
        requires
            bit < 8,
    ;
    lemma_tamper_detected(p, q, at);
}

/// The packet with one of the six count bits of its first byte flipped.
pub open spec fn count_bit_flipped(p: PacketView, bit: u8) -> PacketView {
    PacketView { count_code: p.count_code ^ (1u8 << bit), ..p }
}

/// The index of the last byte that the checksum covers either before or
/// after a count bit was flipped, but not both: the last byte of the longer
/// of the two ranges.
pub open spec fn last_byte_of_longer_range(p: PacketView, bit: u8) -> int {
    let before = p.register_count();
    let after = count_bit_flipped(p, bit).register_count();
    if before < after {
        3 + 2 * after as int
    } else {
        3 + 2 * before as int
    }
}

/// A flip of one of the six count bits changes the range that the checksum
/// covers, and so it can go unnoticed. It does so for at most one packet in
/// 256: of the packets with a valid checksum that differ in nothing but the
/// last byte of the longer range (and in the stored checksum), no two still
/// have a valid checksum after the flip.
pub proof fn lemma_count_flip_survives_at_most_once(p1: PacketView, p2: PacketView, bit: u8)
    requires
        bit < 6,
        p1.wf(),
        p2.wf(),
        count_bit_flipped(p1, bit).wf(),
        p1.crc_valid(),
        p2.crc_valid(),
        p1.count_code == p2.count_code,
        p1.frame()[last_byte_of_longer_range(p1, bit)] != p2.frame()[last_byte_of_longer_range(
            p1,
            bit,
        )],
        forall|j: int|
            2 <= j < PACKET_MAX_LEN && j != last_byte_of_longer_range(p1, bit) ==> p1.frame()[j]
                == p2.frame()[j],
    ensures
        !(count_bit_flipped(p1, bit).crc_valid() && count_bit_flipped(p2, bit).crc_valid()),
{
    let q1 = count_bit_flipped(p1, bit);
    let q2 = count_bit_flipped(p2, bit);
    let before = p1.register_count();
    let after = q1.register_count();
    let last = last_byte_of_longer_range(p1, bit);
    let code = p1.count_code;
    assert((code ^ (1u8 << bit)) & 0x3f != code & 0x3f) by (bit_vector)
        requires
            bit < 6,
    ;
    assert(forall|j: int| 2 <= j < PACKET_MAX_LEN ==> q1.frame()[j] == p1.frame()[j]);
    assert(forall|j: int| 2 <= j < PACKET_MAX_LEN ==> q2.frame()[j] == p2.frame()[j]);
    if after < before {
        // The byte is covered before the flip only.
        lemma_frame_detects_change(p1.frame(), p2.frame(), before, last);
        assert(q1.frame().subrange(2, 4 + 2 * after as int) =~= q2.frame().subrange(
            2,
            4 + 2 * after as int,
        ));
    } else {
        // The byte is covered after the flip only.
        lemma_frame_detects_change(q1.frame(), q2.frame(), after, last);
        assert(p1.frame().subrange(2, 4 + 2 * before as int) =~= p2.frame().subrange(
            2,
            4 + 2 * before as int,
        ));
    }
}

impl IoPacket {
    /// Every packet that the program holds is well formed.
    #[verifier::type_invariant]
    pub open spec fn well_formed(self) -> bool {
        self@.wf()
    }

    /// A packet with every byte zero.
    pub fn default() -> (packet: Self)
        ensures
            packet@ == PacketView::zeroed(),
            packet@.wf(),
    {
        assert(0u8 & 0x3f == 0) by (bit_vector);
        let packet = Self { count_code: 0, crc: 0, page: 0, offset: 0, registers: [0;32] };
        assert(packet@.registers =~= PacketView::zeroed().registers);
        packet
    }

    /// Sets the header fields for `mode`, `page` and `offset`, copies
    /// `values` to the front of the register buffer and stamps the packet
    /// with its checksum.
    ///
    /// `mode` is an operation code: it leaves the six count bits clear. There
    /// are no more values than a packet holds.
    pub fn set_values(
        &mut self,
        mode: u8,
        page: u8,
        offset: u8,
        values: &[RegisterValue],
    ) -> (packet: &mut IoPacket)
        requires
            values@.len() <= MAX_PACKET_REGISTERS,
            mode & PACKET_REG_COUNT_MASK == 0,
        ensures
            packet@ == old(self)@.with_values(mode, page, offset, values@),
            packet@.wf(),
            packet@.register_count() == values@.len(),
            packet@.code() == mode,
            packet@.crc_valid(),
            *final(self) == *final(packet),
    {
        let count = values.len();
        let count_byte = count as u8;
        assert((count_byte | mode) & 0x3f == count_byte && (count_byte | mode) & 0xc0 == mode)
            by (bit_vector)
            requires
                count_byte <= 32,
                mode & 0x3f == 0,
        ;
        let ghost before = self@;
        self.count_code = count_byte | mode;
        self.crc = 0;
        self.page = page;
        self.offset = offset;
        let mut i: usize = 0;
        while i < count
            invariant
                count == values@.len(),
                count <= 32,
                i <= count,
                self.count_code == count_byte | mode,
                self.count_code & PACKET_REG_COUNT_MASK <= 32,
                before.registers.len() == 32,
                self.crc == 0,
                self.page == page,
                self.offset == offset,
                forall|k: int| 0 <= k < i ==> self.registers@[k] == values@[k],
                forall|k: int| i <= k < 32 ==> self.registers@[k] == before.registers[k],
            decreases count - i,
        {
            self.registers[i] = values[i];
            i += 1;
        }
        let ghost unsigned = self@;
        assert(unsigned.registers =~= values@ + before.registers.skip(values@.len() as int));
        self.crc = self.calc_crc();
        proof {
            Self::lemma_checksum_ignores_crc(unsigned, self@);
        }
        self
    }

    /// Resets the header to zero and every register to `CLEARED_REGISTER`.
    pub fn clear(&mut self) -> (packet: &mut IoPacket)
        ensures
            packet@ == PacketView::cleared(),
            packet@.wf(),
            *final(self) == *final(packet),
    {
        assert(0u8 & 0x3f == 0) by (bit_vector);
        self.count_code = 0;
        self.crc = 0;
        self.page = 0;
        self.offset = 0;
        let mut i: usize = 0;
        while i < 32
            invariant
                i <= 32,
                self.count_code == 0,
                self.count_code & PACKET_REG_COUNT_MASK <= 32,
                self.crc == 0,
                self.page == 0,
                self.offset == 0,
                forall|k: int| 0 <= k < i ==> self.registers@[k] == CLEARED_REGISTER,
            decreases 32 - i,
        {
            self.registers[i] = CLEARED_REGISTER;
            i += 1;
        }
        assert(self@.registers =~= PacketView::cleared().registers);
        self
    }

    /// Whether the stored checksum is the one that the contents call for.
    pub fn is_crc_valid(&self) -> (valid: bool)
        ensures
            valid == self@.crc_valid(),
    {
        let calc_crc = self.calc_crc();
        calc_crc == self.crc
    }

    /// Number of registers that the packet declares valid.
    pub fn valid_register_count(&self) -> (count: u8)
        ensures
            count == self@.register_count(),
            count <= MAX_PACKET_REGISTERS,
            self@.wf(),
    {
        proof {
            use_type_invariant(self);
        }
        self.count_code & PACKET_REG_COUNT_MASK
    }

    /// The operation or status code.
    pub fn packet_code(&self) -> (code: u8)
        ensures
            code == self@.code(),
    {
        self.count_code & PACKET_CODE_MASK
    }

    /// The first byte as it travels: code and count together.
    pub fn count_code(&self) -> (count_code: u8)
        ensures
            count_code == self@.count_code,
    {
        self.count_code
    }

    /// The checksum as stored.
    pub fn crc(&self) -> (crc: u8)
        ensures
            crc == self@.crc,
    {
        self.crc
    }

    /// Page of the first register.
    pub fn page(&self) -> (page: u8)
        ensures
            page == self@.page,
    {
        self.page
    }

    /// Offset of the first register within the page.
    pub fn offset(&self) -> (offset: u8)
        ensures
            offset == self@.offset,
    {
        self.offset
    }

    /// The register at `index` of the buffer.
    pub fn register(&self, index: usize) -> (value: RegisterValue)
        requires
            index < MAX_PACKET_REGISTERS,
        ensures
            value == self@.registers[index as int],
    {
        self.registers[index]
    }

    /// Number of bytes that travel: the header and the valid registers.
    pub fn wire_len(&self) -> (len: usize)
        ensures
            len == self@.wire_len(),
            PACKET_HEADER_LEN <= len <= PACKET_MAX_LEN,
    {
        PACKET_HEADER_LEN + 2 * (self.valid_register_count() as usize)
    }

    /// The byte at `index` of the packet laid out as a frame.
    pub fn wire_byte(&self, index: usize) -> (byte: u8)
        requires
            index < PACKET_MAX_LEN,
        ensures
            byte == self@.frame()[index as int],
    {
        if index == 0 {
            self.count_code
        } else if index == 1 {
            self.crc
        } else if index == 2 {
            self.page
        } else if index == 3 {
            self.offset
        } else if (index - 4) % 2 == 0 {
            low_byte_of(self.registers[(index - 4) / 2])
        } else {
            high_byte_of(self.registers[(index - 4) / 2])
        }
    }

    /// Takes over a header as it was received. The registers stay. The
    /// header must not announce more registers than a packet holds.
    pub fn store_header(&mut self, header: &[u8; 4])
        requires
            header[0] & PACKET_REG_COUNT_MASK <= MAX_PACKET_REGISTERS,
        ensures
            final(self)@ == old(self)@.with_header(header@),
            final(self)@.wf(),
    {
        self.count_code = header[0];
        self.crc = header[1];
        self.page = header[2];
        self.offset = header[3];
    }

    /// Takes over one byte of the registers' part of a frame as it was
    /// received: byte `index` counted from the end of the header. The header
    /// and the other bytes stay.
    pub fn store_body_byte(&mut self, index: usize, byte: u8)
        requires
            index < 2 * MAX_PACKET_REGISTERS,
        ensures
            final(self)@ == old(self)@.with_body_byte(index as int, byte),
            final(self)@.wf(),
    {
        proof {
            use_type_invariant(&*self);
        }
        let slot = index / 2;
        let old_value = self.registers[slot];
        let new_value = if index % 2 == 0 {
            join_bytes_of(byte, high_byte_of(old_value))
        } else {
            join_bytes_of(low_byte_of(old_value), byte)
        };
        self.registers[slot] = new_value;
    }

    /// The checksum of the frame in `buf`, which carries `reg_count`
    /// registers. The byte at index 1, where the checksum travels, is not
    /// read.
    pub fn crc8_anon(buf: &[u8], reg_count: usize) -> (crc: u8)
        requires
            4 + 2 * reg_count <= buf@.len(),
        ensures
            crc == crc8_frame(buf@, reg_count as nat),
    {
        assert(buf@.len() == buf.len());
        let total_len = PACKET_HEADER_LEN + reg_count * 2;
        let mut crc = CRC8_TABLE[buf[0] as usize];
        crc = CRC8_TABLE[crc as usize];
        assert(buf@.subrange(2, 2) =~= Seq::<u8>::empty());
        let mut i: usize = 2;
        while i < total_len
            invariant
                2 <= i <= total_len <= buf@.len(),
                crc == crc8_fold(crc8_lookup(crc8_lookup(buf@[0])), buf@.subrange(2, i as int)),
            decreases total_len - i,
        {
            proof {
                assert(buf@.subrange(2, i + 1) =~= buf@.subrange(2, i as int).push(buf@[i as int]));
                lemma_fold_push(
                    crc8_lookup(crc8_lookup(buf@[0])),
                    buf@.subrange(2, i as int),
                    buf@[i as int],
                );
            }
            crc = crc8_update(crc, buf[i]);
            i += 1;
        }
        crc
    }

    /// The checksum that the packet's contents call for.
    fn calc_crc(&self) -> (crc: u8)
        ensures
            crc == self@.checksum(),
    {
        let count = self.valid_register_count() as usize;
        let ghost frame = self@.frame();
        let mut crc = CRC8_TABLE[self.count_code as usize];
        crc = CRC8_TABLE[crc as usize];
        crc = crc8_update(crc, self.page);
        crc = crc8_update(crc, self.offset);
        proof {
            let seed = crc8_lookup(crc8_lookup(frame[0]));
            assert(frame.subrange(2, 3) =~= Seq::<u8>::empty().push(frame[2]));
            assert(frame.subrange(2, 4) =~= frame.subrange(2, 3).push(frame[3]));
            lemma_fold_push(seed, Seq::empty(), frame[2]);
            lemma_fold_push(seed, frame.subrange(2, 3), frame[3]);
        }
        let mut i: usize = 0;
        while i < count
            invariant
                count <= 32,
                i <= count,
                frame == self@.frame(),
                crc == crc8_fold(
                    crc8_lookup(crc8_lookup(frame[0])),
                    frame.subrange(2, 4 + 2 * i as int),
                ),
            decreases count - i,
        {
            let value = self.registers[i];
            proof {
                let seed = crc8_lookup(crc8_lookup(frame[0]));
                let done = frame.subrange(2, 4 + 2 * i as int);
                assert(frame.subrange(2, 5 + 2 * i as int) =~= done.push(frame[4 + 2 * i as int]));
                assert(frame.subrange(2, 6 + 2 * i as int) =~= frame.subrange(
                    2,
                    5 + 2 * i as int,
                ).push(frame[5 + 2 * i as int]));
                lemma_fold_push(seed, done, frame[4 + 2 * i as int]);
                lemma_fold_push(seed, frame.subrange(2, 5 + 2 * i as int), frame[5 + 2 * i as int]);
            }
            crc = crc8_update(crc, low_byte_of(value));
            crc = crc8_update(crc, high_byte_of(value));
            i += 1;
        }
        crc
    }

    /// The checksum of two packets that differ in the stored checksum alone
    /// is the same.
    proof fn lemma_checksum_ignores_crc(a: PacketView, b: PacketView)
        requires
            a.wf(),
            a.count_code == b.count_code,
            a.page == b.page,
            a.offset == b.offset,
            a.registers == b.registers,
        ensures
            a.checksum() == b.checksum(),
    {
        let n = a.register_count();
        assert(a.frame().subrange(2, 4 + 2 * n as int) =~= b.frame().subrange(
            2,
            4 + 2 * n as int,
        ));
    }
}

} // verus!
