//! Configuration packets: the 32-bit words that address the configuration
//! registers of a device.

use vstd::prelude::*;

verus! {

/// A type-1 packet header: an operation on `word_count` words of one register.
#[derive(Debug, Clone, Copy)]
pub struct Type1 {
    pub op: OpCode,
    pub addr: Addr,
    pub word_count: u16,
}

#[derive(Debug, Default, Copy, Clone, PartialEq, Eq, Structural, PartialOrd, Ord, Hash)]
pub enum OpCode {
    Noop,
    Read,
    Write,
    #[default]
    Unknown,
}

/// A configuration register.
#[derive(Debug, Copy, Clone, PartialEq, Eq, Structural, PartialOrd, Ord, Hash)]
pub enum Addr {
    Crc,
    Far,
    Fdri,
    Fdro,
    Cmd,
    Ctl0,
    Mask,
    Stat,
    Lout,
    Cor0,
    Mfwr,
    Cbc,
    Idcode,
    Axss,
    Cor1,
    Wbstar,
    Timer,
    RbcrcSw,
    Bootsts,
    Ctl1,
    Rdri,
    Ssit,
    Bspi,
}

impl OpCode {
    /// The two-bit code of the operation.
    pub open spec fn spec_code(self) -> u8 {
        match self {
            OpCode::Noop => 0,
            OpCode::Read => 1,
            OpCode::Write => 2,
            OpCode::Unknown => 3,
        }
    }

    /// The two-bit code of the operation.
    #[verifier::when_used_as_spec(spec_code)]
    pub fn code(self) -> (r: u8)
        ensures
            r == self.spec_code(),
            r <= 3,
    {
        match self {
            OpCode::Noop => 0,
            OpCode::Read => 1,
            OpCode::Write => 2,
            OpCode::Unknown => 3,
        }
    }

    /// The operation with the given two-bit code.
    pub fn from_code(code: u8) -> (r: OpCode)
        requires
            code <= 3,
        ensures
            r.spec_code() == code,
    {
        match code {
            0 => OpCode::Noop,
            1 => OpCode::Read,
            2 => OpCode::Write,
            _ => OpCode::Unknown,
        }
    }
}

impl Addr {
    /// The address of the register.
    pub open spec fn spec_code(self) -> u16 {
        match self {
            Addr::Crc => 0,
            Addr::Far => 1,
            Addr::Fdri => 2,
            Addr::Fdro => 3,
            Addr::Cmd => 4,
            Addr::Ctl0 => 5,
            Addr::Mask => 6,
            Addr::Stat => 7,
            Addr::Lout => 8,
            Addr::Cor0 => 9,
            Addr::Mfwr => 10,
            Addr::Cbc => 11,
            Addr::Idcode => 12,
            Addr::Axss => 13,
            Addr::Cor1 => 14,
            Addr::Wbstar => 16,
            Addr::Timer => 17,
            Addr::RbcrcSw => 19,
            Addr::Bootsts => 22,
            Addr::Ctl1 => 24,
            Addr::Rdri => 26,
            Addr::Ssit => 30,
            Addr::Bspi => 31,
        }
    }

    /// The address of the register.
    #[verifier::when_used_as_spec(spec_code)]
    pub fn code(self) -> (r: u16)
        ensures
            r == self.spec_code(),
            r <= 31,
    {
        match self {
            Addr::Crc => 0,
            Addr::Far => 1,
            Addr::Fdri => 2,
            Addr::Fdro => 3,
            Addr::Cmd => 4,
            Addr::Ctl0 => 5,
            Addr::Mask => 6,
            Addr::Stat => 7,
            Addr::Lout => 8,
            Addr::Cor0 => 9,
            Addr::Mfwr => 10,
            Addr::Cbc => 11,
            Addr::Idcode => 12,
            Addr::Axss => 13,
            Addr::Cor1 => 14,
            Addr::Wbstar => 16,
            Addr::Timer => 17,
            Addr::RbcrcSw => 19,
            Addr::Bootsts => 22,
            Addr::Ctl1 => 24,
            Addr::Rdri => 26,
            Addr::Ssit => 30,
            Addr::Bspi => 31,
        }
    }

    /// The register at `code`, if one is defined there.
    pub fn from_code(code: u16) -> (r: Option<Addr>)
        ensures
            r matches Some(a) ==> a.spec_code() == code,
            r is None ==> forall|a: Addr| a.spec_code() != code,
    {
        match code {
            0 => Some(Addr::Crc),
            1 => Some(Addr::Far),
            2 => Some(Addr::Fdri),
            3 => Some(Addr::Fdro),
            4 => Some(Addr::Cmd),
            5 => Some(Addr::Ctl0),
            6 => Some(Addr::Mask),
            7 => Some(Addr::Stat),
            8 => Some(Addr::Lout),
            9 => Some(Addr::Cor0),
            10 => Some(Addr::Mfwr),
            11 => Some(Addr::Cbc),
            12 => Some(Addr::Idcode),
            13 => Some(Addr::Axss),
            14 => Some(Addr::Cor1),
            16 => Some(Addr::Wbstar),
            17 => Some(Addr::Timer),
            19 => Some(Addr::RbcrcSw),
            22 => Some(Addr::Bootsts),
            24 => Some(Addr::Ctl1),
            26 => Some(Addr::Rdri),
            30 => Some(Addr::Ssit),
            31 => Some(Addr::Bspi),
            _ => None,
        }
    }
}

/// The type-1 word for an operation code below 4, an address below 2^14 and
/// a word count below 2^11:
///
/// ```text
/// [31:29] header type, 001
/// [28:27] opcode
/// [26:13] address
/// [12:11] reserved
/// [10: 0] word count
/// ```
pub open spec fn type1_word(op: int, addr: int, word_count: int) -> int {
    0x2000_0000 + op * 0x0800_0000 + addr * 0x2000 + word_count
}

/// The type-2 word for an operation code below 4 and a word count below 2^27:
///
/// ```text
/// [31:29] header type, 010
/// [28:27] opcode
/// [26: 0] word count
/// ```
pub open spec fn type2_word(op: int, word_count: int) -> int {
    0x4000_0000 + op * 0x0800_0000 + word_count
}

proof fn lemma_type1_bits(op: u8, addr: u16, word_count: u16)
    by (bit_vector)
    ensures
        (1u32 << 29) | (((op & 0x3) as u32) << 27) | (((addr & 0x3fff) as u32) << 13) | ((word_count
            & 0x7ff) as u32) == 0x2000_0000u32 + (op % 4) as u32 * 0x0800_0000u32 + (addr
            % 0x4000) as u32 * 0x2000u32 + (word_count % 0x800) as u32,
{
}

proof fn lemma_type1_fields(raw: u32)
    by (bit_vector)
    ensures
        (raw >> 29) == raw / 0x2000_0000,
        ((raw >> 27) & 0x3) == (raw / 0x0800_0000) % 4,
        ((raw >> 13) & 0x3fff) == (raw / 0x2000) % 0x4000,
        ((raw >> 11) & 0x3) == (raw / 0x800) % 4,
        (raw & 0x7ff) == raw % 0x800,
        (raw & 0x07ff_ffff) == raw % 0x0800_0000,
{
}

proof fn lemma_type1_compose(op: u32, addr: u32, word_count: u32, raw: u32)
    by (bit_vector)
    requires
        op < 4,
        addr < 0x4000,
        word_count < 0x800,
        raw == 0x2000_0000u32 + op * 0x0800_0000u32 + addr * 0x2000u32 + word_count,
    ensures
        raw >> 29 == 1,
        (raw >> 27) & 0x3 == op,
        (raw >> 13) & 0x3fff == addr,
        (raw >> 11) & 0x3 == 0,
        raw & 0x7ff == word_count,
{
}

proof fn lemma_type1_split(raw: u32)
    by (bit_vector)
    requires
        raw >> 29 == 1,
        (raw >> 11) & 0x3 == 0,
    ensures
        raw == 0x2000_0000u32 + ((raw >> 27) & 0x3) * 0x0800_0000u32 + ((raw >> 13) & 0x3fff)
            * 0x2000u32 + (raw & 0x7ff),
        (raw >> 27) & 0x3 < 4,
        (raw >> 13) & 0x3fff < 0x4000,
        raw & 0x7ff < 0x800,
{
}

proof fn lemma_type2_bits(op: u8, word_count: u32)
    by (bit_vector)
    ensures
        (2u32 << 29) | (((op & 0x3) as u32) << 27) | (word_count & 0x07ff_ffff) == 0x4000_0000u32
            + (op % 4) as u32 * 0x0800_0000u32 + word_count % 0x0800_0000u32,
{
}

/// The type-1 word with the given fields, each cut to its width.
pub fn encode_type1(op: u8, addr: u16, word_count: u16) -> (r: u32)
    ensures
        r == type1_word(op as int % 4, addr as int % 0x4000, word_count as int % 0x800),
{
    proof {
        lemma_type1_bits(op, addr, word_count);
    }
    let header: u32 = 1 << 29;
    let opcode: u32 = ((op & 0x3) as u32) << 27;
    let address: u32 = ((addr & 0x3fff) as u32) << 13;
    let count: u32 = (word_count & 0x7ff) as u32;
    header | opcode | address | count
}

/// The operation code, address and word count of a type-1 word, or `None`
/// where the header is not 001 or a reserved bit is set.
pub fn decode_type1(raw: u32) -> (r: Option<(u8, u16, u16)>)
    ensures
        r matches Some((op, addr, word_count)) ==> op < 4 && addr < 0x4000 && word_count < 0x800
            && raw == type1_word(op as int, addr as int, word_count as int),
        r is None ==> forall|op: int, addr: int, word_count: int|
            0 <= op < 4 && 0 <= addr < 0x4000 && 0 <= word_count < 0x800 ==> raw
                != #[trigger] type1_word(op, addr, word_count),
{
    if raw >> 29 != 1 || (raw >> 11) & 0x3 != 0 {
        proof {
            assert forall|op: int, addr: int, word_count: int|
                0 <= op < 4 && 0 <= addr < 0x4000 && 0 <= word_count < 0x800 implies raw
                != #[trigger] type1_word(op, addr, word_count) by {
                if raw == type1_word(op, addr, word_count) {
                    lemma_type1_compose(op as u32, addr as u32, word_count as u32, raw);
                }
            }
        }
        return None;
    }
    proof {
        lemma_type1_split(raw);
    }
    let op = ((raw >> 27) & 0x3) as u8;
    let addr = ((raw >> 13) & 0x3fff) as u16;
    let word_count = (raw & 0x7ff) as u16;
    Some((op, addr, word_count))
}

/// Decoding a type-1 word gives back the fields it was built from.
pub proof fn lemma_type1_roundtrip(op: u8, addr: u16, word_count: u16)
    requires
        op <= 2,
        addr < 16384,
        word_count < 2048,
    ensures
        ({
            let raw = type1_word(op as int, addr as int, word_count as int);
            &&& 0x2000_0000 <= raw < 0x4000_0000
            &&& (raw / 0x0800_0000) % 4 == op
            &&& (raw / 0x2000) % 0x4000 == addr
            &&& (raw / 0x800) % 4 == 0
            &&& raw % 0x800 == word_count
        }),
{
    let raw = type1_word(op as int, addr as int, word_count as int) as u32;
    lemma_type1_compose(op as u32, addr as u32, word_count as u32, raw);
    lemma_type1_fields(raw);
}

/// The fields of a type-1 word are determined by the word.
pub proof fn lemma_type1_injective(a: (int, int, int), b: (int, int, int))
    requires
        0 <= a.0 < 4 && 0 <= a.1 < 0x4000 && 0 <= a.2 < 0x800,
        0 <= b.0 < 4 && 0 <= b.1 < 0x4000 && 0 <= b.2 < 0x800,
        type1_word(a.0, a.1, a.2) == type1_word(b.0, b.1, b.2),
    ensures
        a == b,
{
    let raw = type1_word(a.0, a.1, a.2) as u32;
    lemma_type1_compose(a.0 as u32, a.1 as u32, a.2 as u32, raw);
    lemma_type1_compose(b.0 as u32, b.1 as u32, b.2 as u32, raw);
}

impl Type1 {
    pub const DUMMY: u32 = 0xffffffff;

    pub const SYNC: u32 = 0xaa995566;

    pub const NOOP: u32 = 0x20000000;

    pub fn new(op: OpCode, addr: Addr, word_count: u16) -> (r: Self)
        ensures
            r.op == op,
            r.addr == addr,
            r.word_count == word_count,
    {
        Self { op, addr, word_count }
    }

    /// The packet as a 32-bit word. A word count of 2048 or more is cut to
    /// its low eleven bits.
    pub fn to_raw(self) -> (r: u32)
        ensures
            r == type1_word(
                self.op.spec_code() as int,
                self.addr.spec_code() as int,
                self.word_count as int % 0x800,
            ),
    {
        encode_type1(self.op.code(), self.addr.code(), self.word_count)
    }

    /// The packet that a 32-bit word encodes, if it is a type-1 word that
    /// names a defined register.
    pub fn from_raw(raw: u32) -> (r: Option<Type1>)
        ensures
            r matches Some(p) ==> p.word_count < 0x800 && raw == type1_word(
                p.op.spec_code() as int,
                p.addr.spec_code() as int,
                p.word_count as int,
            ),
            r is None ==> forall|p: Type1|
                p.word_count < 0x800 ==> raw != #[trigger] type1_word(
                    p.op.spec_code() as int,
                    p.addr.spec_code() as int,
                    p.word_count as int,
                ),
    {
        match decode_type1(raw) {
            None => None,
            Some((op, addr, word_count)) => {
                match Addr::from_code(addr) {
                    None => {
                        proof {
                            assert forall|p: Type1| p.word_count < 0x800 implies raw
                                != #[trigger] type1_word(
                                p.op.spec_code() as int,
                                p.addr.spec_code() as int,
                                p.word_count as int,
                            ) by {
                                if raw == type1_word(
                                    p.op.spec_code() as int,
                                    p.addr.spec_code() as int,
                                    p.word_count as int,
                                ) {
                                    lemma_type1_injective(
                                        (op as int, addr as int, word_count as int),
                                        (
                                            p.op.spec_code() as int,
                                            p.addr.spec_code() as int,
                                            p.word_count as int,
                                        ),
                                    );
                                }
                            }
                        }
                        None
                    },
                    Some(a) => Some(Type1 { op: OpCode::from_code(op), addr: a, word_count }),
                }
            },
        }
    }
}

/// The type-2 word for `op` and `word_count`. A word count of 2^27 or more is
/// cut to its low 27 bits.
pub fn type2(op: OpCode, word_count: u32) -> (r: u32)
    ensures
        r == type2_word(op.spec_code() as int, word_count as int % 0x0800_0000),
{
    proof {
        lemma_type2_bits(op.spec_code(), word_count);
    }
    let header: u32 = 2 << 29;
    let opcode: u32 = ((op.code() & 0x3) as u32) << 27;
    let count: u32 = word_count & 0x07ff_ffff;
    header | opcode | count
}

} // verus!
