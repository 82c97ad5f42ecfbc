//! Devices configured through 32-bit packets: 7-series, UltraScale and
//! UltraScale+.
//!
//! Configuration words are written most significant bit first; JTAG shifts
//! least significant bit first. Every word crosses that boundary here: its
//! bytes in big-endian order, each with its bits reflected.

use crate::backend::{level, total_notify, total_read, Backend, Transfer};
use crate::controller::{
    lemma_totals_concat, lemma_totals_four, lemma_totals_one, notify_total, rx_total,
    tx_total, views, Command, CommandKind, CommandView, Controller, Geometry,
};
use crate::devices::{DeviceInfo, Specific};
use crate::error::Error;
use crate::jtag::bit8;
use crate::units::Bytes;
use vstd::prelude::*;

pub mod commands;
pub mod drp;
pub mod info;
pub mod registers;

use self::registers::{type1_word, type2_word, Addr, OpCode, Type1};

verus! {

/// `b` with its bits in reverse order.
pub open spec fn reflected(b: u8) -> u8 {
    ((b & 0x01) << 7) | ((b & 0x02) << 5) | ((b & 0x04) << 3) | ((b & 0x08) << 1) | ((b & 0x10)
        >> 1) | ((b & 0x20) >> 3) | ((b & 0x40) >> 5) | ((b & 0x80) >> 7)
}

/// `b` with its bits in reverse order.
#[verifier::when_used_as_spec(reflected)]
pub fn reflect(b: u8) -> (r: u8)
    ensures
        r == reflected(b),
{
    ((b & 0x01) << 7) | ((b & 0x02) << 5) | ((b & 0x04) << 3) | ((b & 0x08) << 1) | ((b & 0x10)
        >> 1) | ((b & 0x20) >> 3) | ((b & 0x40) >> 5) | ((b & 0x80) >> 7)
}

proof fn lemma_reflect(b: u8, k: u8)
    by (bit_vector)
    requires
        k < 8,
    ensures
        (reflected(b) >> k) & 1 == (b >> (7 - k) as u8) & 1,
        reflected(reflected(b)) == b,
{
}

/// Reflecting a byte puts bit `7 - k` where bit `k` was.
pub proof fn lemma_reflect_bits(b: u8)
    ensures
        forall|k: int| 0 <= k < 8 ==> bit8(reflected(b), k) == bit8(b, 7 - k),
{
    assert forall|k: int| 0 <= k < 8 implies bit8(reflected(b), k) == bit8(b, 7 - k) by {
        lemma_reflect(b, k as u8);
    }
}

/// Reflecting a byte twice gives the byte back.
pub proof fn lemma_reflect_involution(b: u8)
    ensures
        reflected(reflected(b)) == b,
{
    lemma_reflect(b, 0);
}

/// Byte `i` of `word`, most significant first.
pub open spec fn be_byte(word: u32, i: int) -> u8 {
    (word >> ((8 * (3 - i)) as u32)) as u8
}

/// The four bytes that carry `word` on the wire.
pub open spec fn wire_bytes(word: u32) -> Seq<u8> {
    seq![
        reflected(be_byte(word, 0)),
        reflected(be_byte(word, 1)),
        reflected(be_byte(word, 2)),
        reflected(be_byte(word, 3)),
    ]
}

/// The word that four bytes from the wire carry.
pub open spec fn wire_word(b: Seq<u8>) -> u32 {
    (reflected(b[0]) as u32) << 24 | (reflected(b[1]) as u32) << 16 | (reflected(b[2]) as u32)
        << 8 | (reflected(b[3]) as u32)
}

/// The bytes that carry `words` on the wire, four per word.
pub open spec fn wire_order(words: Seq<u32>) -> Seq<u8> {
    Seq::new(4 * words.len(), |i: int| reflected(be_byte(words[i / 4], i % 4)))
}

/// The words that `bytes` from the wire carry, one per four bytes.
pub open spec fn wire_words(bytes: Seq<u8>) -> Seq<u32> {
    Seq::new(bytes.len() / 4, |i: int| wire_word(bytes.subrange(4 * i, 4 * i + 4)))
}

proof fn lemma_wire_roundtrip(w: u32, b0: u8, b1: u8, b2: u8, b3: u8)
    by (bit_vector)
    requires
        b0 == reflected((w >> 24u32) as u8),
        b1 == reflected((w >> 16u32) as u8),
        b2 == reflected((w >> 8u32) as u8),
        b3 == reflected((w >> 0u32) as u8),
    ensures
        (reflected(b0) as u32) << 24 | (reflected(b1) as u32) << 16 | (reflected(b2) as u32) << 8
            | (reflected(b3) as u32) == w,
{
}

proof fn lemma_wire_back(v: u32, b0: u8, b1: u8, b2: u8, b3: u8)
    by (bit_vector)
    requires
        v == (reflected(b0) as u32) << 24 | (reflected(b1) as u32) << 16 | (reflected(b2) as u32)
            << 8 | (reflected(b3) as u32),
    ensures
        reflected((v >> 24u32) as u8) == b0,
        reflected((v >> 16u32) as u8) == b1,
        reflected((v >> 8u32) as u8) == b2,
        reflected((v >> 0u32) as u8) == b3,
{
}

/// A word that went to wire order and came back is the word it was.
pub proof fn lemma_wire_word_roundtrip(word: u32)
    ensures
        wire_word(wire_bytes(word)) == word,
{
    let b = wire_bytes(word);
    lemma_wire_roundtrip(word, b[0], b[1], b[2], b[3]);
}

/// Four bytes that came from the wire as a word and went back are the bytes
/// they were.
pub proof fn lemma_wire_bytes_roundtrip(b: Seq<u8>)
    requires
        b.len() == 4,
    ensures
        wire_bytes(wire_word(b)) == b,
{
    lemma_wire_back(wire_word(b), b[0], b[1], b[2], b[3]);
    assert(wire_bytes(wire_word(b)) =~= b);
}

/// Words that went to wire order and came back are the words they were.
pub proof fn lemma_wire_order_roundtrip(words: Seq<u32>)
    ensures
        wire_words(wire_order(words)) == words,
{
    let bytes = wire_order(words);
    assert forall|i: int| 0 <= i < words.len() implies wire_words(bytes)[i] == words[i] by {
        let four = bytes.subrange(4 * i, 4 * i + 4);
        assert(four =~= wire_bytes(words[i])) by {
            assert forall|j: int| 0 <= j < 4 implies four[j] == wire_bytes(words[i])[j] by {
                assert((4 * i + j) / 4 == i);
                assert((4 * i + j) % 4 == j);
            }
        }
        lemma_wire_word_roundtrip(words[i]);
    }
    assert(wire_words(bytes) =~= words);
}

/// The bytes that carry `words` on the wire: each word most significant
/// byte first, each byte with its bits reflected.
pub fn bitstream_to_wire_order(words: &[u32]) -> (r: Vec<u8>)
    ensures
        r@ == wire_order(words@),
{
    let mut out: Vec<u8> = Vec::new();
    let mut i: usize = 0;
    while i < words.len()
        invariant
            i <= words@.len(),
            out@.len() == 4 * i,
            forall|k: int| 0 <= k < 4 * i ==> out@[k] == wire_order(words@)[k],
        decreases words@.len() - i,
    {
        let w = words[i];
        out.push(reflect((w >> 24) as u8));
        out.push(reflect((w >> 16) as u8));
        out.push(reflect((w >> 8) as u8));
        out.push(reflect(w as u8));
        proof {
            assert(w >> 0u32 == w) by (bit_vector);
            assert forall|k: int| 4 * i <= k < 4 * i + 4 implies out@[k] == wire_order(
                words@,
            )[k] by {
                assert(k / 4 == i);
            }
        }
        i = i + 1;
    }
    proof {
        assert(out@ =~= wire_order(words@));
    }
    out
}

/// The words that `bytes` from the wire carry. Bytes beyond the last
/// multiple of four are left out.
pub fn wire_order_to_words(bytes: &[u8]) -> (r: Vec<u32>)
    ensures
        r@ == wire_words(bytes@),
{
    let n = bytes.len() / 4;
    let mut out: Vec<u32> = Vec::new();
    let mut i: usize = 0;
    while i < n
        invariant
            i <= n,
            n == bytes@.len() / 4,
            4 * n <= bytes@.len() <= usize::MAX,
            out@.len() == i,
            forall|k: int| 0 <= k < i ==> out@[k] == wire_words(bytes@)[k],
        decreases n - i,
    {
        assert(4 * i + 3 < bytes@.len());
        let at: usize = 4 * i;
        let b0 = reflect(bytes[at]);
        let b1 = reflect(bytes[at + 1]);
        let b2 = reflect(bytes[at + 2]);
        let b3 = reflect(bytes[at + 3]);
        let w = (b0 as u32) << 24 | (b1 as u32) << 16 | (b2 as u32) << 8 | (b3 as u32);
        proof {
            assert(bytes@.subrange(4 * i, 4 * i + 4)[0] == bytes@[at as int]);
        }
        out.push(w);
        i = i + 1;
    }
    proof {
        assert(out@ =~= wire_words(bytes@));
    }
    out
}

/// Whether the instruction register is made of one to five slots of six
/// bits.
pub open spec fn slotted(irlen: u8) -> bool {
    6 <= irlen <= 30 && irlen % 6 == 0
}

/// The instruction word of `slots` slots from slot `from` on: `cmd` in the
/// slot `only`, or in every slot where `only` is `None`; the no-operation
/// instruction in the others.
pub open spec fn slots_word(cmd: u8, slots: nat, only: Option<u8>, from: nat) -> nat
    decreases slots - from,
{
    if from >= slots {
        0
    } else {
        let here = match only {
            Some(k) => if k == from {
                cmd % 64
            } else {
                commands::SLR_NOOP
            },
            None => cmd % 64,
        };
        (here + 64 * slots_word(cmd, slots, only, from + 1)) as nat
    }
}

/// The instruction word for a register of `irlen` bits.
pub open spec fn ir_word(irlen: u8, cmd: u8, only: Option<u8>) -> nat {
    slots_word(cmd, (irlen / 6) as nat, only, 0)
}

proof fn lemma_slots_bound(cmd: u8, slots: nat, only: Option<u8>, from: nat)
    requires
        from <= slots <= 5,
    ensures
        slots_word(cmd, slots, only, from) < pow64((slots - from) as nat),
    decreases slots - from,
{
    if from < slots {
        lemma_slots_bound(cmd, slots, only, from + 1);
    }
}

/// 64 to the power of `n`, for `n` up to five.
pub open spec fn pow64(n: nat) -> nat {
    if n == 0 {
        1
    } else if n == 1 {
        64
    } else if n == 2 {
        4096
    } else if n == 3 {
        262144
    } else if n == 4 {
        16777216
    } else {
        1073741824
    }
}

proof fn lemma_fits_irlen(v: u32, irlen: u8)
    by (bit_vector)
    requires
        6 <= irlen <= 30,
        irlen % 6 == 0,
        irlen == 6 ==> v < 64,
        irlen == 12 ==> v < 4096,
        irlen == 18 ==> v < 262144,
        irlen == 24 ==> v < 16777216,
        irlen == 30 ==> v < 1073741824,
    ensures
        v >> (irlen as u32) == 0,
{
}

/// The instruction word for a register of `irlen` bits: `cmd` in every
/// six-bit slot, or in the slot `only` with the no-operation instruction in
/// the others.
pub fn instruction(irlen: u8, cmd: u8, only: Option<u8>) -> (r: u32)
    requires
        slotted(irlen),
    ensures
        r == ir_word(irlen, cmd, only),
        r >> (irlen as u32) == 0,
{
    let slots = irlen / 6;
    let mut word: u32 = 0;
    let mut k: u8 = slots;
    while k > 0
        invariant
            k <= slots <= 5,
            word == slots_word(cmd, slots as nat, only, k as nat),
            word < pow64((slots - k) as nat),
        decreases k,
    {
        k = k - 1;
        let here: u32 = match only {
            Some(o) => if o == k {
                (cmd % 64) as u32
            } else {
                commands::SLR_NOOP as u32
            },
            None => (cmd % 64) as u32,
        };
        proof {
            lemma_slots_bound(cmd, slots as nat, only, (k + 1) as nat);
        }
        word = here + 64 * word;
    }
    proof {
        lemma_fits_irlen(word, irlen);
    }
    word
}

/// Whether the protocol of this module applies to the device: a Xilinx
/// device with an instruction register of one to five six-bit slots.
pub open spec fn supported(info: DeviceInfo) -> bool {
    info.specific is Xilinx32 && slotted(info.irlen.0)
}

/// Whether the protocol of this module applies to the device.
pub fn supports(info: &DeviceInfo) -> (r: bool)
    ensures
        r == supported(*info),
{
    let xilinx = match info.specific {
        Specific::Xilinx32(_) => true,
        Specific::Unknown => false,
    };
    xilinx && 6 <= info.irlen.0 && info.irlen.0 <= 30 && info.irlen.0 % 6 == 0
}

/// An instruction command.
pub open spec fn ir(tdi: nat) -> CommandView {
    CommandView { notify: false, inner: CommandKind::IrTxBits { tdi: tdi as u32 } }
}

/// A command that writes bytes to the data register.
pub open spec fn dr_tx(tdi: Seq<u8>, notify: bool) -> CommandView {
    CommandView { notify, inner: CommandKind::DrTx { tdi } }
}

/// A command that reads bytes from the data register.
pub open spec fn dr_rx(len: nat) -> CommandView {
    CommandView { notify: false, inner: CommandKind::DrRx { len } }
}

/// A command that writes bytes to the data register and reads as many.
pub open spec fn dr_txrx(tdi: Seq<u8>) -> CommandView {
    CommandView { notify: false, inner: CommandKind::DrTxRx { tdi } }
}

/// A command that idles for the time of `len` bytes.
pub open spec fn idle(len: nat) -> CommandView {
    CommandView { notify: false, inner: CommandKind::Idle { len } }
}

/// The words that ask for `word_count` words of a configuration register:
/// synchronise, no operation, the read packet, two no operations.
pub open spec fn register_words(raw: u32) -> Seq<u32> {
    seq![Type1::SYNC, Type1::NOOP, raw, Type1::NOOP, Type1::NOOP]
}

/// The batch that reads a configuration register: the packets go in through
/// CFG_IN, the register comes out through CFG_OUT.
pub open spec fn register_batch(irlen: u8, raw: u32, word_count: u16, slr: Option<u8>) -> Seq<
    CommandView,
> {
    seq![
        ir(ir_word(irlen, commands::CFG_IN, slr)),
        dr_tx(wire_order(register_words(raw)), false),
        ir(ir_word(irlen, commands::CFG_OUT, slr)),
        dr_rx(4 * word_count as nat),
    ]
}

/// The words that start a readback: synchronise, no operation, the command
/// RCFG written to CMD, the frame address zero written to FAR, a read of
/// FDRO announced by a type-2 packet, two no operations.
pub open spec fn readback_words() -> Seq<u32> {
    seq![
        Type1::SYNC,
        Type1::NOOP,
        type1_word(2, 4, 1) as u32,
        0x0000_0004,
        type1_word(2, 1, 1) as u32,
        0x0000_0000,
        type1_word(1, 3, 0) as u32,
        type2_word(1, 0xff_ffff) as u32,
        Type1::NOOP,
        Type1::NOOP,
    ]
}

/// The batch that reads `len` bytes of configuration back.
pub open spec fn readback_batch(irlen: u8, len: nat) -> Seq<CommandView> {
    seq![
        ir(ir_word(irlen, commands::CFG_IN, None)),
        dr_tx(wire_order(readback_words()), false),
        ir(ir_word(irlen, commands::CFG_OUT, None)),
        dr_rx(len),
    ]
}

/// The batch that programs a bitstream: shut down, connect the
/// configuration input, shift the bitstream, start up.
pub open spec fn program_batch(irlen: u8, data: Seq<u8>) -> Seq<CommandView> {
    seq![
        ir(ir_word(irlen, commands::JSHUTDOWN, None)),
        ir(ir_word(irlen, commands::CFG_IN, None)),
        dr_tx(data, true),
        ir(ir_word(irlen, commands::JSTART, None)),
    ]
}

/// Byte `i` of `word`, least significant first.
pub open spec fn le_byte(word: u32, i: int) -> u8 {
    (word >> ((8 * i) as u32)) as u8
}

/// The four bytes of `word`, least significant first.
pub open spec fn le_bytes(word: u32) -> Seq<u8> {
    seq![le_byte(word, 0), le_byte(word, 1), le_byte(word, 2), le_byte(word, 3)]
}

/// The accesses of a batch to the analog-to-digital converter: each word
/// goes in while the answer to the one before comes out, then the port is
/// given ten bytes' time.
pub open spec fn xadc_accesses(words: Seq<u32>) -> Seq<CommandView>
    decreases words.len(),
{
    if words.len() == 0 {
        Seq::empty()
    } else {
        xadc_accesses(words.drop_last()) + seq![dr_txrx(le_bytes(words.last())), idle(10)]
    }
}

/// The batch that performs accesses to the analog-to-digital converter and
/// reads the answer to the last.
pub open spec fn xadc_batch(irlen: u8, words: Seq<u32>) -> Seq<CommandView> {
    seq![ir(ir_word(irlen, commands::XADC_DRP, None))] + xadc_accesses(words) + seq![dr_rx(4)]
}

/// The words of accesses to the analog-to-digital converter.
pub open spec fn drp_words(regs: Seq<drp::Command>) -> Seq<u32> {
    Seq::new(
        regs.len(),
        |i: int|
            drp::drp_word(
                regs[i].cmd.spec_code() as int,
                regs[i].addr.spec_code() as int,
                regs[i].data as int,
            ) as u32,
    )
}

/// What a batch of this module leaves of the controller, and what its
/// exchanges carry.
pub open spec fn ran<B: Backend>(
    before: &Controller<B>,
    after: &Controller<B>,
    r: Seq<Transfer>,
    batch: Seq<CommandView>,
) -> bool {
    &&& after.inv()
    &&& after.geometry() == before.geometry()
    &&& after.target() == before.target()
    &&& after.before() == before.before()
    &&& after.after() == before.after()
    &&& after.exit_reads() == before.exit_reads()
    &&& after.notifying() == before.notifying()
    &&& B::carried(r, before.held()) == before.geometry().run_cycles(
        batch,
        before.held(),
        before.exit_reads(),
    )
    &&& after.held() == level(
        before.geometry().run_cycles(batch, before.held(), before.exit_reads()),
        before.held(),
    )
    &&& total_read(r) == rx_total(batch)
    &&& after.expected() == rx_total(batch)
    &&& after.output() == Seq::<u8>::empty()
}

/// The controller is as it was.
pub open spec fn untouched<B: Backend>(before: &Controller<B>, after: &Controller<B>) -> bool {
    &&& after.inv()
    &&& after.geometry() == before.geometry()
    &&& after.target() == before.target()
    &&& after.before() == before.before()
    &&& after.after() == before.after()
    &&& after.exit_reads() == before.exit_reads()
    &&& after.notifying() == before.notifying()
    &&& after.held() == before.held()
    &&& after.expected() == before.expected()
    &&& after.output() == before.output()
}

/// Run the four commands of a register access, a readback or a programming.
fn run_four<B: Backend>(
    cont: &mut Controller<B>,
    a: Command<'_>,
    b: Command<'_>,
    c: Command<'_>,
    d: Command<'_>,
    progress: bool,
) -> (r: Vec<Transfer>)
    requires
        old(cont).inv(),
        old(cont).geometry().fits(a@),
        old(cont).geometry().fits(b@),
        old(cont).geometry().fits(c@),
        old(cont).geometry().fits(d@),
        a@.rx_len() + b@.rx_len() + c@.rx_len() + d@.rx_len() <= usize::MAX,
        a@.tx_len() + b@.tx_len() + c@.tx_len() + d@.tx_len() <= usize::MAX,
    ensures
        ran(old(cont), final(cont), r@, seq![a@, b@, c@, d@]),
        total_notify(r@) == if progress || old(cont).notifying() {
            notify_total(seq![a@, b@, c@, d@])
        } else {
            0
        },
{
    let batch = [a, b, c, d];
    let commands = batch.as_slice();
    proof {
        assert(views(commands@) =~= seq![a@, b@, c@, d@]);
        lemma_totals_four(a@, b@, c@, d@);
    }
    if progress {
        cont.with_notifications(commands)
    } else {
        cont.run(commands)
    }
}

/// Queue the read of a configuration register of every super logic region
/// at once and hand out the exchanges. The reply holds `reg.word_count`
/// words in wire order.
///
/// Fails, with the controller untouched, exactly where the target is no
/// device that this protocol applies to.
pub fn read_register<B: Backend>(cont: &mut Controller<B>, reg: Type1) -> (r: Result<
    Vec<Transfer>,
    Error,
>)
    requires
        old(cont).inv(),
        reg.word_count < 0x800,
    ensures
        match r {
            Ok(t) => supported(old(cont).target().1) && ran(
                old(cont),
                final(cont),
                t@,
                register_batch(
                    old(cont).geometry().irlen,
                    type1_word(
                        reg.op.spec_code() as int,
                        reg.addr.spec_code() as int,
                        reg.word_count as int,
                    ) as u32,
                    reg.word_count,
                    None,
                ),
            ),
            Err(e) => e == Error::Unsupported && !supported(old(cont).target().1) && untouched(
                old(cont),
                final(cont),
            ),
        },
{
    read_register_slr(cont, reg, None)
}

/// Queue the read of a configuration register and hand out the exchanges.
/// With `slr` the instructions go to that super logic region alone and the
/// others are told to do nothing.
pub fn read_register_slr<B: Backend>(
    cont: &mut Controller<B>,
    reg: Type1,
    slr: Option<u8>,
) -> (r: Result<Vec<Transfer>, Error>)
    requires
        old(cont).inv(),
        reg.word_count < 0x800,
    ensures
        match r {
            Ok(t) => supported(old(cont).target().1) && ran(
                old(cont),
                final(cont),
                t@,
                register_batch(
                    old(cont).geometry().irlen,
                    type1_word(
                        reg.op.spec_code() as int,
                        reg.addr.spec_code() as int,
                        reg.word_count as int,
                    ) as u32,
                    reg.word_count,
                    slr,
                ),
            ),
            Err(e) => e == Error::Unsupported && !supported(old(cont).target().1) && untouched(
                old(cont),
                final(cont),
            ),
        },
{
    let info = *cont.info();
    if !supports(&info) {
        return Err(Error::Unsupported);
    }
    let irlen = info.irlen.0;
    let raw = reg.to_raw();
    let words = [Type1::SYNC, Type1::NOOP, raw, Type1::NOOP, Type1::NOOP];
    let bytes = bitstream_to_wire_order(words.as_slice());
    proof {
        assert(words@ =~= register_words(raw));
    }
    let t = run_four(
        cont,
        Command::ir(instruction(irlen, commands::CFG_IN, slr)),
        Command::dr_tx(bytes.as_slice()),
        Command::ir(instruction(irlen, commands::CFG_OUT, slr)),
        Command::dr_rx(Bytes(4 * reg.word_count as usize)),
        false,
    );
    Ok(t)
}

/// Queue a readback of `len` bytes of configuration and hand out the
/// exchanges. The word count announced to the device is larger than any
/// readback; the device stops when the shift ends.
pub fn readback<B: Backend>(cont: &mut Controller<B>, len: Bytes<usize>) -> (r: Result<
    Vec<Transfer>,
    Error,
>)
    requires
        old(cont).inv(),
        8 * len.0 <= usize::MAX,
    ensures
        match r {
            Ok(t) => supported(old(cont).target().1) && ran(
                old(cont),
                final(cont),
                t@,
                readback_batch(old(cont).geometry().irlen, len.0 as nat),
            ),
            Err(e) => e == Error::Unsupported && !supported(old(cont).target().1) && untouched(
                old(cont),
                final(cont),
            ),
        },
{
    let info = *cont.info();
    if !supports(&info) {
        return Err(Error::Unsupported);
    }
    let irlen = info.irlen.0;
    let words = [
        Type1::SYNC,
        Type1::NOOP,
        Type1::new(OpCode::Write, Addr::Cmd, 1).to_raw(),
        0x0000_0004,
        Type1::new(OpCode::Write, Addr::Far, 1).to_raw(),
        0x0000_0000,
        Type1::new(OpCode::Read, Addr::Fdro, 0).to_raw(),
        registers::type2(OpCode::Read, 0xffffff),
        Type1::NOOP,
        Type1::NOOP,
    ];
    let bytes = bitstream_to_wire_order(words.as_slice());
    proof {
        assert(words@ =~= readback_words());
    }
    let t = run_four(
        cont,
        Command::ir(instruction(irlen, commands::CFG_IN, None)),
        Command::dr_tx(bytes.as_slice()),
        Command::ir(instruction(irlen, commands::CFG_OUT, None)),
        Command::dr_rx(len),
        false,
    );
    Ok(t)
}

/// Queue the programming of a bitstream and hand out the exchanges. `data`
/// holds the bitstream with the bits of every byte reflected already. With
/// `progress` the exchanges report the bytes of the bitstream as they are
/// written.
pub fn program<B: Backend>(cont: &mut Controller<B>, data: &[u8], progress: bool) -> (r: Result<
    Vec<Transfer>,
    Error,
>)
    requires
        old(cont).inv(),
        8 * data@.len() <= usize::MAX,
    ensures
        match r {
            Ok(t) => supported(old(cont).target().1) && ran(
                old(cont),
                final(cont),
                t@,
                program_batch(old(cont).geometry().irlen, data@),
            ) && total_notify(t@) == if progress || old(cont).notifying() {
                data@.len()
            } else {
                0
            },
            Err(e) => e == Error::Unsupported && !supported(old(cont).target().1) && untouched(
                old(cont),
                final(cont),
            ),
        },
{
    let info = *cont.info();
    if !supports(&info) {
        return Err(Error::Unsupported);
    }
    let irlen = info.irlen.0;
    let a = Command::ir(instruction(irlen, commands::JSHUTDOWN, None));
    let b = Command::ir(instruction(irlen, commands::CFG_IN, None));
    let c = Command::dr_tx_with_notification(data);
    let d = Command::ir(instruction(irlen, commands::JSTART, None));
    proof {
        crate::controller::lemma_notify_four(a@, b@, c@, d@);
    }
    let t = run_four(cont, a, b, c, d, progress);
    Ok(t)
}

/// What the accesses of a batch to the converter read and write, and that
/// each of them fits.
proof fn lemma_xadc_accesses(g: Geometry, words: Seq<u32>)
    ensures
        rx_total(xadc_accesses(words)) == 4 * words.len(),
        tx_total(xadc_accesses(words)) == 4 * words.len(),
        xadc_accesses(words).len() == 2 * words.len(),
        forall|i: int|
            0 <= i < xadc_accesses(words).len() ==> g.fits(#[trigger] xadc_accesses(words)[i]),
    decreases words.len(),
{
    if words.len() > 0 {
        let head = xadc_accesses(words.drop_last());
        let a = dr_txrx(le_bytes(words.last()));
        let b = idle(10);
        lemma_xadc_accesses(g, words.drop_last());
        lemma_totals_concat(head, seq![a, b]);
        lemma_totals_concat(seq![a], seq![b]);
        lemma_totals_one(a);
        lemma_totals_one(b);
        assert(seq![a] + seq![b] =~= seq![a, b]);
        assert forall|i: int| 0 <= i < xadc_accesses(words).len() implies g.fits(
            #[trigger] xadc_accesses(words)[i],
        ) by {
            if i < head.len() {
                assert(xadc_accesses(words)[i] == head[i]);
            }
        }
    }
}

/// Queue accesses to the analog-to-digital converter and hand out the
/// exchanges. The reply holds four bytes per access and four more: the word
/// that answers access `i`, least significant byte first, stands at
/// `4 * (i + 1)`, its low half the data of the register.
pub fn read_xadc<B: Backend>(cont: &mut Controller<B>, regs: &[drp::Command]) -> (r: Result<
    Vec<Transfer>,
    Error,
>)
    requires
        old(cont).inv(),
        4 * regs@.len() + 4 <= usize::MAX,
    ensures
        match r {
            Ok(t) => supported(old(cont).target().1) && ran(
                old(cont),
                final(cont),
                t@,
                xadc_batch(old(cont).geometry().irlen, drp_words(regs@)),
            ) && total_read(t@) == 4 * regs@.len() + 4,
            Err(e) => e == Error::Unsupported && !supported(old(cont).target().1) && untouched(
                old(cont),
                final(cont),
            ),
        },
{
    let info = *cont.info();
    if !supports(&info) {
        return Err(Error::Unsupported);
    }
    let irlen = info.irlen.0;
    let ghost words = drp_words(regs@);
    let mut bytes: Vec<u8> = Vec::new();
    let mut i: usize = 0;
    while i < regs.len()
        invariant
            i <= regs@.len(),
            4 * regs@.len() + 4 <= usize::MAX,
            bytes@.len() == 4 * i,
            words == drp_words(regs@),
            forall|k: int|
                0 <= k < i ==> bytes@.subrange(4 * k, 4 * k + 4) == le_bytes(#[trigger] words[k]),
        decreases regs@.len() - i,
    {
        let w = regs[i].to_bits();
        let ghost before = bytes@;
        bytes.push(w as u8);
        bytes.push((w >> 8) as u8);
        bytes.push((w >> 16) as u8);
        bytes.push((w >> 24) as u8);
        proof {
            assert(w >> 0u32 == w) by (bit_vector);
            assert(bytes@.subrange(4 * i, 4 * i + 4) =~= le_bytes(words[i as int]));
            assert forall|k: int| 0 <= k < i implies bytes@.subrange(4 * k, 4 * k + 4)
                == le_bytes(#[trigger] words[k]) by {
                assert(bytes@.subrange(4 * k, 4 * k + 4) =~= before.subrange(4 * k, 4 * k + 4));
            }
        }
        i = i + 1;
    }
    let first = Command::ir(instruction(irlen, commands::XADC_DRP, None));
    let mut batch: Vec<Command<'_>> = Vec::new();
    batch.push(first);
    let mut j: usize = 0;
    proof {
        assert(words.take(0) =~= Seq::<u32>::empty());
        assert(views(batch@) =~= seq![first@] + xadc_accesses(words.take(0)));
    }
    while j < regs.len()
        invariant
            j <= regs@.len(),
            bytes@.len() == 4 * regs@.len(),
            words.len() == regs@.len(),
            forall|k: int|
                0 <= k < regs@.len() ==> bytes@.subrange(4 * k, 4 * k + 4) == le_bytes(
                    #[trigger] words[k],
                ),
            views(batch@) == seq![first@] + xadc_accesses(words.take(j as int)),
        decreases regs@.len() - j,
    {
        let ghost before = views(batch@);
        let word = vstd::slice::slice_subrange(bytes.as_slice(), 4 * j, 4 * j + 4);
        batch.push(Command::dr_txrx(word));
        batch.push(Command::idle(Bytes(10)));
        proof {
            let done = words.take(j + 1);
            assert(done.drop_last() =~= words.take(j as int));
            assert(done.last() == words[j as int]);
            assert(word@ == le_bytes(words[j as int]));
            assert(views(batch@) =~= before + seq![dr_txrx(le_bytes(words[j as int])), idle(10)]);
            assert(views(batch@) =~= seq![first@] + xadc_accesses(done));
        }
        j = j + 1;
    }
    let ghost body = views(batch@);
    batch.push(Command::dr_rx(Bytes(4)));
    proof {
        let g = cont.geometry();
        assert(words.take(words.len() as int) =~= words);
        assert(views(batch@) =~= body + seq![dr_rx(4)]);
        assert(views(batch@) == xadc_batch(irlen, words));
        lemma_xadc_accesses(g, words);
        lemma_totals_concat(seq![first@], xadc_accesses(words));
        lemma_totals_concat(seq![first@] + xadc_accesses(words), seq![dr_rx(4)]);
        lemma_totals_one(first@);
        lemma_totals_one(dr_rx(4));
        assert forall|k: int| 0 <= k < views(batch@).len() implies g.fits(
            #[trigger] views(batch@)[k],
        ) by {
            if 1 <= k < views(batch@).len() - 1 {
                assert(views(batch@)[k] == xadc_accesses(words)[k - 1]);
            }
        }
    }
    Ok(cont.run(batch.as_slice()))
}

} // verus!
