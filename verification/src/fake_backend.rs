//! A cable that is not there: it records the cycles it is asked for, answers
//! every read with one identification code, and draws what it recorded.

use crate::backend::{
    bits_cycles, bytes_cycles, level, total_notify, total_read, Backend, Data, Transfer,
};
use crate::bitbang::{emit, lemma_level_concat, BitSink, Payload};
use crate::jtag::{bit8, Path};
use crate::units::Bits;
use vstd::prelude::*;
use vstd::string::StringExecFns;

pub use crate::backend::Cycle;

verus! {

/// The cycles recorded since the last flush.
pub struct Recorder {
    cycles: Vec<Cycle>,
}

impl BitSink for Recorder {
    closed spec fn sink_inv(&self) -> bool {
        true
    }

    closed spec fn sunk(&self) -> Seq<Cycle> {
        self.cycles@
    }

    fn add_bit(&mut self, tms: bool, tdi: bool, tdo: bool) {
        self.cycles.push(Cycle { tms, tdi, tdo });
    }
}

/// A recording cable whose device answers with one identification code.
pub struct FakeBackend {
    /// Cycles handed out by earlier flushes and not drawn yet.
    history: Vec<Cycle>,
    pending: Recorder,
    /// How many of the pending cycles were drawn already.
    shown: usize,
    idcode: u32,
    read_len: usize,
    progress: usize,
    start: bool,
    held: bool,
    notifying: bool,
}

/// The byte that stands for a cycle in an exchange of the fake cable: TMS in
/// bit 0, TDI in bit 1, the sample flag in bit 2.
pub open spec fn cycle_of(byte: u8) -> Cycle {
    Cycle { tms: bit8(byte, 0), tdi: bit8(byte, 1), tdo: bit8(byte, 2) }
}

/// The cycles that an exchange of the fake cable stands for: one per byte.
pub open spec fn decode(out: Seq<u8>) -> Seq<Cycle> {
    Seq::new(out.len(), |i: int| cycle_of(out[i]))
}

/// The cycles of a sequence of exchanges of the fake cable.
pub open spec fn decode_all(transfers: Seq<Transfer>) -> Seq<Cycle>
    decreases transfers.len(),
{
    if transfers.len() == 0 {
        Seq::empty()
    } else {
        decode_all(transfers.drop_last()) + decode(transfers.last().out@)
    }
}

proof fn lemma_cycle_byte(tms: bool, tdi: bool, tdo: bool, byte: u8)
    by (bit_vector)
    requires
        byte == (if tms { 1u8 } else { 0u8 }) | (if tdi { 2u8 } else { 0u8 }) | (if tdo {
            4u8
        } else {
            0u8
        }),
    ensures
        ((byte >> 0u8) & 1 == 1) == tms,
        ((byte >> 1u8) & 1 == 1) == tdi,
        ((byte >> 2u8) & 1 == 1) == tdo,
{
}

/// The byte that stands for a cycle in an exchange of the fake cable.
pub fn encode_cycle(cycle: Cycle) -> (r: u8)
    ensures
        cycle_of(r) == cycle,
{
    let byte: u8 = (if cycle.tms { 1u8 } else { 0u8 }) | (if cycle.tdi { 2u8 } else { 0u8 }) | (
    if cycle.tdo {
        4u8
    } else {
        0u8
    });
    proof {
        lemma_cycle_byte(cycle.tms, cycle.tdi, cycle.tdo, byte);
    }
    byte
}

/// Byte `i` of `word`, least significant first.
pub open spec fn le_byte(word: u32, i: int) -> u8 {
    (word >> ((8 * i) as u32)) as u8
}

/// What the fake device answers to a read of `len` bytes: its identification
/// code, least significant byte first, where four bytes fit, and ones after.
pub open spec fn reply_of(idcode: u32, len: nat) -> Seq<u8> {
    Seq::new(
        len,
        |i: int|
            if len >= 4 && i < 4 {
                le_byte(idcode, i)
            } else {
                0xffu8
            },
    )
}

impl FakeBackend {
    /// A fake cable whose device identifies as `idcode`.
    pub fn new(idcode: u32) -> (r: Self)
        ensures
            r.inv(),
            r.wire() == Seq::<Cycle>::empty(),
            r.start(),
            r.owed() == 0,
            r.progress() == 0,
            !r.notifying(),
            r.idcode() == idcode,
            r.recorded() == Seq::<Cycle>::empty(),
    {
        Self {
            history: Vec::new(),
            pending: Recorder { cycles: Vec::new() },
            shown: 0,
            idcode,
            read_len: 0,
            progress: 0,
            start: true,
            held: true,
            notifying: false,
        }
    }

    /// The identification code the device answers with.
    pub closed spec fn idcode(&self) -> u32 {
        self.idcode
    }

    /// The cycles recorded and not drawn yet.
    pub closed spec fn recorded(&self) -> Seq<Cycle> {
        self.history@ + self.pending.cycles@.skip(self.shown as int)
    }

    /// Record one cycle.
    pub fn add_bit(&mut self, tms: bool, tdi: bool, tdo: bool)
        requires
            old(self).inv(),
        ensures
            final(self).inv(),
            final(self).wire() == old(self).wire().push(Cycle { tms, tdi, tdo }),
            final(self).recorded() == old(self).recorded().push(Cycle { tms, tdi, tdo }),
            final(self).start() == old(self).start(),
            final(self).owed() == old(self).owed(),
            final(self).progress() == old(self).progress(),
            final(self).notifying() == old(self).notifying(),
            final(self).idcode() == old(self).idcode(),
    {
        self.pending.add_bit(tms, tdi, tdo);
        self.held = tdi;
        proof {
            assert(self.recorded() =~= old(self).recorded().push(Cycle { tms, tdi, tdo }));
        }
    }

    /// What the device answers to a read of `len` bytes.
    pub fn reply(&self, len: usize) -> (r: Vec<u8>)
        ensures
            r@ == reply_of(self.idcode(), len as nat),
    {
        let mut buf: Vec<u8> = Vec::new();
        let mut i: usize = 0;
        while i < len
            invariant
                i <= len,
                buf@.len() == i,
                forall|k: int| 0 <= k < i ==> buf@[k] == reply_of(self.idcode, len as nat)[k],
            decreases len - i,
        {
            let byte = if len >= 4 && i < 4 {
                (self.idcode >> ((8 * i) as u32)) as u8
            } else {
                0xffu8
            };
            buf.push(byte);
            i = i + 1;
        }
        proof {
            assert(buf@ =~= reply_of(self.idcode, len as nat));
        }
        buf
    }

    /// Draw the cycles recorded since the last drawing, and forget them.
    pub fn consume_waveform(&mut self) -> (r: String)
        requires
            old(self).inv(),
            old(self).recorded().len() * 2 <= usize::MAX,
        ensures
            final(self).inv(),
            r@ == waveform(old(self).recorded()),
            final(self).recorded() == Seq::<Cycle>::empty(),
            final(self).wire() == old(self).wire(),
            final(self).start() == old(self).start(),
            final(self).owed() == old(self).owed(),
            final(self).progress() == old(self).progress(),
            final(self).notifying() == old(self).notifying(),
            final(self).idcode() == old(self).idcode(),
    {
        let mut all: Vec<Cycle> = Vec::new();
        let mut i: usize = 0;
        while i < self.history.len()
            invariant
                i <= self.history.len(),
                all@ == self.history@.take(i as int),
            decreases self.history.len() - i,
        {
            all.push(self.history[i]);
            proof {
                assert(self.history@.take(i + 1) =~= self.history@.take(i as int).push(
                    self.history@[i as int],
                ));
            }
            i = i + 1;
        }
        proof {
            assert(self.history@.take(self.history@.len() as int) =~= self.history@);
        }
        let mut j: usize = self.shown;
        let ghost rest = self.pending.cycles@.skip(self.shown as int);
        while j < self.pending.cycles.len()
            invariant
                self.shown <= j <= self.pending.cycles.len(),
                rest == self.pending.cycles@.skip(self.shown as int),
                all@ == self.history@ + rest.take(j - self.shown),
            decreases self.pending.cycles.len() - j,
        {
            all.push(self.pending.cycles[j]);
            proof {
                assert(rest.take(j + 1 - self.shown) =~= rest.take(j - self.shown).push(
                    self.pending.cycles@[j as int],
                ));
            }
            j = j + 1;
        }
        proof {
            assert(rest.take(rest.len() as int) =~= rest);
        }
        let ret = write_cycles(all.as_slice());
        self.history = Vec::new();
        self.shown = self.pending.cycles.len();
        proof {
            assert(self.recorded() =~= Seq::<Cycle>::empty());
        }
        ret
    }
}

impl Backend for FakeBackend {
    closed spec fn inv(&self) -> bool {
        &&& self.held == level(self.pending.cycles@, self.start)
        &&& self.shown <= self.pending.cycles@.len()
    }

    closed spec fn wire(&self) -> Seq<Cycle> {
        self.pending.cycles@
    }

    closed spec fn start(&self) -> bool {
        self.start
    }

    closed spec fn owed(&self) -> nat {
        self.read_len as nat
    }

    closed spec fn progress(&self) -> nat {
        self.progress as nat
    }

    closed spec fn notifying(&self) -> bool {
        self.notifying
    }

    open spec fn exit_reads(&self) -> bool {
        true
    }

    open spec fn carried(transfers: Seq<Transfer>, held: bool) -> Seq<Cycle> {
        decode_all(transfers)
    }

    fn notify(&mut self, on: bool)
        ensures
            final(self).recorded() == old(self).recorded(),
            final(self).idcode() == old(self).idcode(),
    {
        self.notifying = on;
    }

    fn tms(&mut self, path: Path)
        ensures
            final(self).recorded() == old(self).recorded() + (final(self).wire().skip(
                old(self).wire().len() as int,
            )),
            final(self).idcode() == old(self).idcode(),
    {
        let ghost before = self.pending.cycles@;
        let ghost added = crate::backend::tms_cycles(path, self.held);
        crate::bitbang::clock_path(&mut self.pending, path, self.held);
        proof {
            lemma_level_concat(before, added, self.start);
            crate::bitbang::lemma_level_entry(Some(path), self.held);
            lemma_recorded(old(self).history@, before, added, self.shown as int);
        }
    }

    fn bytes(&mut self, before: Option<Path>, data: Data<'_>, after: Option<Path>)
        ensures
            final(self).recorded() == old(self).recorded() + (final(self).wire().skip(
                old(self).wire().len() as int,
            )),
            final(self).idcode() == old(self).idcode(),
    {
        let ghost wire = self.pending.cycles@;
        let ghost added = bytes_cycles(before, data, after, self.held, true);
        let payload = Payload::of(data, self.held);
        self.held = emit(&mut self.pending, before, payload, after, self.held);
        proof {
            lemma_level_concat(wire, added, self.start);
            lemma_recorded(old(self).history@, wire, added, self.shown as int);
        }
        match data {
            Data::Tx(b) => {
                if self.notifying {
                    self.progress = self.progress + b.len();
                }
            },
            Data::TxRx(b) => {
                self.read_len = self.read_len + b.len();
                if self.notifying {
                    self.progress = self.progress + b.len();
                }
            },
            Data::Rx(n) => {
                self.read_len = self.read_len + n.0;
            },
            Data::ConstantTx(_, _) => {},
        }
    }

    fn bits(&mut self, before: Option<Path>, data: u32, len: Bits<u8>, after: Option<Path>)
        ensures
            final(self).recorded() == old(self).recorded() + (final(self).wire().skip(
                old(self).wire().len() as int,
            )),
            final(self).idcode() == old(self).idcode(),
    {
        let ghost wire = self.pending.cycles@;
        let ghost added = bits_cycles(before, data, len.0 as nat, after, self.held);
        let payload = Payload::Word(data, len.0);
        proof {
            crate::bitbang::lemma_exit_unread(payload.cycles(), after, self.held);
        }
        self.held = emit(&mut self.pending, before, payload, after, self.held);
        proof {
            lemma_level_concat(wire, added, self.start);
            lemma_recorded(old(self).history@, wire, added, self.shown as int);
        }
    }

    fn flush(&mut self) -> (r: Vec<Transfer>)
        ensures
            final(self).recorded() == old(self).recorded(),
            final(self).idcode() == old(self).idcode(),
            r@.len() == 1,
            decode(r@[0].out@) == old(self).wire(),
    {
        let mut out: Vec<u8> = Vec::new();
        let mut i: usize = 0;
        while i < self.pending.cycles.len()
            invariant
                i <= self.pending.cycles.len(),
                out@.len() == i,
                decode(out@) == self.pending.cycles@.take(i as int),
                *self == *old(self),
            decreases self.pending.cycles.len() - i,
        {
            let c = self.pending.cycles[i];
            let ghost prev = out@;
            out.push(encode_cycle(c));
            proof {
                assert(decode(out@) =~= decode(prev).push(c));
                assert(self.pending.cycles@.take(i + 1) =~= self.pending.cycles@.take(
                    i as int,
                ).push(c));
            }
            i = i + 1;
        }
        let mut j: usize = self.shown;
        let ghost rest = self.pending.cycles@.skip(self.shown as int);
        while j < self.pending.cycles.len()
            invariant
                old(self).shown <= j <= self.pending.cycles.len(),
                rest == self.pending.cycles@.skip(old(self).shown as int),
                self.history@ == old(self).history@ + rest.take(j - old(self).shown),
                self.pending == old(self).pending,
                self.read_len == old(self).read_len,
                self.progress == old(self).progress,
                self.held == old(self).held,
                self.start == old(self).start,
                self.notifying == old(self).notifying,
                self.idcode == old(self).idcode,
            decreases self.pending.cycles.len() - j,
        {
            self.history.push(self.pending.cycles[j]);
            proof {
                assert(rest.take(j + 1 - old(self).shown) =~= rest.take(j - old(self).shown).push(
                    self.pending.cycles@[j as int],
                ));
            }
            j = j + 1;
        }
        proof {
            assert(rest.take(rest.len() as int) =~= rest);
            assert(self.pending.cycles@.take(self.pending.cycles@.len() as int)
                =~= self.pending.cycles@);
        }
        let transfer = Transfer {
            out,
            bits: self.pending.cycles.len(),
            read_len: self.read_len,
            notify: self.progress,
        };
        let mut ret: Vec<Transfer> = Vec::new();
        ret.push(transfer);
        proof {
            assert(ret@.drop_last() =~= Seq::<Transfer>::empty());
            assert(decode_all(ret@.drop_last()) =~= Seq::<Cycle>::empty());
            assert(decode_all(ret@) == decode_all(ret@.drop_last()) + decode(ret@.last().out@));
            assert(decode_all(ret@) =~= self.pending.cycles@);
            assert(total_read(ret@) == self.read_len) by {
                assert(total_read(ret@.drop_last()) == 0);
            }
            assert(total_notify(ret@) == self.progress) by {
                assert(total_notify(ret@.drop_last()) == 0);
            }
        }
        self.pending = Recorder { cycles: Vec::new() };
        self.shown = 0;
        self.read_len = 0;
        self.progress = 0;
        self.start = self.held;
        proof {
            assert(self.recorded() =~= old(self).recorded());
        }
        ret
    }
}

proof fn lemma_recorded(history: Seq<Cycle>, wire: Seq<Cycle>, added: Seq<Cycle>, shown: int)
    requires
        0 <= shown <= wire.len(),
    ensures
        history + (wire + added).skip(shown) == history + wire.skip(shown) + (wire + added).skip(
            wire.len() as int,
        ),
{
    assert(history + (wire + added).skip(shown) =~= history + wire.skip(shown) + (wire
        + added).skip(wire.len() as int));
}

/// One of the three JTAG signals a cycle records.
#[derive(Clone, Copy, Debug, PartialEq, Eq, Structural)]
pub enum Signal {
    Tms,
    Tdi,
    Tdo,
}

impl Signal {
    /// The level of the signal in `cycle`.
    pub open spec fn spec_of(self, cycle: Cycle) -> bool {
        match self {
            Signal::Tms => cycle.tms,
            Signal::Tdi => cycle.tdi,
            Signal::Tdo => cycle.tdo,
        }
    }

    /// The level of the signal in `cycle`.
    #[verifier::when_used_as_spec(spec_of)]
    pub fn of(self, cycle: Cycle) -> (r: bool)
        ensures
            r == self.spec_of(cycle),
    {
        match self {
            Signal::Tms => cycle.tms,
            Signal::Tdi => cycle.tdi,
            Signal::Tdo => cycle.tdo,
        }
    }
}

/// The upper half of one cycle of a drawn signal that was at `prev` and is
/// at `now`.
pub open spec fn glyph_top(prev: bool, now: bool) -> Seq<char> {
    if prev && now {
        "──"@
    } else if prev && !now {
        "─┐"@
    } else if !prev && now {
        " ┌"@
    } else {
        "  "@
    }
}

/// The lower half of one cycle of a drawn signal that was at `prev` and is
/// at `now`.
pub open spec fn glyph_bot(prev: bool, now: bool) -> Seq<char> {
    if prev && now {
        "  "@
    } else if prev && !now {
        " └"@
    } else if !prev && now {
        "─┘"@
    } else {
        "──"@
    }
}

/// The level of `signal` before cycle `i`: `start` before the first cycle.
pub open spec fn level_before(cycles: Seq<Cycle>, signal: Signal, start: bool, i: int) -> bool {
    if i <= 0 {
        start
    } else {
        signal.spec_of(cycles[i - 1])
    }
}

/// The upper line of a drawn signal.
pub open spec fn wave_top(cycles: Seq<Cycle>, signal: Signal, start: bool) -> Seq<char>
    decreases cycles.len(),
{
    if cycles.len() == 0 {
        Seq::empty()
    } else {
        wave_top(cycles.drop_last(), signal, start) + glyph_top(
            level_before(cycles, signal, start, cycles.len() - 1),
            signal.spec_of(cycles.last()),
        )
    }
}

/// The lower line of a drawn signal.
pub open spec fn wave_bot(cycles: Seq<Cycle>, signal: Signal, start: bool) -> Seq<char>
    decreases cycles.len(),
{
    if cycles.len() == 0 {
        Seq::empty()
    } else {
        wave_bot(cycles.drop_last(), signal, start) + glyph_bot(
            level_before(cycles, signal, start, cycles.len() - 1),
            signal.spec_of(cycles.last()),
        )
    }
}

/// `n` copies of `s`, one after another.
pub open spec fn repeat(s: Seq<char>, n: nat) -> Seq<char>
    decreases n,
{
    if n == 0 {
        Seq::empty()
    } else {
        repeat(s, (n - 1) as nat) + s
    }
}

/// Append the two lines of one signal of `cycles` to `top` and `bot`.
pub fn write_waveform(
    cycles: &[Cycle],
    signal: Signal,
    start: bool,
    top: &mut String,
    bot: &mut String,
)
    ensures
        final(top)@ == old(top)@ + wave_top(cycles@, signal, start),
        final(bot)@ == old(bot)@ + wave_bot(cycles@, signal, start),
{
    let mut prev = start;
    let mut i: usize = 0;
    proof {
        assert(cycles@.take(0) =~= Seq::<Cycle>::empty());
        assert(top@ =~= old(top)@ + wave_top(cycles@.take(0), signal, start));
        assert(bot@ =~= old(bot)@ + wave_bot(cycles@.take(0), signal, start));
    }
    while i < cycles.len()
        invariant
            i <= cycles.len(),
            prev == level_before(cycles@, signal, start, i as int),
            top@ == old(top)@ + wave_top(cycles@.take(i as int), signal, start),
            bot@ == old(bot)@ + wave_bot(cycles@.take(i as int), signal, start),
        decreases cycles.len() - i,
    {
        let b = signal.of(cycles[i]);
        let ghost top0 = top@;
        let ghost bot0 = bot@;
        if prev && b {
            top.append("──");
            bot.append("  ");
        } else if prev && !b {
            top.append("─┐");
            bot.append(" └");
        } else if !prev && b {
            top.append(" ┌");
            bot.append("─┘");
        } else {
            top.append("  ");
            bot.append("──");
        }
        proof {
            let done = cycles@.take(i + 1);
            assert(done.drop_last() =~= cycles@.take(i as int));
            assert(done.last() == cycles@[i as int]);
            assert(level_before(done, signal, start, i as int) == prev);
            assert(top@ == top0 + glyph_top(prev, b));
            assert(bot@ == bot0 + glyph_bot(prev, b));
            assert(top@ =~= old(top)@ + wave_top(done, signal, start));
            assert(bot@ =~= old(bot)@ + wave_bot(done, signal, start));
        }
        prev = b;
        i = i + 1;
    }
    proof {
        assert(cycles@.take(cycles@.len() as int) =~= cycles@);
    }
}

/// Append `n` copies of `s` to `line`.
fn write_repeat(line: &mut String, s: &str, n: usize)
    ensures
        final(line)@ == old(line)@ + repeat(s@, n as nat),
{
    let mut i: usize = 0;
    proof {
        assert(line@ =~= old(line)@ + repeat(s@, 0));
    }
    while i < n
        invariant
            i <= n,
            line@ == old(line)@ + repeat(s@, i as nat),
        decreases n - i,
    {
        line.append(s);
        proof {
            assert(line@ =~= old(line)@ + repeat(s@, (i + 1) as nat));
        }
        i = i + 1;
    }
}

/// Append the two lines of `len` clock pulses to `top` and `bot`.
pub fn write_clk(len: usize, top: &mut String, bot: &mut String)
    ensures
        final(top)@ == old(top)@ + repeat("┌┐"@, len as nat),
        final(bot)@ == old(bot)@ + repeat("┘└"@, len as nat),
{
    write_repeat(top, "┌┐", len);
    write_repeat(bot, "┘└", len);
}

/// The width of the frame above and below the waves: two columns per cycle,
/// less the five that the word in the header takes.
pub open spec fn frame_width(n: nat) -> nat {
    if 2 * n >= 5 {
        (2 * n - 5) as nat
    } else {
        0
    }
}

/// The drawing of `cycles`: a header, two lines each for the clock, TMS, TDI
/// and the TDO sample flag, and a footer. Every signal starts low.
pub open spec fn waveform(cycles: Seq<Cycle>) -> Seq<char> {
    let n = cycles.len();
    let edge = "│\n"@;
    let blank = "│       ││"@;
    "┌Signals┐┌Waves"@ + repeat("─"@, frame_width(n)) + "┐\n"@ + ("│tck    ││"@ + repeat(
        "┌┐"@,
        n,
    )) + edge + (blank + repeat("┘└"@, n)) + edge + ("│tms    ││"@ + wave_top(
        cycles,
        Signal::Tms,
        false,
    )) + edge + (blank + wave_bot(cycles, Signal::Tms, false)) + edge + ("│tdi    ││"@ + wave_top(
        cycles,
        Signal::Tdi,
        false,
    )) + edge + (blank + wave_bot(cycles, Signal::Tdi, false)) + edge + ("│tdo    ││"@ + wave_top(
        cycles,
        Signal::Tdo,
        false,
    )) + edge + (blank + wave_bot(cycles, Signal::Tdo, false)) + edge + "└───────┘└─────"@
        + repeat("─"@, frame_width(n)) + "┘\n"@
}

fn write_row(ret: &mut String, line: &String)
    ensures
        final(ret)@ == old(ret)@ + line@ + "│\n"@,
{
    ret.append(line.as_str());
    ret.append("│\n");
}

/// Draw `cycles` as a timing diagram.
pub fn write_cycles(cycles: &[Cycle]) -> (r: String)
    requires
        cycles@.len() * 2 <= usize::MAX,
    ensures
        r@ == waveform(cycles@),
{
    let mut tck_top = String::from_str("│tck    ││");
    let mut tck_bot = String::from_str("│       ││");
    write_clk(cycles.len(), &mut tck_top, &mut tck_bot);
    let mut tms_top = String::from_str("│tms    ││");
    let mut tms_bot = String::from_str("│       ││");
    write_waveform(cycles, Signal::Tms, false, &mut tms_top, &mut tms_bot);
    let mut tdi_top = String::from_str("│tdi    ││");
    let mut tdi_bot = String::from_str("│       ││");
    write_waveform(cycles, Signal::Tdi, false, &mut tdi_top, &mut tdi_bot);
    let mut tdo_top = String::from_str("│tdo    ││");
    let mut tdo_bot = String::from_str("│       ││");
    write_waveform(cycles, Signal::Tdo, false, &mut tdo_top, &mut tdo_bot);
    let wave_width = cycles.len() * 2;
    let frame = if wave_width >= 5 {
        wave_width - 5
    } else {
        0
    };
    let mut ret = String::from_str("┌Signals┐┌Waves");
    write_repeat(&mut ret, "─", frame);
    ret.append("┐\n");
    write_row(&mut ret, &tck_top);
    write_row(&mut ret, &tck_bot);
    write_row(&mut ret, &tms_top);
    write_row(&mut ret, &tms_bot);
    write_row(&mut ret, &tdi_top);
    write_row(&mut ret, &tdi_bot);
    write_row(&mut ret, &tdo_top);
    write_row(&mut ret, &tdo_bot);
    ret.append("└───────┘└─────");
    write_repeat(&mut ret, "─", frame);
    ret.append("┘\n");
    ret
}

} // verus!
