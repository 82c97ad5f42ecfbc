//! Shifting one cycle at a time, for cables that are driven bit by bit.

use crate::backend::{
    byte_cycles, constant_cycles, entry_cycles, level, sampled, shift_cycles, tms_cycles,
    word_cycles, Cycle, Data,
};
use crate::jtag::Path;
use vstd::prelude::*;

verus! {

/// Something that takes JTAG cycles one at a time.
pub trait BitSink: Sized {
    /// The sink's own invariant.
    spec fn sink_inv(&self) -> bool;

    /// Every cycle taken since the sink was last emptied.
    spec fn sunk(&self) -> Seq<Cycle>;

    /// Take one cycle.
    fn add_bit(&mut self, tms: bool, tdi: bool, tdo: bool)
        requires
            old(self).sink_inv(),
        ensures
            final(self).sink_inv(),
            final(self).sunk() == old(self).sunk().push(Cycle { tms, tdi, tdo }),
    ;
}

/// A payload as the bit-by-bit drivers see it.
#[derive(Clone, Copy, Debug)]
pub enum Payload<'a> {
    /// Bytes to shift in, and whether TDO is sampled.
    Bytes(&'a [u8], bool),
    /// A number of cycles, the level of TDI, and whether TDO is sampled.
    Constant(usize, bool, bool),
    /// The low bits of a word: the word and the number of bits.
    Word(u32, u8),
}

impl<'a> Payload<'a> {
    /// The payload fits the machine and a word holds at most 32 bits.
    pub open spec fn wf(self) -> bool {
        match self {
            Payload::Bytes(b, _) => 8 * b@.len() <= usize::MAX,
            Payload::Constant(_, _, _) => true,
            Payload::Word(_, len) => len <= 32,
        }
    }

    /// The payload cycle by cycle, all with TMS low.
    pub open spec fn cycles(self) -> Seq<Cycle> {
        match self {
            Payload::Bytes(b, tdo) => byte_cycles(b@, tdo),
            Payload::Constant(n, tdi, tdo) => constant_cycles(n as nat, tdi, tdo),
            Payload::Word(data, len) => word_cycles(data, len as nat),
        }
    }

    /// Whether the cycles of the payload sample TDO.
    pub open spec fn reads(self) -> bool {
        match self {
            Payload::Bytes(_, tdo) => tdo,
            Payload::Constant(_, _, tdo) => tdo,
            Payload::Word(_, _) => false,
        }
    }

    /// The payload of `data` on a wire whose TDI rests at `held`.
    pub fn of(data: Data<'a>, held: bool) -> (r: Self)
        requires
            8 * data.len() <= usize::MAX,
        ensures
            r.wf(),
            r.cycles() == data.payload(held),
            r.reads() == (data is Rx || data is TxRx),
    {
        match data {
            Data::Tx(b) => Payload::Bytes(b, false),
            Data::TxRx(b) => Payload::Bytes(b, true),
            Data::Rx(n) => Payload::Constant(8 * n.0, held, true),
            Data::ConstantTx(tdi, n) => Payload::Constant(8 * n.0, tdi, false),
        }
    }

    /// The number of cycles.
    pub fn len_bits(&self) -> (r: usize)
        requires
            self.wf(),
        ensures
            r == self.cycles().len(),
    {
        match self {
            Payload::Bytes(b, _) => 8 * b.len(),
            Payload::Constant(n, _, _) => *n,
            Payload::Word(_, len) => *len as usize,
        }
    }

    /// The level of TDI in cycle `k`.
    pub fn tdi(&self, k: usize) -> (r: bool)
        requires
            self.wf(),
            k < self.cycles().len(),
        ensures
            r == self.cycles()[k as int].tdi,
            !self.cycles()[k as int].tms,
            self.cycles()[k as int].tdo == self.reads(),
    {
        match self {
            Payload::Bytes(b, _) => {
                let byte = b[k / 8];
                let shift: u8 = (k % 8) as u8;
                (byte >> shift) & 1 == 1
            },
            Payload::Constant(_, tdi, _) => *tdi,
            Payload::Word(data, _) => {
                let shift: u32 = k as u32;
                (*data >> shift) & 1 == 1
            },
        }
    }
}

/// Sampled cycles add up over a concatenation.
pub proof fn lemma_sampled_concat(a: Seq<Cycle>, b: Seq<Cycle>)
    ensures
        sampled(a + b) == sampled(a) + sampled(b),
    decreases b.len(),
{
    if b.len() == 0 {
        assert(a + b =~= a);
    } else {
        assert((a + b).drop_last() =~= a + b.drop_last());
        lemma_sampled_concat(a, b.drop_last());
    }
}

/// Cycles that all sample, or all do not, count their length or nothing.
pub proof fn lemma_sampled_uniform(w: Seq<Cycle>, tdo: bool)
    requires
        forall|i: int| 0 <= i < w.len() ==> w[i].tdo == tdo,
    ensures
        sampled(w) == if tdo {
            w.len()
        } else {
            0
        },
    decreases w.len(),
{
    if w.len() > 0 {
        lemma_sampled_uniform(w.drop_last(), tdo);
    }
}

/// A shift samples as many cycles as its payload does, where the cable can
/// sample on the leaving edge.
pub proof fn lemma_sampled_shift(payload: Seq<Cycle>, after: Option<Path>, held: bool, tdo: bool)
    requires
        forall|i: int| 0 <= i < payload.len() ==> payload[i].tdo == tdo,
    ensures
        sampled(shift_cycles(payload, after, held, true)) == if tdo {
            payload.len()
        } else {
            0
        },
{
    let w = shift_cycles(payload, after, held, true);
    match after {
        None => {
            lemma_sampled_uniform(payload, tdo);
        },
        Some(path) => {
            if path.len > 0 && payload.len() > 0 {
                let last = payload.last();
                let head = payload.drop_last().push(
                    Cycle { tms: path.bit(0), tdi: last.tdi, tdo: last.tdo },
                );
                let tail = Seq::new(
                    (path.len - 1) as nat,
                    |i: int| Cycle { tms: path.bit(i + 1), tdi: last.tdi, tdo: false },
                );
                assert(w =~= head + tail);
                lemma_sampled_concat(head, tail);
                lemma_sampled_uniform(head, tdo);
                lemma_sampled_uniform(tail, false);
            } else {
                let exit = tms_cycles(path, level(payload, held));
                lemma_sampled_concat(payload, exit);
                lemma_sampled_uniform(payload, tdo);
                lemma_sampled_uniform(exit, false);
            }
        },
    }
}

/// An operation that enters, shifts and leaves samples as many cycles as
/// its payload does.
pub proof fn lemma_sampled_op(
    before: Option<Path>,
    payload: Seq<Cycle>,
    after: Option<Path>,
    held: bool,
    tdo: bool,
)
    requires
        forall|i: int| 0 <= i < payload.len() ==> payload[i].tdo == tdo,
    ensures
        sampled(entry_cycles(before, held) + shift_cycles(payload, after, held, true))
            == if tdo {
            payload.len()
        } else {
            0
        },
{
    let e = entry_cycles(before, held);
    lemma_sampled_concat(e, shift_cycles(payload, after, held, true));
    lemma_sampled_uniform(e, false);
    lemma_sampled_shift(payload, after, held, tdo);
}

/// On a cable that samples on the leaving edge, a byte operation samples
/// eight cycles for every byte it reads.
pub proof fn lemma_sampled_bytes(
    before: Option<Path>,
    data: Data<'_>,
    after: Option<Path>,
    held: bool,
)
    ensures
        sampled(crate::backend::bytes_cycles(before, data, after, held, true)) == 8
            * data.rx_len(),
{
    let tdo = data is Rx || data is TxRx;
    lemma_sampled_op(before, data.payload(held), after, held, tdo);
}

/// A bit operation samples nothing.
pub proof fn lemma_sampled_bits(
    before: Option<Path>,
    data: u32,
    len: nat,
    after: Option<Path>,
    held: bool,
)
    ensures
        sampled(crate::backend::bits_cycles(before, data, len, after, held)) == 0,
{
    lemma_exit_unread(word_cycles(data, len), after, held);
    lemma_sampled_op(before, word_cycles(data, len), after, held, false);
}

/// Clock the TMS bits of `path` with TDI at `tdi`.
pub fn clock_path<S: BitSink>(sink: &mut S, path: Path, tdi: bool)
    requires
        old(sink).sink_inv(),
        path.wf(),
    ensures
        final(sink).sink_inv(),
        final(sink).sunk() == old(sink).sunk() + tms_cycles(path, tdi),
{
    let mut i: u8 = 0;
    proof {
        assert(sink.sunk() =~= old(sink).sunk() + tms_cycles(path, tdi).take(0));
    }
    while i < path.len
        invariant
            path.wf(),
            i <= path.len,
            sink.sink_inv(),
            sink.sunk() == old(sink).sunk() + tms_cycles(path, tdi).take(i as int),
        decreases path.len - i,
    {
        let shift: u8 = path.len - 1 - i;
        let tms = (path.path >> shift) & 1 == 1;
        sink.add_bit(tms, tdi, false);
        proof {
            let all = tms_cycles(path, tdi);
            assert(all.take(i + 1) =~= all.take(i as int).push(all[i as int]));
            assert(sink.sunk() =~= old(sink).sunk() + all.take(i + 1));
        }
        i = i + 1;
    }
    proof {
        let all = tms_cycles(path, tdi);
        assert(all.take(path.len as int) =~= all);
    }
}

/// The rest of a leaving path after its first edge, with TDI at `tdi`.
pub open spec fn exit_tail(path: Path, tdi: bool) -> Seq<Cycle> {
    Seq::new((path.len - 1) as nat, |i: int| Cycle { tms: path.bit(i + 1), tdi, tdo: false })
}

/// Shift the payload cycles `from..to` with TMS low.
fn shift_plain<S: BitSink>(sink: &mut S, payload: &Payload<'_>, from: usize, to: usize)
    requires
        old(sink).sink_inv(),
        payload.wf(),
        from <= to <= payload.cycles().len(),
    ensures
        final(sink).sink_inv(),
        final(sink).sunk() == old(sink).sunk() + payload.cycles().subrange(from as int, to as int),
{
    let ghost all = payload.cycles();
    let reads = payload_reads(payload);
    let mut k: usize = from;
    proof {
        assert(sink.sunk() =~= old(sink).sunk() + all.subrange(from as int, from as int));
    }
    while k < to
        invariant
            payload.wf(),
            all == payload.cycles(),
            reads == payload.reads(),
            from <= k <= to <= all.len(),
            sink.sink_inv(),
            sink.sunk() == old(sink).sunk() + all.subrange(from as int, k as int),
        decreases to - k,
    {
        let tdi = payload.tdi(k);
        sink.add_bit(false, tdi, reads);
        proof {
            assert(all.subrange(from as int, k + 1) =~= all.subrange(from as int, k as int).push(
                all[k as int],
            ));
        }
        k = k + 1;
    }
}

/// Leave the shift state by `path`, the payload bit `tdi` riding on its first
/// edge.
fn shift_exit<S: BitSink>(sink: &mut S, path: Path, tdi: bool, tdo: bool)
    requires
        old(sink).sink_inv(),
        path.wf(),
        path.len > 0,
    ensures
        final(sink).sink_inv(),
        final(sink).sunk() == old(sink).sunk().push(Cycle { tms: path.bit(0), tdi, tdo })
            + exit_tail(path, tdi),
{
    let first = (path.path >> (path.len - 1)) & 1 == 1;
    sink.add_bit(first, tdi, tdo);
    let ghost head = old(sink).sunk().push(Cycle { tms: path.bit(0), tdi, tdo });
    let ghost tail = exit_tail(path, tdi);
    proof {
        assert(sink.sunk() =~= head + tail.take(0));
    }
    let mut i: u8 = 1;
    while i < path.len
        invariant
            path.wf(),
            1 <= i <= path.len,
            sink.sink_inv(),
            tail == exit_tail(path, tdi),
            sink.sunk() == head + tail.take(i - 1),
        decreases path.len - i,
    {
        let shift: u8 = path.len - 1 - i;
        let tms = (path.path >> shift) & 1 == 1;
        sink.add_bit(tms, tdi, false);
        proof {
            assert(tail.take(i as int) =~= tail.take(i - 1).push(tail[i - 1]));
        }
        i = i + 1;
    }
    proof {
        assert(tail.take(path.len - 1) =~= tail);
    }
}

/// A shift whose last bit rides on the leaving path, written out.
pub proof fn lemma_shift_merged(payload: Seq<Cycle>, path: Path, held: bool, exit_reads: bool)
    requires
        path.len > 0,
        payload.len() > 0,
    ensures
        shift_cycles(payload, Some(path), held, exit_reads) == payload.drop_last().push(
            Cycle {
                tms: path.bit(0),
                tdi: payload.last().tdi,
                tdo: payload.last().tdo && exit_reads,
            },
        ) + exit_tail(path, payload.last().tdi),
        level(shift_cycles(payload, Some(path), held, exit_reads), held)
            == payload.last().tdi,
{
    let tail = exit_tail(path, payload.last().tdi);
    let w = shift_cycles(payload, Some(path), held, exit_reads);
    if tail.len() > 0 {
        assert(w.last() == tail.last());
    }
}

/// A shift that leaves after its payload, written out.
pub proof fn lemma_shift_plain(
    payload: Seq<Cycle>,
    after: Option<Path>,
    held: bool,
    exit_reads: bool,
)
    requires
        after matches Some(p) ==> !(p.len > 0 && payload.len() > 0),
    ensures
        shift_cycles(payload, after, held, exit_reads) == payload + entry_cycles(
            after,
            level(payload, held),
        ),
        level(shift_cycles(payload, after, held, exit_reads), held) == level(
            payload,
            held,
        ),
{
    let exit = entry_cycles(after, level(payload, held));
    assert(payload + Seq::<Cycle>::empty() =~= payload);
    lemma_level_concat(payload, exit, held);
    if exit.len() > 0 {
        assert(exit.last().tdi == level(payload, held));
    }
}

/// A payload that samples nothing reads nothing on the leaving edge, whether
/// the cable could or not.
pub proof fn lemma_exit_unread(payload: Seq<Cycle>, after: Option<Path>, held: bool)
    requires
        forall|i: int| 0 <= i < payload.len() ==> !payload[i].tdo,
    ensures
        shift_cycles(payload, after, held, true) == shift_cycles(
            payload,
            after,
            held,
            false,
        ),
{
}

/// Clocking a path leaves TDI where it rested.
pub proof fn lemma_level_entry(path: Option<Path>, held: bool)
    ensures
        level(entry_cycles(path, held), held) == held,
{
    let w = entry_cycles(path, held);
    if w.len() > 0 {
        assert(w.last().tdi == held);
    }
}

proof fn lemma_assemble_merged(
    base: Seq<Cycle>,
    entry: Seq<Cycle>,
    all: Seq<Cycle>,
    c: Cycle,
    tail: Seq<Cycle>,
    n: int,
)
    requires
        all.len() > 0,
        n == all.len() - 1,
    ensures
        (base + entry + all.subrange(0, n)).push(c) + tail == base + (entry + (
        all.drop_last().push(c) + tail)),
{
    assert(all.subrange(0, n) =~= all.drop_last());
    assert((base + entry + all.subrange(0, n)).push(c) + tail =~= base + (entry + (
    all.drop_last().push(c) + tail)));
}

proof fn lemma_assemble_plain(
    base: Seq<Cycle>,
    entry: Seq<Cycle>,
    all: Seq<Cycle>,
    exit: Seq<Cycle>,
    n: int,
)
    requires
        n == all.len(),
    ensures
        base + entry + all.subrange(0, n) + exit == base + (entry + (all + exit)),
{
    assert(all.subrange(0, n) =~= all);
    assert(base + entry + all.subrange(0, n) + exit =~= base + (entry + (all + exit)));
}

/// Clock `before`, shift `payload` and leave by `after`, the last payload bit
/// riding on the first edge of `after`. Returns the level at which TDI rests
/// afterwards.
pub fn emit<S: BitSink>(
    sink: &mut S,
    before: Option<Path>,
    payload: Payload<'_>,
    after: Option<Path>,
    held: bool,
) -> (r: bool)
    requires
        old(sink).sink_inv(),
        before matches Some(p) ==> p.wf(),
        after matches Some(p) ==> p.wf(),
        payload.wf(),
    ensures
        final(sink).sink_inv(),
        final(sink).sunk() == old(sink).sunk() + (entry_cycles(before, held) + shift_cycles(
            payload.cycles(),
            after,
            held,
            true,
        )),
        r == level(
            entry_cycles(before, held) + shift_cycles(payload.cycles(), after, held, true),
            held,
        ),
{
    let ghost base = old(sink).sunk();
    let ghost entry = entry_cycles(before, held);
    let ghost all = payload.cycles();
    let ghost shifted = shift_cycles(all, after, held, true);
    match before {
        Some(p) => {
            clock_path(sink, p, held);
        },
        None => {
            proof {
                assert(base + Seq::<Cycle>::empty() =~= base);
            }
        },
    }
    assert(sink.sunk() == base + entry);
    proof {
        lemma_level_entry(before, held);
        lemma_level_concat(entry, shifted, held);
    }
    let total = payload.len_bits();
    let merge = match after {
        Some(p) => p.len > 0 && total > 0,
        None => false,
    };
    if merge {
        let p = after.unwrap();
        shift_plain(sink, &payload, 0, total - 1);
        let tdi = payload.tdi(total - 1);
        let reads = payload_reads(&payload);
        shift_exit(sink, p, tdi, reads);
        proof {
            lemma_shift_merged(all, p, held, true);
            lemma_assemble_merged(
                base,
                entry,
                all,
                Cycle { tms: p.bit(0), tdi, tdo: reads },
                exit_tail(p, tdi),
                total - 1,
            );
        }
        tdi
    } else {
        shift_plain(sink, &payload, 0, total);
        let cur = if total > 0 {
            payload.tdi(total - 1)
        } else {
            held
        };
        let ghost exit = entry_cycles(after, cur);
        proof {
            lemma_shift_plain(all, after, held, true);
            lemma_assemble_plain(base, entry, all, exit, total as int);
        }
        match after {
            Some(p) => {
                clock_path(sink, p, cur);
            },
            None => {
                proof {
                    assert(sink.sunk() + Seq::<Cycle>::empty() =~= sink.sunk());
                }
            },
        }
        cur
    }
}

fn payload_reads(payload: &Payload<'_>) -> (r: bool)
    ensures
        r == payload.reads(),
{
    match payload {
        Payload::Bytes(_, tdo) => *tdo,
        Payload::Constant(_, _, tdo) => *tdo,
        Payload::Word(_, _) => false,
    }
}

/// The level after a concatenation is the level after its second part,
/// starting from the level after the first.
pub proof fn lemma_level_concat(a: Seq<Cycle>, b: Seq<Cycle>, held: bool)
    ensures
        level(a + b, held) == level(b, level(a, held)),
{
    if b.len() == 0 {
        assert(a + b =~= a);
    } else {
        assert((a + b).last() == b.last());
    }
}

} // verus!
