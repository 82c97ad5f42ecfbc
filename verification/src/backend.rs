//! What a JTAG cable does, stated over the cycles it clocks.
//!
//! A cable driver never touches the cable: it turns TAP moves and shifts into
//! the USB exchanges of its cable and queues them. `flush` hands the
//! queue out. Whoever owns the USB device performs the exchanges in order and
//! collects the bytes they return.

use crate::jtag::{bit8, Path};
use crate::units::{Bits, Bytes};
use vstd::prelude::*;

verus! {

/// One clock cycle on the JTAG wires: the levels driven on TMS and TDI, and
/// whether TDO is sampled.
#[derive(Clone, Copy, Debug, PartialEq, Eq, Structural)]
pub struct Cycle {
    pub tms: bool,
    pub tdi: bool,
    pub tdo: bool,
}

/// What to shift through the selected register.
#[derive(Clone, Copy, Debug)]
pub enum Data<'a> {
    /// Shift these bytes in, least significant bit first; ignore TDO.
    Tx(&'a [u8]),
    /// Sample this many bytes of TDO; TDI rests at its last level.
    Rx(Bytes<usize>),
    /// Shift these bytes in and sample TDO on every cycle.
    TxRx(&'a [u8]),
    /// Hold TDI at a level for this many bytes' worth of cycles; ignore TDO.
    ConstantTx(bool, Bytes<usize>),
}

/// One USB exchange with the cable: bytes to send, and the number of bytes
/// the cable answers with.
#[derive(Debug)]
pub struct Transfer {
    /// The bytes to write to the cable.
    pub out: Vec<u8>,
    /// The number of JTAG cycles that `out` carries, on cables that are told
    /// it; zero on others.
    pub bits: usize,
    /// The number of bytes to read back once `out` is written.
    pub read_len: usize,
    /// The number of payload bytes in `out` whose writing is to be reported
    /// as progress.
    pub notify: usize,
}

/// Bit `k` of `v`.
pub open spec fn bit32(v: u32, k: int) -> bool {
    0 <= k < 32 && (v >> (k as u32)) & 1 == 1
}

/// The TDI level that rests on the wire after `wire`, where it rested at
/// `held` before.
pub open spec fn level(wire: Seq<Cycle>, held: bool) -> bool {
    if wire.len() == 0 {
        held
    } else {
        wire.last().tdi
    }
}

/// The TMS levels of the cycles, in order.
pub open spec fn tms_of(wire: Seq<Cycle>) -> Seq<bool> {
    Seq::new(wire.len(), |i: int| wire[i].tms)
}

/// The number of cycles that sample TDO.
pub open spec fn sampled(wire: Seq<Cycle>) -> nat
    decreases wire.len(),
{
    if wire.len() == 0 {
        0
    } else {
        sampled(wire.drop_last()) + if wire.last().tdo {
            1nat
        } else {
            0nat
        }
    }
}

/// Clocking a TMS path: TDI keeps the level it rests at and TDO is ignored.
pub open spec fn tms_cycles(path: Path, held: bool) -> Seq<Cycle> {
    Seq::new(path.len as nat, |i: int| Cycle { tms: path.bit(i), tdi: held, tdo: false })
}

/// Clocking an optional TMS path.
pub open spec fn entry_cycles(path: Option<Path>, held: bool) -> Seq<Cycle> {
    match path {
        Some(p) => tms_cycles(p, held),
        None => Seq::empty(),
    }
}

/// Shifting bytes, least significant bit first, with TMS low.
pub open spec fn byte_cycles(bytes: Seq<u8>, tdo: bool) -> Seq<Cycle> {
    Seq::new(
        8 * bytes.len(),
        |i: int| Cycle { tms: false, tdi: bit8(bytes[i / 8], i % 8), tdo },
    )
}

/// Holding TDI at `tdi` for `n` cycles with TMS low.
pub open spec fn constant_cycles(n: nat, tdi: bool, tdo: bool) -> Seq<Cycle> {
    Seq::new(n, |i: int| Cycle { tms: false, tdi, tdo })
}

/// Shifting the low `len` bits of `data`, least significant bit first, with
/// TMS low and TDO ignored.
pub open spec fn word_cycles(data: u32, len: nat) -> Seq<Cycle> {
    Seq::new(len, |i: int| Cycle { tms: false, tdi: bit32(data, i), tdo: false })
}

impl<'a> Data<'a> {
    /// The number of bytes that the payload spans.
    pub open spec fn len(self) -> nat {
        match self {
            Data::Tx(b) => b@.len(),
            Data::Rx(n) => n.0 as nat,
            Data::TxRx(b) => b@.len(),
            Data::ConstantTx(_, n) => n.0 as nat,
        }
    }

    /// The number of bytes of TDO that the payload asks for.
    pub open spec fn rx_len(self) -> nat {
        match self {
            Data::Tx(_) => 0,
            Data::Rx(n) => n.0 as nat,
            Data::TxRx(b) => b@.len(),
            Data::ConstantTx(_, _) => 0,
        }
    }

    /// The number of bytes that the payload writes to the device.
    pub open spec fn tx_len(self) -> nat {
        match self {
            Data::Tx(b) => b@.len(),
            Data::Rx(_) => 0,
            Data::TxRx(b) => b@.len(),
            Data::ConstantTx(_, _) => 0,
        }
    }

    /// The payload cycle by cycle, all with TMS low, where TDI rests at
    /// `held` when the shift begins.
    pub open spec fn payload(self, held: bool) -> Seq<Cycle> {
        match self {
            Data::Tx(b) => byte_cycles(b@, false),
            Data::Rx(n) => constant_cycles(8 * n.0 as nat, held, true),
            Data::TxRx(b) => byte_cycles(b@, true),
            Data::ConstantTx(tdi, n) => constant_cycles(8 * n.0 as nat, tdi, false),
        }
    }
}

/// A payload followed by the path that leaves the shift state.
///
/// Where neither part is empty, the last payload bit rides on the first TMS
/// edge of the path: JTAG shifts once more on the edge that leaves the shift
/// state. That cycle samples TDO only where the payload does and the cable
/// can (`exit_reads`). TDI rests at the last payload bit for the remainder
/// of the path.
pub open spec fn shift_cycles(
    payload: Seq<Cycle>,
    after: Option<Path>,
    held: bool,
    exit_reads: bool,
) -> Seq<Cycle> {
    match after {
        None => payload,
        Some(path) => if path.len > 0 && payload.len() > 0 {
            let last = payload.last();
            payload.drop_last().push(
                Cycle { tms: path.bit(0), tdi: last.tdi, tdo: last.tdo && exit_reads },
            ) + Seq::new(
                (path.len - 1) as nat,
                |i: int| Cycle { tms: path.bit(i + 1), tdi: last.tdi, tdo: false },
            )
        } else {
            payload + tms_cycles(path, level(payload, held))
        },
    }
}

/// The cycles of `bytes(before, data, after)` on a wire whose TDI rests at
/// `held`.
pub open spec fn bytes_cycles(
    before: Option<Path>,
    data: Data<'_>,
    after: Option<Path>,
    held: bool,
    exit_reads: bool,
) -> Seq<Cycle> {
    entry_cycles(before, held) + shift_cycles(
        data.payload(held),
        after,
        held,
        exit_reads,
    )
}

/// The cycles of `bits(before, data, len, after)` on a wire whose TDI rests
/// at `held`.
pub open spec fn bits_cycles(
    before: Option<Path>,
    data: u32,
    len: nat,
    after: Option<Path>,
    held: bool,
) -> Seq<Cycle> {
    entry_cycles(before, held) + shift_cycles(word_cycles(data, len), after, held, false)
}

/// A path, if given, holds at most eight bits.
pub open spec fn path_wf(path: Option<Path>) -> bool {
    path matches Some(p) ==> p.wf()
}

/// The total number of bytes that the exchanges read back.
pub open spec fn total_read(transfers: Seq<Transfer>) -> nat
    decreases transfers.len(),
{
    if transfers.len() == 0 {
        0
    } else {
        total_read(transfers.drop_last()) + transfers.last().read_len as nat
    }
}

/// The total number of written bytes that the exchanges report as progress.
pub open spec fn total_notify(transfers: Seq<Transfer>) -> nat
    decreases transfers.len(),
{
    if transfers.len() == 0 {
        0
    } else {
        total_notify(transfers.drop_last()) + transfers.last().notify as nat
    }
}

/// A cable that can clock JTAG cycles.
///
/// An implementation may close an exchange whenever its buffers fill; it
/// must close the last one on `flush`.
pub trait Backend: Sized {
    /// The driver's own invariant.
    spec fn inv(&self) -> bool;

    /// Every cycle asked for since the last `flush`.
    spec fn wire(&self) -> Seq<Cycle>;

    /// The level at which TDI rested at the last `flush`.
    spec fn start(&self) -> bool;

    /// The bytes of TDO asked for since the last `flush`.
    spec fn owed(&self) -> nat;

    /// The written payload bytes to report as progress since the last `flush`.
    spec fn progress(&self) -> nat;

    /// Whether payload bytes written from now on count as progress.
    spec fn notifying(&self) -> bool;

    /// Whether the cable can sample TDO on the clock edge that leaves a shift
    /// state.
    spec fn exit_reads(&self) -> bool;

    /// The cycles that the cable clocks when the exchanges are performed in
    /// order, on a wire whose TDI rests at `held`.
    spec fn carried(transfers: Seq<Transfer>, held: bool) -> Seq<Cycle>;

    /// Choose whether the payload bytes written from now on count as progress.
    fn notify(&mut self, on: bool)
        requires
            old(self).inv(),
        ensures
            final(self).inv(),
            final(self).notifying() == on,
            final(self).wire() == old(self).wire(),
            final(self).start() == old(self).start(),
            final(self).owed() == old(self).owed(),
            final(self).progress() == old(self).progress(),
            final(self).exit_reads() == old(self).exit_reads(),
    ;

    /// Clock the TMS sequence of `path`; TDI keeps its level.
    fn tms(&mut self, path: Path)
        requires
            old(self).inv(),
            path.wf(),
        ensures
            final(self).inv(),
            final(self).wire() == old(self).wire() + tms_cycles(path, level(old(self).wire(), old(self).start())),
            final(self).start() == old(self).start(),
            final(self).owed() == old(self).owed(),
            final(self).progress() == old(self).progress(),
            final(self).notifying() == old(self).notifying(),
            final(self).exit_reads() == old(self).exit_reads(),
    ;

    /// Clock `before`, shift `data`, and leave by `after`.
    fn bytes(&mut self, before: Option<Path>, data: Data<'_>, after: Option<Path>)
        requires
            old(self).inv(),
            path_wf(before),
            path_wf(after),
            old(self).owed() + data.rx_len() <= usize::MAX,
            old(self).progress() + data.tx_len() <= usize::MAX,
            8 * data.len() <= usize::MAX,
        ensures
            final(self).inv(),
            final(self).wire() == old(self).wire() + bytes_cycles(
                before,
                data,
                after,
                level(old(self).wire(), old(self).start()),
                old(self).exit_reads(),
            ),
            final(self).start() == old(self).start(),
            final(self).owed() == old(self).owed() + data.rx_len(),
            final(self).progress() == old(self).progress() + if old(self).notifying() {
                data.tx_len()
            } else {
                0
            },
            final(self).notifying() == old(self).notifying(),
            final(self).exit_reads() == old(self).exit_reads(),
    ;

    /// Clock `before`, shift the low `len` bits of `data`, least significant
    /// first, and leave by `after`.
    fn bits(&mut self, before: Option<Path>, data: u32, len: Bits<u8>, after: Option<Path>)
        requires
            old(self).inv(),
            path_wf(before),
            path_wf(after),
            len.0 <= 32,
        ensures
            final(self).inv(),
            final(self).wire() == old(self).wire() + bits_cycles(
                before,
                data,
                len.0 as nat,
                after,
                level(old(self).wire(), old(self).start()),
            ),
            final(self).start() == old(self).start(),
            final(self).owed() == old(self).owed(),
            final(self).progress() == old(self).progress(),
            final(self).notifying() == old(self).notifying(),
            final(self).exit_reads() == old(self).exit_reads(),
    ;

    /// Close the open exchange and hand out every exchange queued since the
    /// last `flush`, in order.
    fn flush(&mut self) -> (r: Vec<Transfer>)
        requires
            old(self).inv(),
        ensures
            final(self).inv(),
            Self::carried(r@, old(self).start()) == old(self).wire(),
            total_read(r@) == old(self).owed(),
            total_notify(r@) == old(self).progress(),
            final(self).wire() == Seq::<Cycle>::empty(),
            final(self).start() == level(old(self).wire(), old(self).start()),
            final(self).owed() == 0,
            final(self).progress() == 0,
            final(self).notifying() == old(self).notifying(),
            final(self).exit_reads() == old(self).exit_reads(),
    ;
}

/// The level at which TDI rests after the last cycle asked of `backend`.
pub open spec fn held<B: Backend>(backend: &B) -> bool {
    level(backend.wire(), backend.start())
}

} // verus!
