//! The cable driver for the Xilinx Platform Cable.
//!
//! The cable takes a packed buffer in which every pair of bytes holds four
//! JTAG cycles:
//!
//! ```text
//! byte 0: ssss iiii    s: TMS, i: TDI
//! byte 1: oooo cccc    o: sample TDO, c: clock the cycle
//! ```
//!
//! Cycle 0 of a pair uses bit 0 of each nibble. One exchange is a vendor
//! request that announces the number of cycles, a bulk write of the packed
//! buffer and, where cycles sample TDO, a bulk read of one byte for every
//! eight sampled cycles.

use crate::backend::{
    bits_cycles, bytes_cycles, level, sampled, tms_cycles, total_notify, total_read, Backend,
    Cycle, Data, Transfer,
};
use crate::bitbang::{
    clock_path, emit, lemma_exit_unread, lemma_level_concat, lemma_level_entry,
    lemma_sampled_concat, lemma_sampled_uniform, BitSink, Payload,
};
use crate::jtag::{bit8, Path};
use crate::units::Bits;
use crate::usb::{copy, vendor_out, vendor_request, views, StepView, UsbStep, VENDOR_IN, VENDOR_OUT};
use vstd::prelude::*;

verus! {

/// The fill of the packed buffer at which the open exchange is closed once
/// the sampled cycles make up whole bytes.
pub const MAX_BUF_LEN: usize = 8192;

/// The fill of the packed buffer at which the open exchange is closed
/// whatever it holds.
pub const HARD_BUF_LEN: usize = 16384;

/// Cycle `i` of a packed buffer.
pub open spec fn unpack(buf: Seq<u8>, i: int) -> Cycle {
    Cycle {
        tms: bit8(buf[2 * (i / 4)], 4 + i % 4),
        tdi: bit8(buf[2 * (i / 4)], i % 4),
        tdo: bit8(buf[2 * (i / 4) + 1], 4 + i % 4),
    }
}

/// The first `n` cycles of a packed buffer.
pub open spec fn xpc_wire(buf: Seq<u8>, n: nat) -> Seq<Cycle> {
    Seq::new(n, |i: int| unpack(buf, i))
}

/// Whether a packed buffer tells the cable to clock cycle `i`.
pub open spec fn tck(buf: Seq<u8>, i: int) -> bool {
    bit8(buf[2 * (i / 4) + 1], i % 4)
}

/// Whether a packed buffer clocks each of its first `n` cycles and holds
/// just the pairs they take.
pub open spec fn clocked(buf: Seq<u8>, n: nat) -> bool {
    &&& buf.len() == 2 * ((n + 3) / 4)
    &&& forall|i: int| 0 <= i < n ==> #[trigger] tck(buf, i)
}

/// The cycles of a sequence of exchanges of the cable.
pub open spec fn queue_wire(transfers: Seq<Transfer>) -> Seq<Cycle>
    decreases transfers.len(),
{
    if transfers.len() == 0 {
        Seq::empty()
    } else {
        queue_wire(transfers.drop_last()) + xpc_wire(
            transfers.last().out@,
            transfers.last().bits as nat,
        )
    }
}

/// Every exchange is a packed buffer of at most 65535 cycles and little more
/// than 16,384 bytes that clocks each of its cycles and keeps the slots
/// behind the last free.
pub open spec fn queue_wf(transfers: Seq<Transfer>) -> bool {
    forall|i: int|
        0 <= i < transfers.len() ==> layout(
            (#[trigger] transfers[i]).out@,
            transfers[i].bits as nat,
        ) && transfers[i].bits <= 65535 && transfers[i].out@.len() <= HARD_BUF_LEN + 2
}

/// After every exchange the bytes read so far are an eighth of the cycles
/// sampled so far, rounded down: an exchange reads back one byte for every
/// eight cycles that were sampled and not read back before it.
pub open spec fn reads_tied(transfers: Seq<Transfer>) -> bool
    decreases transfers.len(),
{
    transfers.len() == 0 || (reads_tied(transfers.drop_last()) && 0 <= sampled(
        queue_wire(transfers),
    ) - 8 * total_read(transfers) < 8)
}

/// Every exchange but the last was closed because its packed buffer had
/// reached 8,192 bytes.
pub open spec fn closed_full(transfers: Seq<Transfer>) -> bool {
    forall|i: int|
        0 <= i < transfers.len() - 1 ==> (#[trigger] transfers[i]).out@.len() >= MAX_BUF_LEN
}

/// Whether slot `k` of a pair of bytes holds no cycle yet: none of its four
/// bits is set.
pub open spec fn free_slot(b0: u8, b1: u8, k: int) -> bool {
    !bit8(b0, k) && !bit8(b0, k + 4) && !bit8(b1, k) && !bit8(b1, k + 4)
}

proof fn lemma_pack_bit(b: u8, hi: bool, lo: bool, pos: u8, k: u8, r: u8)
    by (bit_vector)
    requires
        pos < 4,
        k < 8,
        r == b | ((if hi { 1u8 } else { 0u8 }) << ((pos + 4) as u8)) | ((if lo { 1u8 } else { 0u8 })
            << pos),
    ensures
        ((r >> k) & 1 == 1) == (if k == pos {
            (b >> k) & 1 == 1 || lo
        } else if k == pos + 4 {
            (b >> k) & 1 == 1 || hi
        } else {
            (b >> k) & 1 == 1
        }),
{
}

proof fn lemma_zero_bit(k: u8)
    by (bit_vector)
    requires
        k < 8,
    ensures
        (0u8 >> k) & 1 == 0,
{
}

/// The packed buffer of the open exchange and the exchanges closed before it.
pub struct Packer {
    buf: Vec<u8>,
    /// The number of cycles in the last pair of `buf`, where it is not full.
    pos: u8,
    /// The number of cycles in `buf`.
    nbits: usize,
    /// The sampled cycles that no exchange has been given a byte for yet.
    samples: usize,
    queue: Vec<Transfer>,
}

impl Packer {
    spec fn open_wire(&self) -> Seq<Cycle> {
        xpc_wire(self.buf@, self.nbits as nat)
    }

    #[verifier::opaque]
    spec fn inv(&self) -> bool {
        &&& self.pos < 4
        &&& self.pos == self.nbits % 4
        &&& self.buf@.len() <= HARD_BUF_LEN + 2
        &&& self.nbits <= 2 * self.buf@.len()
        &&& self.samples <= self.nbits + 7
        &&& layout(self.buf@, self.nbits as nat)
        &&& queue_wf(self.queue@)
        &&& 8 * total_read(self.queue@) + self.samples == sampled(self.all())
        &&& reads_tied(self.queue@)
        &&& total_notify(self.queue@) == 0
        &&& forall|i: int|
            0 <= i < self.queue@.len() ==> (#[trigger] self.queue@[i]).out@.len() >= MAX_BUF_LEN
    }

    spec fn all(&self) -> Seq<Cycle> {
        queue_wire(self.queue@) + self.open_wire()
    }

    fn new() -> (r: Self)
        ensures
            r.inv(),
            r.all() == Seq::<Cycle>::empty(),
            r.queue@.len() == 0,
    {
        let r = Packer { buf: Vec::new(), pos: 0, nbits: 0, samples: 0, queue: Vec::new() };
        proof {
            reveal(Packer::inv);
            assert(r.all() =~= Seq::<Cycle>::empty());
        }
        r
    }

    /// Close the open exchange and queue it. It reads back one byte for
    /// every eight sampled cycles; sampled cycles short of a byte are left
    /// for the next exchange.
    fn close(&mut self)
        requires
            old(self).inv(),
            old(self).buf@.len() >= MAX_BUF_LEN,
        ensures
            final(self).inv(),
            final(self).all() == old(self).all(),
            final(self).buf@.len() == 0,
            final(self).nbits == 0,
            final(self).samples == old(self).samples % 8,
            final(self).all() == queue_wire(final(self).queue@),
    {
        proof {
            reveal(Packer::inv);
        }
        let mut out: Vec<u8> = Vec::new();
        core::mem::swap(&mut self.buf, &mut out);
        let transfer = Transfer {
            out,
            bits: self.nbits,
            read_len: self.samples / 8,
            notify: 0,
        };
        let ghost sent = transfer;
        self.queue.push(transfer);
        self.samples = self.samples % 8;
        self.nbits = 0;
        self.pos = 0;
        proof {
            assert(self.queue@.drop_last() =~= old(self).queue@);
            assert forall|i: int| 0 <= i < self.queue@.len() implies (
            #[trigger] self.queue@[i]).out@.len() >= MAX_BUF_LEN by {
                if i < old(self).queue@.len() {
                    assert(self.queue@[i] == old(self).queue@[i]);
                } else {
                    assert(self.queue@[i] == sent);
                }
            }
            assert(self.open_wire() =~= Seq::<Cycle>::empty());
            assert(self.all() =~= old(self).all());
            assert(self.all() =~= queue_wire(self.queue@));
        }
    }

    /// Hand out the queued exchanges, the open one closed and among them
    /// unless it holds nothing. The last exchange reports `notify` bytes of
    /// progress.
    fn take(&mut self, notify: usize) -> (r: Vec<Transfer>)
        requires
            old(self).inv(),
            sampled(old(self).all()) % 8 == 0,
        ensures
            final(self).inv(),
            final(self).all() == Seq::<Cycle>::empty(),
            queue_wire(r@) == old(self).all(),
            queue_wf(r@),
            closed_full(r@),
            reads_tied(r@),
            8 * total_read(r@) == sampled(old(self).all()),
            total_notify(r@) == notify,
    {
        proof {
            reveal(Packer::inv);
        }
        let mut queue: Vec<Transfer> = Vec::new();
        core::mem::swap(&mut self.queue, &mut queue);
        if self.nbits == 0 && notify == 0 {
            proof {
                assert(old(self).open_wire() =~= Seq::<Cycle>::empty());
                assert(old(self).all() =~= queue_wire(queue@));
                assert(self.all() =~= Seq::<Cycle>::empty());
            }
            self.samples = 0;
            return queue;
        }
        let mut out: Vec<u8> = Vec::new();
        core::mem::swap(&mut self.buf, &mut out);
        let transfer = Transfer { out, bits: self.nbits, read_len: self.samples / 8, notify };
        queue.push(transfer);
        self.samples = 0;
        self.nbits = 0;
        self.pos = 0;
        proof {
            assert(queue@.drop_last() =~= old(self).queue@);
            assert(self.all() =~= Seq::<Cycle>::empty());
            assert(queue_wire(queue@) =~= old(self).all());
        }
        queue
    }
}

/// Whether a packed buffer holds `n` cycles, clocks each of them, and keeps
/// the rest of its last pair free.
pub open spec fn layout(buf: Seq<u8>, n: nat) -> bool {
    &&& clocked(buf, n)
    &&& n % 4 > 0 ==> forall|k: int|
        n % 4 <= k < 4 ==> #[trigger] free_slot(buf[buf.len() - 2], buf[buf.len() - 1], k)
}

/// What a packed buffer of `n` cycles looks like once cycle `n` is set in
/// its last pair.
spec fn packed(old_buf: Seq<u8>, buf: Seq<u8>, n: nat, c: Cycle) -> bool {
    let pos = (n % 4) as int;
    let b0 = if pos == 0 {
        0u8
    } else {
        old_buf[buf.len() - 2]
    };
    let b1 = if pos == 0 {
        0u8
    } else {
        old_buf[buf.len() - 1]
    };
    &&& buf.len() == 2 * (n / 4) + 2
    &&& old_buf.len() == if pos == 0 {
        buf.len() - 2
    } else {
        buf.len() as int
    }
    &&& forall|j: int| 0 <= j < buf.len() - 2 ==> buf[j] == old_buf[j]
    &&& forall|k: int|
        0 <= k < 8 ==> #[trigger] bit8(buf[buf.len() - 2], k) == (if k == pos {
            c.tdi
        } else if k == pos + 4 {
            c.tms
        } else {
            bit8(b0, k)
        })
    &&& forall|k: int|
        0 <= k < 8 ==> #[trigger] bit8(buf[buf.len() - 1], k) == (if k == pos {
            true
        } else if k == pos + 4 {
            c.tdo
        } else {
            bit8(b1, k)
        })
}

/// Setting cycle `n` in the last pair adds that cycle and keeps the layout.
proof fn lemma_packed(old_buf: Seq<u8>, buf: Seq<u8>, n: nat, c: Cycle)
    requires
        layout(old_buf, n),
        packed(old_buf, buf, n, c),
    ensures
        layout(buf, n + 1),
        xpc_wire(buf, n + 1) == xpc_wire(old_buf, n).push(c),
{
    let pos = (n % 4) as int;
    let len = buf.len() as int;
    assert forall|i: int| 0 <= i < n implies #[trigger] unpack(buf, i) == unpack(old_buf, i)
        && tck(buf, i) == tck(old_buf, i) by {
        let k = i % 4;
        if i / 4 == n / 4 {
            assert(k < pos);
            assert(2 * (i / 4) == len - 2);
            assert(bit8(buf[len - 2], k) == bit8(old_buf[len - 2], k));
            assert(bit8(buf[len - 2], k + 4) == bit8(old_buf[len - 2], k + 4));
            assert(bit8(buf[len - 1], k) == bit8(old_buf[len - 1], k));
            assert(bit8(buf[len - 1], k + 4) == bit8(old_buf[len - 1], k + 4));
        } else {
            assert(i / 4 < n / 4);
            assert(2 * (i / 4) + 1 < len - 2);
            assert(buf[2 * (i / 4)] == old_buf[2 * (i / 4)]);
            assert(buf[2 * (i / 4) + 1] == old_buf[2 * (i / 4) + 1]);
        }
    }
    assert(2 * (n as int / 4) == len - 2);
    assert(bit8(buf[len - 2], pos) == c.tdi);
    assert(bit8(buf[len - 2], pos + 4) == c.tms);
    assert(bit8(buf[len - 1], pos + 4) == c.tdo);
    assert(bit8(buf[len - 1], pos));
    if pos > 0 {
        assert(free_slot(old_buf[len - 2], old_buf[len - 1], pos));
    } else {
        lemma_zero_bit(0);
        lemma_zero_bit(4);
    }
    assert(unpack(buf, n as int) == c);
    assert(tck(buf, n as int));
    assert(xpc_wire(buf, n + 1) =~= xpc_wire(old_buf, n).push(c));
    assert forall|i: int| 0 <= i < n + 1 implies #[trigger] tck(buf, i) by {
        if i < n {
            assert(tck(old_buf, i));
        }
    }
    if (n + 1) % 4 > 0 {
        assert forall|k: int| (n + 1) % 4 <= k < 4 implies #[trigger] free_slot(
            buf[len - 2],
            buf[len - 1],
            k,
        ) by {
            if pos > 0 {
                assert(free_slot(old_buf[len - 2], old_buf[len - 1], k));
            } else {
                lemma_zero_bit(k as u8);
                lemma_zero_bit((k + 4) as u8);
            }
        }
    }
}

/// Set cycle `n` of a packed buffer that holds `n` cycles.
fn pack(buf: &mut Vec<u8>, n: usize, tms: bool, tdi: bool, tdo: bool)
    requires
        layout(old(buf)@, n as nat),
    ensures
        layout(final(buf)@, (n + 1) as nat),
        xpc_wire(final(buf)@, (n + 1) as nat) == xpc_wire(old(buf)@, n as nat).push(
            Cycle { tms, tdi, tdo },
        ),
        final(buf)@.len() == 2 * (n / 4) + 2,
{
    let pos = (n % 4) as u8;
    if pos == 0 {
        buf.push(0);
        buf.push(0);
    }
    let len = buf.len();
    let b0 = buf[len - 2];
    let b1 = buf[len - 1];
    let n0: u8 = b0 | ((if tms { 1u8 } else { 0u8 }) << (pos + 4)) | ((if tdi {
        1u8
    } else {
        0u8
    }) << pos);
    let n1: u8 = b1 | ((if tdo { 1u8 } else { 0u8 }) << (pos + 4)) | (1u8 << pos);
    proof {
        if pos > 0 {
            assert(free_slot(b0, b1, pos as int));
        } else {
            lemma_zero_bit(0);
            lemma_zero_bit(4);
        }
        assert forall|k: int| 0 <= k < 8 implies bit8(n0, k) == (if k == pos {
            tdi
        } else if k == pos + 4 {
            tms
        } else {
            bit8(b0, k)
        }) && bit8(n1, k) == (if k == pos {
            true
        } else if k == pos + 4 {
            tdo
        } else {
            bit8(b1, k)
        }) by {
            lemma_pack_bit(b0, tms, tdi, pos, k as u8, n0);
            lemma_pack_bit(b1, tdo, true, pos, k as u8, n1);
        }
    }
    buf.set(len - 2, n0);
    buf.set(len - 1, n1);
    proof {
        lemma_packed(old(buf)@, buf@, n as nat, Cycle { tms, tdi, tdo });
    }
}

/// Pack `cycles` into the buffer format of the cable. Unpacking the result
/// gives `cycles` back, every cycle is clocked, and the slots behind the
/// last cycle are empty.
pub fn pack_cycles(cycles: &[Cycle]) -> (r: Vec<u8>)
    ensures
        xpc_wire(r@, cycles@.len()) == cycles@,
        layout(r@, cycles@.len()),
{
    let mut buf: Vec<u8> = Vec::new();
    let mut i: usize = 0;
    proof {
        assert(xpc_wire(buf@, 0) =~= cycles@.take(0));
    }
    while i < cycles.len()
        invariant
            i <= cycles@.len(),
            layout(buf@, i as nat),
            xpc_wire(buf@, i as nat) == cycles@.take(i as int),
        decreases cycles@.len() - i,
    {
        let c = cycles[i];
        pack(&mut buf, i, c.tms, c.tdi, c.tdo);
        proof {
            assert(cycles@.take(i + 1) =~= cycles@.take(i as int).push(c));
        }
        i = i + 1;
    }
    proof {
        assert(cycles@.take(cycles@.len() as int) =~= cycles@);
    }
    buf
}

/// The first `n` cycles of a packed buffer.
pub fn unpack_cycles(buf: &[u8], n: usize) -> (r: Vec<Cycle>)
    requires
        buf@.len() >= 2 * ((n + 3) / 4),
    ensures
        r@ == xpc_wire(buf@, n as nat),
{
    let mut r: Vec<Cycle> = Vec::new();
    let mut i: usize = 0;
    while i < n
        invariant
            i <= n,
            buf@.len() >= 2 * ((n + 3) / 4),
            r@.len() == i,
            forall|j: int| 0 <= j < i ==> r@[j] == unpack(buf@, j),
        decreases n - i,
    {
        let b0 = buf[2 * (i / 4)];
        let b1 = buf[2 * (i / 4) + 1];
        let pos = (i % 4) as u8;
        r.push(
            Cycle {
                tms: (b0 >> (4 + pos)) & 1 == 1,
                tdi: (b0 >> pos) & 1 == 1,
                tdo: (b1 >> (4 + pos)) & 1 == 1,
            },
        );
        i = i + 1;
    }
    proof {
        assert(r@ =~= xpc_wire(buf@, n as nat));
    }
    r
}

impl BitSink for Packer {
    closed spec fn sink_inv(&self) -> bool {
        self.inv()
    }

    closed spec fn sunk(&self) -> Seq<Cycle> {
        self.all()
    }

    fn add_bit(&mut self, tms: bool, tdi: bool, tdo: bool) {
        proof {
            reveal(Packer::inv);
        }
        if (self.buf.len() >= MAX_BUF_LEN && self.samples % 8 == 0) || self.buf.len()
            >= HARD_BUF_LEN {
            self.close();
        }
        let ghost s0 = *self;
        pack(&mut self.buf, self.nbits, tms, tdi, tdo);
        self.nbits = self.nbits + 1;
        self.pos = (self.nbits % 4) as u8;
        if tdo {
            self.samples = self.samples + 1;
        }
        proof {
            let c = Cycle { tms, tdi, tdo };
            assert(self.all() =~= s0.all().push(c));
            assert(self.all().drop_last() =~= s0.all());
        }
    }
}

/// The driver of one Xilinx Platform Cable.
pub struct Device {
    packer: Packer,
    progress: usize,
    start: bool,
    held: bool,
    notifying: bool,
}

impl Device {
    /// A driver for a cable that was set up with `init_steps`.
    pub fn new() -> (r: Self)
        ensures
            r.inv(),
            r.wire() == Seq::<Cycle>::empty(),
            r.start(),
            r.owed() == 0,
            r.progress() == 0,
            !r.notifying(),
    {
        let r = Device {
            packer: Packer::new(),
            progress: 0,
            start: true,
            held: true,
            notifying: false,
        };
        r
    }
}

impl Backend for Device {
    closed spec fn inv(&self) -> bool {
        &&& self.packer.inv()
        &&& self.held == level(self.packer.all(), self.start)
        &&& sampled(self.packer.all()) % 8 == 0
    }

    closed spec fn wire(&self) -> Seq<Cycle> {
        self.packer.all()
    }

    closed spec fn start(&self) -> bool {
        self.start
    }

    closed spec fn owed(&self) -> nat {
        sampled(self.packer.all()) / 8
    }

    closed spec fn progress(&self) -> nat {
        self.progress as nat
    }

    closed spec fn notifying(&self) -> bool {
        self.notifying
    }

    open spec fn exit_reads(&self) -> bool {
        true
    }

    open spec fn carried(transfers: Seq<Transfer>, held: bool) -> Seq<Cycle> {
        queue_wire(transfers)
    }

    fn notify(&mut self, on: bool) {
        self.notifying = on;
    }

    fn tms(&mut self, path: Path) {
        let ghost wire = self.packer.all();
        let ghost added = tms_cycles(path, self.held);
        clock_path(&mut self.packer, path, self.held);
        proof {
            lemma_level_concat(wire, added, self.start);
            lemma_level_entry(Some(path), self.held);
            lemma_sampled_concat(wire, added);
            lemma_sampled_uniform(added, false);
        }
    }

    fn bytes(&mut self, before: Option<Path>, data: Data<'_>, after: Option<Path>) {
        let ghost wire = self.packer.all();
        let ghost h = self.held;
        let ghost added = bytes_cycles(before, data, after, h, true);
        let payload = Payload::of(data, self.held);
        self.held = emit(&mut self.packer, before, payload, after, self.held);
        proof {
            lemma_level_concat(wire, added, self.start);
            lemma_sampled_concat(wire, added);
            crate::bitbang::lemma_sampled_bytes(before, data, after, h);
        }
        if self.notifying {
            match data {
                Data::Tx(b) => {
                    self.progress = self.progress + b.len();
                },
                Data::TxRx(b) => {
                    self.progress = self.progress + b.len();
                },
                _ => {},
            }
        }
    }

    fn bits(&mut self, before: Option<Path>, data: u32, len: Bits<u8>, after: Option<Path>) {
        let ghost wire = self.packer.all();
        let ghost h = self.held;
        let ghost added = bits_cycles(before, data, len.0 as nat, after, h);
        let payload = Payload::Word(data, len.0);
        proof {
            lemma_exit_unread(payload.cycles(), after, h);
        }
        self.held = emit(&mut self.packer, before, payload, after, self.held);
        proof {
            lemma_level_concat(wire, added, self.start);
            lemma_sampled_concat(wire, added);
            crate::bitbang::lemma_sampled_bits(before, data, len.0 as nat, after, h);
        }
    }

    fn flush(&mut self) -> (r: Vec<Transfer>)
        ensures
            queue_wf(r@),
            closed_full(r@),
            reads_tied(r@),
            8 * total_read(r@) == sampled(old(self).wire()),
    {
        let r = self.packer.take(self.progress);
        self.progress = 0;
        self.start = self.held;
        r
    }
}

/// The vendor request of the cable.
pub const XPC_REQUEST: u8 = 0xb0;

/// The value of the vendor request that announces a shift.
pub const XPC_SHIFT: u16 = 0x00a6;

/// The endpoint that takes packed buffers.
pub const XPC_BULK_OUT: u8 = 0x02;

/// The endpoint that returns sampled bytes.
pub const XPC_BULK_IN: u8 = 0x86;

/// The USB transfers of one exchange: the vendor request that announces the
/// number of cycles, the bulk write of the packed buffer and, where the
/// exchange reads, the bulk read.
pub open spec fn exchange_steps(bits: u16, out: Seq<u8>, read_len: nat) -> Seq<StepView> {
    seq![
        vendor_out(XPC_REQUEST, XPC_SHIFT, bits),
        StepView::BulkOut { endpoint: XPC_BULK_OUT, data: out },
    ] + if read_len > 0 {
        seq![StepView::BulkIn { endpoint: XPC_BULK_IN, len: read_len }]
    } else {
        Seq::empty()
    }
}

/// The USB transfers that perform `transfer`.
pub fn exchange(transfer: &Transfer) -> (r: Vec<UsbStep>)
    requires
        transfer.bits <= 65535,
    ensures
        views(r@) == exchange_steps(
            transfer.bits as u16,
            transfer.out@,
            transfer.read_len as nat,
        ),
{
    let mut r: Vec<UsbStep> = Vec::new();
    r.push(vendor_request(XPC_REQUEST, XPC_SHIFT, transfer.bits as u16));
    r.push(UsbStep::BulkOut { endpoint: XPC_BULK_OUT, data: copy(transfer.out.as_slice()) });
    if transfer.read_len > 0 {
        r.push(UsbStep::BulkIn { endpoint: XPC_BULK_IN, len: transfer.read_len });
    }
    proof {
        assert(views(r@) =~= exchange_steps(
            transfer.bits as u16,
            transfer.out@,
            transfer.read_len as nat,
        ));
    }
    r
}

/// The programming pin of the cable.
pub const XPC_PROG: u16 = 0x0008;

/// The USB transfers that set the cable up: the framing request with index
/// 0x11, the programming pin, the versions of firmware and CPLD, the
/// outputs, a warm-up shift of two cycles, and the framing request with
/// index 0x12.
pub open spec fn init_steps_spec() -> Seq<StepView> {
    seq![
        vendor_out(XPC_REQUEST, 0x0028, 0x0011),
        vendor_out(XPC_REQUEST, 0x0030, XPC_PROG),
        StepView::ControlIn {
            request_type: VENDOR_IN,
            request: XPC_REQUEST,
            value: 0x0050,
            index: 0x0000,
            len: 2,
        },
        StepView::ControlIn {
            request_type: VENDOR_IN,
            request: XPC_REQUEST,
            value: 0x0050,
            index: 0x0001,
            len: 2,
        },
        vendor_out(XPC_REQUEST, 0x0018, 0x0000),
        vendor_out(XPC_REQUEST, XPC_SHIFT, 0x0002),
        StepView::BulkOut { endpoint: XPC_BULK_OUT, data: seq![0u8, 0u8] },
        vendor_out(XPC_REQUEST, 0x0028, 0x0012),
    ]
}

/// The USB transfers that set the cable up.
pub fn init_steps() -> (r: Vec<UsbStep>)
    ensures
        views(r@) == init_steps_spec(),
{
    let mut r: Vec<UsbStep> = Vec::new();
    r.push(vendor_request(XPC_REQUEST, 0x0028, 0x0011));
    r.push(vendor_request(XPC_REQUEST, 0x0030, XPC_PROG));
    r.push(
        UsbStep::ControlIn {
            request_type: VENDOR_IN,
            request: XPC_REQUEST,
            value: 0x0050,
            index: 0x0000,
            len: 2,
        },
    );
    r.push(
        UsbStep::ControlIn {
            request_type: VENDOR_IN,
            request: XPC_REQUEST,
            value: 0x0050,
            index: 0x0001,
            len: 2,
        },
    );
    r.push(vendor_request(XPC_REQUEST, 0x0018, 0x0000));
    r.push(vendor_request(XPC_REQUEST, XPC_SHIFT, 0x0002));
    let mut warm: Vec<u8> = Vec::new();
    warm.push(0);
    warm.push(0);
    proof {
        assert(warm@ =~= seq![0u8, 0u8]);
    }
    r.push(UsbStep::BulkOut { endpoint: XPC_BULK_OUT, data: warm });
    r.push(vendor_request(XPC_REQUEST, 0x0028, 0x0012));
    proof {
        assert(views(r@) =~= init_steps_spec());
    }
    r
}

/// The request that loads firmware into the cable.
pub const XPCU_CTRL_LOAD_FIRM: u8 = 0xa0;

/// The register that holds the cable's processor in reset.
pub const EZUSB_CPUCS: u16 = 0xe600;

/// The most bytes that one firmware write carries.
pub const FIRMWARE_CHUNK: usize = 64;

/// A write of `data` to address `addr` of the cable's memory.
pub open spec fn firmware_write(addr: u16, data: Seq<u8>) -> StepView {
    StepView::ControlOut {
        request_type: VENDOR_OUT,
        request: XPCU_CTRL_LOAD_FIRM,
        value: addr,
        index: 0,
        data,
    }
}

/// The writes that load one page at `addr`, at most 64 bytes each.
pub open spec fn page_steps(addr: int, data: Seq<u8>) -> Seq<StepView>
    decreases data.len(),
{
    if data.len() == 0 {
        Seq::empty()
    } else {
        let n = if data.len() > 64 {
            64int
        } else {
            data.len() as int
        };
        seq![firmware_write(addr as u16, data.take(n))] + page_steps(addr + n, data.skip(n))
    }
}

/// The writes that load all pages, in order.
pub open spec fn pages_steps(firmware: Seq<(u16, Vec<u8>)>) -> Seq<StepView>
    decreases firmware.len(),
{
    if firmware.len() == 0 {
        Seq::empty()
    } else {
        pages_steps(firmware.drop_last()) + page_steps(
            firmware.last().0 as int,
            firmware.last().1@,
        )
    }
}

/// The USB transfers that load firmware: claim the interface, hold the
/// processor in reset, write every page, release the processor and the
/// interface.
pub open spec fn flash_steps(firmware: Seq<(u16, Vec<u8>)>) -> Seq<StepView> {
    seq![StepView::Claim { interface: 0 }, firmware_write(EZUSB_CPUCS, seq![1u8])] + pages_steps(
        firmware,
    ) + seq![firmware_write(EZUSB_CPUCS, seq![0u8]), StepView::Release { interface: 0 }]
}

/// Every page ends within the 16-bit address space.
pub open spec fn firmware_fits(firmware: Seq<(u16, Vec<u8>)>) -> bool {
    forall|i: int|
        0 <= i < firmware.len() ==> (#[trigger] firmware[i]).0 + firmware[i].1@.len() <= 65536
}

fn write_step(addr: u16, data: Vec<u8>) -> (r: UsbStep)
    ensures
        r@ == firmware_write(addr, data@),
{
    UsbStep::ControlOut {
        request_type: VENDOR_OUT,
        request: XPCU_CTRL_LOAD_FIRM,
        value: addr,
        index: 0,
        data,
    }
}

fn one(byte: u8) -> (r: Vec<u8>)
    ensures
        r@ == seq![byte],
{
    let mut r: Vec<u8> = Vec::new();
    r.push(byte);
    proof {
        assert(r@ =~= seq![byte]);
    }
    r
}

/// Append the writes that load one page.
fn flash_page(steps: &mut Vec<UsbStep>, addr: u16, data: &[u8])
    requires
        addr + data@.len() <= 65536,
    ensures
        views(final(steps)@) == views(old(steps)@) + page_steps(addr as int, data@),
{
    let mut done: usize = 0;
    let ghost head = views(steps@);
    let ghost mut sofar: Seq<StepView> = Seq::empty();
    proof {
        assert(views(steps@) =~= head + sofar);
        assert(data@.skip(0) =~= data@);
        assert(sofar + page_steps(addr as int, data@) =~= page_steps(addr as int, data@));
    }
    while done < data.len()
        invariant
            done <= data@.len(),
            addr + data@.len() <= 65536,
            views(steps@) == head + sofar,
            sofar + page_steps(addr + done, data@.skip(done as int)) == page_steps(
                addr as int,
                data@,
            ),
        decreases data@.len() - done,
    {
        let left = data.len() - done;
        let n = if left > FIRMWARE_CHUNK {
            FIRMWARE_CHUNK
        } else {
            left
        };
        let chunk = vstd::slice::slice_subrange(data, done, done + n);
        let at: u16 = (addr as usize + done) as u16;
        let ghost prev = steps@;
        steps.push(write_step(at, copy(chunk)));
        proof {
            let rest = data@.skip(done as int);
            let step = firmware_write(at, chunk@);
            assert(rest.take(n as int) =~= chunk@);
            assert(rest.skip(n as int) =~= data@.skip(done + n));
            assert(views(steps@) =~= views(prev).push(step));
            assert(page_steps(addr + done, rest) == seq![step] + page_steps(
                addr + done + n,
                data@.skip(done + n),
            ));
            assert(sofar.push(step) + page_steps(addr + done + n, data@.skip(done + n)) =~= sofar
                + (seq![step] + page_steps(addr + done + n, data@.skip(done + n))));
            sofar = sofar.push(step);
            assert(views(steps@) =~= head + sofar);
        }
        done = done + n;
    }
    proof {
        assert(data@.skip(data@.len() as int) =~= Seq::<u8>::empty());
        assert(sofar + Seq::<StepView>::empty() =~= sofar);
    }
}

/// The USB transfers that load `firmware`, given as pages of a load
/// address and bytes, into the cable.
pub fn flash(firmware: &Vec<(u16, Vec<u8>)>) -> (r: Vec<UsbStep>)
    requires
        firmware_fits(firmware@),
    ensures
        views(r@) == flash_steps(firmware@),
{
    let mut steps: Vec<UsbStep> = Vec::new();
    steps.push(UsbStep::Claim { interface: 0 });
    steps.push(write_step(EZUSB_CPUCS, one(1)));
    let ghost head = views(steps@);
    proof {
        assert(head =~= seq![
            StepView::Claim { interface: 0 },
            firmware_write(EZUSB_CPUCS, seq![1u8]),
        ]);
        assert(firmware@.take(0) =~= Seq::empty());
        assert(views(steps@) =~= head + pages_steps(firmware@.take(0)));
    }
    let mut i: usize = 0;
    while i < firmware.len()
        invariant
            i <= firmware@.len(),
            firmware_fits(firmware@),
            views(steps@) == head + pages_steps(firmware@.take(i as int)),
        decreases firmware@.len() - i,
    {
        let ghost prev = views(steps@);
        let page = &firmware[i];
        flash_page(&mut steps, page.0, page.1.as_slice());
        proof {
            let done = firmware@.take(i + 1);
            assert(done.drop_last() =~= firmware@.take(i as int));
            assert(done.last() == firmware@[i as int]);
            assert(views(steps@) =~= head + pages_steps(done));
        }
        i = i + 1;
    }
    proof {
        assert(firmware@.take(firmware@.len() as int) =~= firmware@);
    }
    let ghost body = views(steps@);
    steps.push(write_step(EZUSB_CPUCS, one(0)));
    steps.push(UsbStep::Release { interface: 0 });
    proof {
        assert(views(steps@) =~= body + seq![
            firmware_write(EZUSB_CPUCS, seq![0u8]),
            StepView::Release { interface: 0 },
        ]);
    }
    steps
}

/// The 16-bit number whose bytes, least significant first, stand at `at`.
pub open spec fn le16(b: Seq<u8>, at: int) -> int {
    b[at] as int + 256 * b[at + 1] as int
}

/// Whether `b` is a firmware image: a sequence of pages, each a load
/// address and a length of two bytes, least significant first, and as many
/// bytes as the length says, none of which ends beyond address 65535.
pub open spec fn is_image(b: Seq<u8>) -> bool
    decreases b.len(),
{
    b.len() == 0 || (b.len() >= 4 && 4 + le16(b, 2) <= b.len() && le16(b, 0) + le16(b, 2) <= 65536
        && is_image(b.skip(4 + le16(b, 2))))
}

/// The bytes of a firmware image that holds `pages`.
pub open spec fn image_of(pages: Seq<(u16, Vec<u8>)>) -> Seq<u8>
    decreases pages.len(),
{
    if pages.len() == 0 {
        Seq::empty()
    } else {
        let page = pages.last();
        image_of(pages.drop_last()) + seq![
            (page.0 % 256) as u8,
            (page.0 / 256) as u8,
            (page.1@.len() % 256) as u8,
            (page.1@.len() / 256) as u8,
        ] + page.1@
    }
}

/// The pages of a firmware image.
pub fn parse_firmware(image: &[u8]) -> (r: Option<Vec<(u16, Vec<u8>)>>)
    ensures
        r is Some <==> is_image(image@),
        r matches Some(pages) ==> firmware_fits(pages@) && image_of(pages@) == image@,
{
    let mut pages: Vec<(u16, Vec<u8>)> = Vec::new();
    let mut at: usize = 0;
    proof {
        assert(image@.skip(0) =~= image@);
        assert(image@.take(0) =~= image_of(pages@));
    }
    while at < image.len()
        invariant
            at <= image@.len(),
            is_image(image@.skip(at as int)) == is_image(image@),
            firmware_fits(pages@),
            image_of(pages@) == image@.take(at as int),
            forall|i: int| 0 <= i < pages@.len() ==> (#[trigger] pages@[i]).1@.len() < 65536,
        decreases image@.len() - at,
    {
        let ghost rest = image@.skip(at as int);
        if image.len() - at < 4 {
            return None;
        }
        let addr: usize = image[at] as usize + 256 * image[at + 1] as usize;
        let len: usize = image[at + 2] as usize + 256 * image[at + 3] as usize;
        proof {
            assert(le16(rest, 0) == addr);
            assert(le16(rest, 2) == len);
        }
        if image.len() - at - 4 < len || addr + len > 65536 {
            return None;
        }
        let data = copy(vstd::slice::slice_subrange(image, at + 4, at + 4 + len));
        let ghost before = pages@;
        pages.push((addr as u16, data));
        proof {
            assert(rest.skip(4 + len) =~= image@.skip(at + 4 + len));
            assert(pages@.drop_last() =~= before);
            assert(image_of(pages@) =~= image@.take(at + 4 + len));
            assert forall|i: int| 0 <= i < pages@.len() implies (#[trigger] pages@[i]).0
                + pages@[i].1@.len() <= 65536 by {
                if i < before.len() {
                    assert(pages@[i] == before[i]);
                }
            }
            assert forall|i: int| 0 <= i < pages@.len() implies (#[trigger] pages@[i]).1@.len()
                < 65536 by {
                if i < before.len() {
                    assert(pages@[i] == before[i]);
                }
            }
        }
        at = at + 4 + len;
    }
    proof {
        assert(image@.take(image@.len() as int) =~= image@);
        assert(image@.skip(image@.len() as int) =~= Seq::<u8>::empty());
    }
    Some(pages)
}

} // verus!
