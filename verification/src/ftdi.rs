//! The cable driver for FT2232H-class chips in MPSSE mode.
//!
//! The driver batches MPSSE commands. A batch ends with `SEND_IMMEDIATE` and
//! is one USB exchange: a bulk write of the commands, then a bulk read of
//! the bytes they sample.

use crate::backend::{
    byte_cycles, constant_cycles, entry_cycles, level, path_wf,
    shift_cycles, tms_cycles, total_notify, total_read, word_cycles, Backend, Cycle, Data,
    Transfer,
};
use crate::bitbang::{lemma_level_concat, lemma_level_entry};
use crate::jtag::{bit8, Path};
use crate::units::{Bits, Bytes};
use vstd::prelude::*;

pub mod devices;
pub mod io;

verus! {

/// Clock TMS bits out, least significant first, on the falling edge; bit 7
/// of the data byte is held on TDI.
pub const TMS_BURST: u8 = 0x4b;

/// Clock bytes out on TDI, least significant bit first, on the falling edge.
pub const BYTES_OUT: u8 = 0x19;

/// Clock bytes in from TDO, least significant bit first.
pub const BYTES_IN: u8 = 0x2c;

/// Clock bytes out on TDI and in from TDO.
pub const BYTES_IN_OUT: u8 = 0x3d;

/// Clock up to eight bits out on TDI.
pub const BITS_OUT: u8 = 0x1b;

/// Clock up to eight bits in from TDO.
pub const BITS_IN: u8 = 0x2e;

/// Clock up to eight bits out on TDI and in from TDO.
pub const BITS_IN_OUT: u8 = 0x3f;

/// Send what was sampled to the host without waiting for the buffer to fill.
pub const SEND_IMMEDIATE: u8 = 0x87;

/// The most bytes that one shift command moves, and the fill of the command
/// or read buffer at which the open exchange is closed.
pub const MAX_READ_WRITE_LEN: usize = 65536;

/// The most TMS bits that one burst clocks.
pub const MAX_BURST: u8 = 7;

/// The length field of a shift of `len` bytes: one less than the length.
pub fn assert_data_len(len: usize) -> (r: u16)
    requires
        1 <= len <= 65536,
    ensures
        r == len - 1,
{
    (len - 1) as u16
}

/// The number of payload bytes that the length field of a byte shift
/// announces.
pub open spec fn announced(s: Seq<u8>) -> nat {
    (s[1] as nat + 256 * s[2] as nat + 1) as nat
}

/// The number of bytes that the first command of `s` takes, or zero where
/// `s` does not begin with a whole command that this driver sends.
pub open spec fn cmd_len(s: Seq<u8>) -> nat {
    if s.len() == 0 {
        0
    } else if s[0] == SEND_IMMEDIATE {
        1
    } else if s[0] == BITS_IN {
        if s.len() >= 2 && s[1] < 8 {
            2
        } else {
            0
        }
    } else if s.len() < 3 {
        0
    } else if s[0] == TMS_BURST {
        if s[1] < 7 {
            3
        } else {
            0
        }
    } else if s[0] == BYTES_OUT || s[0] == BYTES_IN_OUT {
        if s.len() >= 3 + announced(s) {
            3 + announced(s)
        } else {
            0
        }
    } else if s[0] == BYTES_IN {
        3
    } else if s[0] == BITS_OUT || s[0] == BITS_IN_OUT {
        if s[1] < 8 {
            3
        } else {
            0
        }
    } else {
        0
    }
}

/// The cycles that the chip clocks for a TMS burst of `n` bits with the data
/// byte `data`.
pub open spec fn burst_cycles(n: nat, data: u8) -> Seq<Cycle> {
    Seq::new(n, |i: int| Cycle { tms: bit8(data, i), tdi: bit8(data, 7), tdo: false })
}

/// The cycles that the chip clocks for a shift of the low `n` bits of `data`.
pub open spec fn bit_cycles(n: nat, data: u8, tdo: bool) -> Seq<Cycle> {
    Seq::new(n, |i: int| Cycle { tms: false, tdi: bit8(data, i), tdo })
}

/// The cycles that the chip clocks for the first command of `s`, on a wire
/// whose TDI rests at `held`.
pub open spec fn cmd_cycles(s: Seq<u8>, held: bool) -> Seq<Cycle> {
    if cmd_len(s) == 0 || s[0] == SEND_IMMEDIATE {
        Seq::empty()
    } else if s[0] == BITS_IN {
        constant_cycles((s[1] + 1) as nat, held, true)
    } else if s[0] == TMS_BURST {
        burst_cycles((s[1] + 1) as nat, s[2])
    } else if s[0] == BYTES_OUT {
        byte_cycles(s.subrange(3, 3 + announced(s) as int), false)
    } else if s[0] == BYTES_IN_OUT {
        byte_cycles(s.subrange(3, 3 + announced(s) as int), true)
    } else if s[0] == BYTES_IN {
        constant_cycles(8 * announced(s), held, true)
    } else if s[0] == BITS_OUT {
        bit_cycles((s[1] + 1) as nat, s[2], false)
    } else {
        bit_cycles((s[1] + 1) as nat, s[2], true)
    }
}

/// The number of bytes that the chip returns for the first command of `s`:
/// one for every byte that a byte shift samples, one for a bit shift that
/// samples.
pub open spec fn cmd_reads(s: Seq<u8>) -> nat {
    if cmd_len(s) == 0 {
        0
    } else if s[0] == BYTES_IN || s[0] == BYTES_IN_OUT {
        announced(s)
    } else if s[0] == BITS_IN || s[0] == BITS_IN_OUT {
        1
    } else {
        0
    }
}

/// The number of bytes that the chip returns for the commands of `s`.
pub open spec fn reads_of(s: Seq<u8>) -> nat
    decreases s.len(),
{
    if cmd_len(s) == 0 {
        0
    } else {
        cmd_reads(s) + reads_of(s.skip(cmd_len(s) as int))
    }
}

/// The simulated wire: the cycles that the chip clocks for the commands of
/// `s`, on a wire whose TDI rests at `held`. Decoding stops at the first
/// byte that does not begin a whole command.
pub open spec fn mpsse_wire(s: Seq<u8>, held: bool) -> Seq<Cycle>
    decreases s.len(),
{
    if cmd_len(s) == 0 {
        Seq::empty()
    } else {
        let first = cmd_cycles(s, held);
        first + mpsse_wire(s.skip(cmd_len(s) as int), level(first, held))
    }
}

/// Whether `s` is a sequence of whole commands.
pub open spec fn complete(s: Seq<u8>) -> bool
    decreases s.len(),
{
    s.len() == 0 || (cmd_len(s) > 0 && complete(s.skip(cmd_len(s) as int)))
}

/// The first command of a sequence is read from its own bytes alone.
proof fn lemma_cmd_local(a: Seq<u8>, b: Seq<u8>, held: bool)
    requires
        cmd_len(a) > 0,
    ensures
        cmd_len(a + b) == cmd_len(a),
        cmd_cycles(a + b, held) == cmd_cycles(a, held),
        cmd_reads(a + b) == cmd_reads(a),
        (a + b).skip(cmd_len(a) as int) == a.skip(cmd_len(a) as int) + b,
{
    let ab = a + b;
    assert(ab[0] == a[0]);
    if a[0] == BITS_IN {
        assert(ab[1] == a[1]);
    } else if a[0] != SEND_IMMEDIATE {
        assert(ab[1] == a[1]);
        assert(ab[2] == a[2]);
        if a[0] == BYTES_OUT || a[0] == BYTES_IN_OUT {
            assert(ab.subrange(3, 3 + announced(a) as int) =~= a.subrange(3, 3 + announced(a) as int));
        }
    }
    assert(ab.skip(cmd_len(a) as int) =~= a.skip(cmd_len(a) as int) + b);
}

/// Behind whole commands the chip decodes what follows as if it stood
/// alone, on the wire as they left it.
pub proof fn lemma_wire_append(a: Seq<u8>, b: Seq<u8>, held: bool)
    requires
        complete(a),
    ensures
        mpsse_wire(a + b, held) == mpsse_wire(a, held) + mpsse_wire(
            b,
            level(mpsse_wire(a, held), held),
        ),
        reads_of(a + b) == reads_of(a) + reads_of(b),
        complete(b) ==> complete(a + b),
    decreases a.len(),
{
    if a.len() == 0 {
        assert(a + b =~= b);
        assert(mpsse_wire(a, held) + mpsse_wire(b, held) =~= mpsse_wire(b, held));
    } else {
        let n = cmd_len(a) as int;
        lemma_cmd_local(a, b, held);
        let first = cmd_cycles(a, held);
        let h1 = level(first, held);
        lemma_wire_append(a.skip(n), b, h1);
        let rest = mpsse_wire(a.skip(n), h1);
        lemma_level_concat(first, rest, held);
        assert(first + (rest + mpsse_wire(b, level(rest, h1))) =~= (first + rest) + mpsse_wire(
            b,
            level(rest, h1),
        ));
    }
}

/// One whole command decodes to its cycles.
pub proof fn lemma_wire_single(e: Seq<u8>, held: bool)
    requires
        cmd_len(e) == e.len(),
        e.len() > 0,
    ensures
        complete(e),
        mpsse_wire(e, held) == cmd_cycles(e, held),
        reads_of(e) == cmd_reads(e),
{
    let rest = e.skip(e.len() as int);
    assert(rest.len() == 0);
    assert(complete(rest));
    assert(reads_of(rest) == 0);
    assert(mpsse_wire(rest, level(cmd_cycles(e, held), held)) =~= Seq::<Cycle>::empty());
    assert(cmd_cycles(e, held) + Seq::<Cycle>::empty() =~= cmd_cycles(e, held));
}

/// The cycles that the chip clocks for a sequence of exchanges, on a wire
/// whose TDI rests at `held`.
pub open spec fn queue_wire(transfers: Seq<Transfer>, held: bool) -> Seq<Cycle>
    decreases transfers.len(),
{
    if transfers.len() == 0 {
        Seq::empty()
    } else {
        let done = queue_wire(transfers.drop_last(), held);
        done + mpsse_wire(transfers.last().out@, level(done, held))
    }
}

/// Whether every exchange is a sequence of whole commands that ends with
/// `SEND_IMMEDIATE` and reads back as many bytes as its own commands return.
pub open spec fn sealed(transfers: Seq<Transfer>) -> bool {
    forall|i: int|
        0 <= i < transfers.len() ==> complete((#[trigger] transfers[i]).out@)
            && transfers[i].out@.len() > 0 && transfers[i].out@.last() == SEND_IMMEDIATE
            && transfers[i].read_len == reads_of(transfers[i].out@)
}

/// Whether an exchange holds at least 65,536 bytes of commands or reads at
/// least as many bytes.
pub open spec fn full(transfer: Transfer) -> bool {
    transfer.out@.len() > MAX_READ_WRITE_LEN || transfer.read_len >= MAX_READ_WRITE_LEN
}

/// Every exchange but the last was closed because it was full.
pub open spec fn closed_full(transfers: Seq<Transfer>) -> bool {
    forall|i: int| 0 <= i < transfers.len() - 1 ==> full(#[trigger] transfers[i])
}

/// The commands of the open exchange and the exchanges closed before it.
struct Stream {
    buf: Vec<u8>,
    read_len: usize,
    notify: usize,
    queue: Vec<Transfer>,
    /// The level of TDI when the oldest queued exchange begins.
    start: bool,
    /// The level of TDI after the last command.
    held: bool,
}

impl Stream {
    spec fn queued(&self) -> Seq<Cycle> {
        queue_wire(self.queue@, self.start)
    }

    spec fn wire(&self) -> Seq<Cycle> {
        self.queued() + mpsse_wire(self.buf@, level(self.queued(), self.start))
    }

    spec fn owed(&self) -> nat {
        total_read(self.queue@) + self.read_len as nat
    }

    spec fn progress(&self) -> nat {
        total_notify(self.queue@) + self.notify as nat
    }

    spec fn core_inv(&self) -> bool {
        &&& complete(self.buf@)
        &&& self.read_len == reads_of(self.buf@)
        &&& sealed(self.queue@)
        &&& self.held == level(self.wire(), self.start)
    }

    spec fn inv(&self) -> bool {
        &&& self.core_inv()
        &&& forall|i: int| 0 <= i < self.queue@.len() ==> full(#[trigger] self.queue@[i])
    }

    /// Neither the commands nor the reads of the open exchange fill a
    /// buffer of the chip.
    spec fn rested(&self) -> bool {
        self.buf@.len() < MAX_READ_WRITE_LEN && self.read_len < MAX_READ_WRITE_LEN
    }

    /// The stream was asked for `added` and nothing else.
    spec fn grew(&self, before: &Stream, added: Seq<Cycle>) -> bool {
        &&& self.inv()
        &&& self.wire() == before.wire() + added
        &&& self.held == level(added, before.held)
        &&& self.start == before.start
    }

    /// What the stream owes and reports is what it did before.
    spec fn same_account(&self, before: &Stream) -> bool {
        &&& self.owed() == before.owed()
        &&& self.progress() == before.progress()
    }

    proof fn lemma_took(before: &Stream, after: &Stream, e: Seq<u8>)
        requires
            before.inv(),
            cmd_len(e) == e.len(),
            e.len() > 0,
            after.buf@ == before.buf@ + e,
            after.queue == before.queue,
            after.start == before.start,
            after.held == level(cmd_cycles(e, before.held), before.held),
            after.read_len == before.read_len + cmd_reads(e),
        ensures
            after.grew(before, cmd_cycles(e, before.held)),
    {
        let q = before.queued();
        let hq = level(q, before.start);
        let old = mpsse_wire(before.buf@, hq);
        lemma_wire_append(before.buf@, e, hq);
        lemma_wire_single(e, before.held);
        lemma_level_concat(q, old, before.start);
        let c = cmd_cycles(e, before.held);
        assert(q + (old + c) =~= (q + old) + c);
        lemma_level_concat(before.wire(), c, before.start);
    }

    proof fn lemma_grew_chain(a: &Stream, b: &Stream, c: &Stream, x: Seq<Cycle>, y: Seq<Cycle>)
        requires
            b.grew(a, x),
            c.grew(b, y),
        ensures
            c.grew(a, x + y),
    {
        assert(a.wire() + x + y =~= a.wire() + (x + y));
        lemma_level_concat(x, y, a.held);
    }

    proof fn lemma_grew_nothing(a: &Stream)
        requires
            a.inv(),
        ensures
            a.grew(a, Seq::<Cycle>::empty()),
    {
        assert(a.wire() + Seq::<Cycle>::empty() =~= a.wire());
    }

    fn new() -> (r: Self)
        ensures
            r.inv(),
            r.rested(),
            r.wire() == Seq::<Cycle>::empty(),
            r.start,
            r.held,
            r.owed() == 0,
            r.progress() == 0,
    {
        let r = Stream {
            buf: Vec::new(),
            read_len: 0,
            notify: 0,
            queue: Vec::new(),
            start: true,
            held: true,
        };
        proof {
            assert(r.wire() =~= Seq::<Cycle>::empty());
        }
        r
    }

    /// Append a command of three bytes that leaves TDI at `next`.
    fn put(&mut self, op: u8, a: u8, b: u8, next: bool, reads: usize)
        requires
            old(self).inv(),
            cmd_len(seq![op, a, b]) == 3,
            next == level(cmd_cycles(seq![op, a, b], old(self).held), old(self).held),
            reads == cmd_reads(seq![op, a, b]),
            old(self).read_len + reads <= usize::MAX,
        ensures
            final(self).grew(old(self), cmd_cycles(seq![op, a, b], old(self).held)),
            final(self).queue == old(self).queue,
            final(self).read_len == old(self).read_len + reads,
            final(self).notify == old(self).notify,
    {
        self.buf.push(op);
        self.buf.push(a);
        self.buf.push(b);
        self.held = next;
        self.read_len = self.read_len + reads;
        proof {
            assert(self.buf@ =~= old(self).buf@ + seq![op, a, b]);
            Self::lemma_took(old(self), self, seq![op, a, b]);
        }
    }

    /// Clock `n` TMS bits, the low bits of `pattern` least significant
    /// first, with TDI at `tdi`.
    fn burst(&mut self, n: u8, pattern: u8, tdi: bool)
        requires
            old(self).inv(),
            1 <= n <= 7,
        ensures
            final(self).grew(
                old(self),
                Seq::new(n as nat, |i: int| Cycle { tms: bit8(pattern, i), tdi, tdo: false }),
            ),
            final(self).queue == old(self).queue,
            final(self).read_len == old(self).read_len,
            final(self).notify == old(self).notify,
    {
        let data: u8 = (pattern & 0x7f) | (if tdi {
            0x80u8
        } else {
            0u8
        });
        let ghost e = seq![TMS_BURST, (n - 1) as u8, data];
        let ghost want = Seq::new(
            n as nat,
            |i: int| Cycle { tms: bit8(pattern, i), tdi, tdo: false },
        );
        proof {
            assert forall|i: int| 0 <= i < 8 implies bit8(data, i) == (if i == 7 {
                tdi
            } else {
                bit8(pattern, i)
            }) by {
                lemma_burst_byte(pattern, tdi, data, i as u8);
            }
            assert(cmd_cycles(e, self.held) =~= want);
            assert(want.last().tdi == tdi);
        }
        self.put(TMS_BURST, n - 1, data, tdi, 0);
    }

    /// Shift the low `n` bits of `data` out on TDI, sampling TDO if `read`.
    fn write_bits(&mut self, n: u8, data: u8, read: bool)
        requires
            old(self).inv(),
            1 <= n <= 8,
            read ==> old(self).owed() < usize::MAX,
        ensures
            final(self).grew(old(self), bit_cycles(n as nat, data, read)),
            final(self).owed() == old(self).owed() + if read {
                1nat
            } else {
                0nat
            },
            final(self).progress() == old(self).progress(),
            final(self).queue == old(self).queue,
    {
        let op = if read {
            BITS_IN_OUT
        } else {
            BITS_OUT
        };
        let last = (data >> (n - 1)) & 1 == 1;
        proof {
            let e = seq![op, (n - 1) as u8, data];
            assert(cmd_cycles(e, self.held) =~= bit_cycles(n as nat, data, read));
            assert(bit_cycles(n as nat, data, read).last().tdi == last);
        }
        self.put(op, n - 1, data, last, if read {
            1
        } else {
            0
        });
    }

    /// Sample `n` cycles of TDO with TDI at rest.
    fn read_bits(&mut self, n: u8)
        requires
            old(self).inv(),
            1 <= n <= 8,
            old(self).owed() < usize::MAX,
        ensures
            final(self).grew(old(self), constant_cycles(n as nat, old(self).held, true)),
            final(self).held == old(self).held,
            final(self).owed() == old(self).owed() + 1,
            final(self).progress() == old(self).progress(),
            final(self).queue == old(self).queue,
    {
        let ghost e = seq![BITS_IN, (n - 1) as u8];
        self.buf.push(BITS_IN);
        self.buf.push(n - 1);
        self.read_len = self.read_len + 1;
        proof {
            assert(self.buf@ =~= old(self).buf@ + e);
            assert(cmd_len(e) == e.len());
            let want = constant_cycles(n as nat, old(self).held, true);
            assert(cmd_cycles(e, old(self).held) == want);
            assert(want.last().tdi == old(self).held);
            Self::lemma_took(old(self), self, e);
        }
    }

    /// Sample `n` bytes of TDO with TDI at rest.
    fn read_bytes(&mut self, n: usize)
        requires
            old(self).inv(),
            1 <= n <= 65536,
            old(self).owed() + n <= usize::MAX,
        ensures
            final(self).grew(old(self), constant_cycles(8 * n as nat, old(self).held, true)),
            final(self).owed() == old(self).owed() + n,
            final(self).progress() == old(self).progress(),
            final(self).queue == old(self).queue,
    {
        let len = assert_data_len(n);
        let lo = (len % 256) as u8;
        let hi = (len / 256) as u8;
        proof {
            let e = seq![BYTES_IN, lo, hi];
            assert(announced(e) == n);
            let want = constant_cycles(8 * n as nat, self.held, true);
            assert(cmd_cycles(e, self.held) =~= want);
            assert(want.last().tdi == self.held);
        }
        self.put(BYTES_IN, lo, hi, self.held, n);
    }

    /// Shift `chunk` out on TDI, sampling TDO if `read`, and count its bytes
    /// as progress if `notify`.
    fn write_bytes(&mut self, chunk: &[u8], read: bool, notify: bool)
        requires
            old(self).inv(),
            1 <= chunk@.len() <= 65536,
            read ==> old(self).owed() + chunk@.len() <= usize::MAX,
            notify ==> old(self).progress() + chunk@.len() <= usize::MAX,
        ensures
            final(self).grew(old(self), byte_cycles(chunk@, read)),
            final(self).owed() == old(self).owed() + if read {
                chunk@.len()
            } else {
                0
            },
            final(self).progress() == old(self).progress() + if notify {
                chunk@.len()
            } else {
                0
            },
            final(self).queue == old(self).queue,
    {
        let n = chunk.len();
        let op = if read {
            BYTES_IN_OUT
        } else {
            BYTES_OUT
        };
        let len = assert_data_len(n);
        let lo = (len % 256) as u8;
        let hi = (len / 256) as u8;
        let last = (chunk[n - 1] >> 7) & 1 == 1;
        let ghost e = seq![op, lo, hi] + chunk@;
        self.buf.push(op);
        self.buf.push(lo);
        self.buf.push(hi);
        self.buf.extend_from_slice(chunk);
        self.held = last;
        if read {
            self.read_len = self.read_len + n;
        }
        proof {
            assert(self.buf@ =~= old(self).buf@ + e);
            assert(announced(e) == n);
            assert(e.subrange(3, 3 + n) =~= chunk@);
            assert(cmd_len(e) == e.len());
            let want = byte_cycles(chunk@, read);
            assert(cmd_cycles(e, old(self).held) == want);
            assert(want.last().tdi == last) by {
                assert((8 * n - 1) / 8 == n - 1);
                assert((8 * n - 1) % 8 == 7);
            }
            Self::lemma_took(old(self), self, e);
        }
        if notify {
            self.notify = self.notify + n;
        }
    }

    /// Close the open exchange and queue it.
    fn close(&mut self)
        requires
            old(self).inv(),
        ensures
            final(self).core_inv(),
            final(self).wire() == old(self).wire(),
            final(self).start == old(self).start,
            final(self).held == old(self).held,
            final(self).same_account(old(self)),
            final(self).buf@.len() == 0,
            final(self).read_len == 0,
            final(self).notify == 0,
            final(self).wire() == final(self).queued(),
            final(self).queue@.len() == old(self).queue@.len() + 1,
            closed_full(final(self).queue@),
            full(final(self).queue@.last()) == (old(self).buf@.len() >= MAX_READ_WRITE_LEN
                || old(self).read_len >= MAX_READ_WRITE_LEN),
    {
        let mut out: Vec<u8> = Vec::new();
        core::mem::swap(&mut self.buf, &mut out);
        out.push(SEND_IMMEDIATE);
        let transfer = Transfer { out, bits: 0, read_len: self.read_len, notify: self.notify };
        let ghost q = self.queued();
        let ghost hq = level(q, self.start);
        proof {
            let e = seq![SEND_IMMEDIATE];
            assert(transfer.out@ =~= old(self).buf@ + e);
            lemma_wire_append(old(self).buf@, e, hq);
            assert(cmd_len(e) == 1);
            lemma_wire_single(e, level(mpsse_wire(old(self).buf@, hq), hq));
            assert(mpsse_wire(transfer.out@, hq) =~= mpsse_wire(old(self).buf@, hq));
            assert(complete(transfer.out@));
            assert(reads_of(transfer.out@) == reads_of(old(self).buf@));
        }
        let ghost sent = transfer;
        self.queue.push(transfer);
        proof {
            assert forall|i: int| 0 <= i < self.queue@.len() implies complete(
                (#[trigger] self.queue@[i]).out@,
            ) && self.queue@[i].out@.len() > 0 && self.queue@[i].out@.last()
                == SEND_IMMEDIATE && self.queue@[i].read_len == reads_of(
                self.queue@[i].out@,
            ) by {
                if i < old(self).queue@.len() {
                    assert(self.queue@[i] == old(self).queue@[i]);
                } else {
                    assert(self.queue@[i] == sent);
                }
            }
        }
        self.read_len = 0;
        self.notify = 0;
        proof {
            assert(self.queue@.drop_last() =~= old(self).queue@);
            assert(self.queued() == old(self).wire());
            assert(self.wire() =~= self.queued());
            assert(self.queue@.last() == sent);
            assert forall|i: int| 0 <= i < self.queue@.len() - 1 implies full(
                #[trigger] self.queue@[i],
            ) by {
                assert(self.queue@[i] == old(self).queue@[i]);
            }
        }
    }

    /// Close the open exchange where its commands or its reads fill a
    /// buffer of the chip.
    fn maybe_flush(&mut self)
        requires
            old(self).inv(),
        ensures
            final(self).grew(old(self), Seq::<Cycle>::empty()),
            final(self).held == old(self).held,
            final(self).same_account(old(self)),
            final(self).rested(),
    {
        if self.buf.len() >= MAX_READ_WRITE_LEN || self.read_len >= MAX_READ_WRITE_LEN {
            self.close();
            proof {
                assert forall|i: int| 0 <= i < self.queue@.len() implies full(
                    #[trigger] self.queue@[i],
                ) by {
                    if i == self.queue@.len() - 1 {
                        assert(self.queue@[i] == self.queue@.last());
                    }
                }
                assert(self.wire() =~= old(self).wire() + Seq::<Cycle>::empty());
            }
        } else {
            proof {
                Self::lemma_grew_nothing(self);
            }
        }
    }
}

/// The cycles of a TMS path clocked with TDI at `tdi`.
pub open spec fn path_cycles(path: Path, tdi: bool) -> Seq<Cycle> {
    Seq::new(path.len as nat, |i: int| Cycle { tms: path.bit(i), tdi, tdo: false })
}

/// Shifting bytes one after another shifts their concatenation.
pub proof fn lemma_byte_cycles_concat(a: Seq<u8>, b: Seq<u8>, tdo: bool)
    ensures
        byte_cycles(a + b, tdo) == byte_cycles(a, tdo) + byte_cycles(b, tdo),
{
    let left = byte_cycles(a + b, tdo);
    let right = byte_cycles(a, tdo) + byte_cycles(b, tdo);
    assert(left.len() == right.len());
    assert forall|i: int| 0 <= i < left.len() implies left[i] == right[i] by {
        if i >= 8 * a.len() {
            assert((i - 8 * a.len()) / 8 == i / 8 - a.len());
            assert((i - 8 * a.len()) % 8 == i % 8);
        }
    }
    assert(left =~= right);
}

proof fn lemma_top_bit(v: u8)
    by (bit_vector)
    ensures
        ((v >> 7u8) >> 0u8) & 1 == (v >> 7u8) & 1,
{
}

proof fn lemma_constant_byte(i: u8)
    by (bit_vector)
    requires
        i < 8,
    ensures
        (0xffu8 >> i) & 1 == 1,
        (0x00u8 >> i) & 1 == 0,
{
}

proof fn lemma_word_chunk(data: u32, d: u32, j: u32, low: u8)
    by (bit_vector)
    requires
        d < 32,
        j < 8,
        j + d < 32,
        low == ((data >> d) & 0xff) as u8,
    ensures
        ((low >> (j as u8)) & 1 == 1) == ((data >> ((j + d) as u32)) & 1 == 1),
{
}

impl Stream {
    /// Clock the TMS bits of `path` with TDI at `tdi`.
    fn clock(&mut self, path: Path, tdi: bool)
        requires
            old(self).inv(),
            path.wf(),
        ensures
            final(self).grew(old(self), path_cycles(path, tdi)),
            final(self).same_account(old(self)),
    {
        let pattern = path.as_clocked();
        let ghost want = path_cycles(path, tdi);
        if path.len == 0 {
            proof {
                Self::lemma_grew_nothing(self);
                assert(want =~= Seq::<Cycle>::empty());
            }
        } else if path.len <= MAX_BURST {
            self.burst(path.len, pattern, tdi);
            let ghost s1 = *self;
            proof {
                assert(Seq::new(
                    path.len as nat,
                    |i: int| Cycle { tms: bit8(pattern, i), tdi, tdo: false },
                ) =~= want);
            }
            self.maybe_flush();
            proof {
                Self::lemma_grew_chain(old(self), &s1, self, want, Seq::empty());
                assert(want + Seq::<Cycle>::empty() =~= want);
            }
        } else {
            self.burst(MAX_BURST, pattern, tdi);
            let ghost s1 = *self;
            let ghost head = Seq::new(
                7,
                |i: int| Cycle { tms: bit8(pattern, i), tdi, tdo: false },
            );
            self.burst(1, pattern >> 7, tdi);
            let ghost s2 = *self;
            let ghost tail = Seq::new(
                1,
                |i: int| Cycle { tms: bit8(pattern >> 7, i), tdi, tdo: false },
            );
            proof {
                lemma_top_bit(pattern);
                Self::lemma_grew_chain(old(self), &s1, &s2, head, tail);
                assert(head + tail =~= want);
            }
            self.maybe_flush();
            proof {
                Self::lemma_grew_chain(old(self), &s2, self, want, Seq::empty());
                assert(want + Seq::<Cycle>::empty() =~= want);
            }
        }
    }

    /// Shift all of `data` out on TDI, in as many commands as it takes.
    fn write_all(&mut self, data: &[u8], read: bool, notify: bool)
        requires
            old(self).inv(),
            read ==> old(self).owed() + data@.len() <= usize::MAX,
            notify ==> old(self).progress() + data@.len() <= usize::MAX,
        ensures
            final(self).grew(old(self), byte_cycles(data@, read)),
            final(self).owed() == old(self).owed() + if read {
                data@.len()
            } else {
                0
            },
            final(self).progress() == old(self).progress() + if notify {
                data@.len()
            } else {
                0
            },
    {
        let mut done: usize = 0;
        proof {
            Self::lemma_grew_nothing(self);
            assert(byte_cycles(data@.take(0), read) =~= Seq::<Cycle>::empty());
        }
        while done < data.len()
            invariant
                done <= data@.len(),
                self.grew(old(self), byte_cycles(data@.take(done as int), read)),
                read ==> old(self).owed() + data@.len() <= usize::MAX,
                notify ==> old(self).progress() + data@.len() <= usize::MAX,
                self.owed() == old(self).owed() + if read {
                    done as nat
                } else {
                    0
                },
                self.progress() == old(self).progress() + if notify {
                    done as nat
                } else {
                    0
                },
            decreases data@.len() - done,
        {
            let left = data.len() - done;
            let n = if left > MAX_READ_WRITE_LEN {
                MAX_READ_WRITE_LEN
            } else {
                left
            };
            let chunk = vstd::slice::slice_subrange(data, done, done + n);
            let ghost s1 = *self;
            let ghost so_far = byte_cycles(data@.take(done as int), read);
            self.write_bytes(chunk, read, notify);
            let ghost s2 = *self;
            self.maybe_flush();
            proof {
                let part = byte_cycles(chunk@, read);
                Self::lemma_grew_chain(&s1, &s2, self, part, Seq::empty());
                assert(part + Seq::<Cycle>::empty() =~= part);
                Self::lemma_grew_chain(old(self), &s1, self, so_far, part);
                assert(data@.take(done + n) =~= data@.take(done as int) + chunk@);
                lemma_byte_cycles_concat(data@.take(done as int), chunk@, read);
            }
            done = done + n;
        }
        proof {
            assert(data@.take(data@.len() as int) =~= data@);
        }
    }

    /// Sample `n` bytes of TDO, in as many commands as it takes.
    fn read_all(&mut self, n: usize)
        requires
            old(self).inv(),
            old(self).owed() + n <= usize::MAX,
            8 * n <= usize::MAX,
        ensures
            final(self).grew(old(self), constant_cycles(8 * n as nat, old(self).held, true)),
            final(self).held == old(self).held,
            final(self).owed() == old(self).owed() + n,
            final(self).progress() == old(self).progress(),
    {
        let ghost h = self.held;
        let mut done: usize = 0;
        proof {
            Self::lemma_grew_nothing(self);
            assert(constant_cycles(0, h, true) =~= Seq::<Cycle>::empty());
        }
        while done < n
            invariant
                done <= n,
                old(self).owed() + n <= usize::MAX,
                h == old(self).held,
                self.held == h,
                self.grew(old(self), constant_cycles(8 * done as nat, h, true)),
                self.owed() == old(self).owed() + done,
                self.progress() == old(self).progress(),
            decreases n - done,
        {
            let left = n - done;
            let k = if left > MAX_READ_WRITE_LEN {
                MAX_READ_WRITE_LEN
            } else {
                left
            };
            let ghost s1 = *self;
            self.read_bytes(k);
            let ghost s2 = *self;
            self.maybe_flush();
            proof {
                let so_far = constant_cycles(8 * done as nat, h, true);
                let part = constant_cycles(8 * k as nat, h, true);
                Self::lemma_grew_chain(&s1, &s2, self, part, Seq::empty());
                assert(part + Seq::<Cycle>::empty() =~= part);
                Self::lemma_grew_chain(old(self), &s1, self, so_far, part);
                assert(so_far + part =~= constant_cycles(8 * (done + k) as nat, h, true));
            }
            done = done + k;
        }
    }

    /// Hold TDI at `tdi` for `n` bytes' worth of cycles, in as many commands
    /// as it takes.
    fn constant_all(&mut self, tdi: bool, n: usize)
        requires
            old(self).inv(),
            8 * n <= usize::MAX,
        ensures
            final(self).grew(old(self), constant_cycles(8 * n as nat, tdi, false)),
            final(self).same_account(old(self)),
    {
        let byte: u8 = if tdi {
            0xff
        } else {
            0x00
        };
        let mut done: usize = 0;
        proof {
            Self::lemma_grew_nothing(self);
            assert(constant_cycles(0, tdi, false) =~= Seq::<Cycle>::empty());
        }
        while done < n
            invariant
                done <= n,
                byte == if tdi {
                    0xffu8
                } else {
                    0x00u8
                },
                self.grew(old(self), constant_cycles(8 * done as nat, tdi, false)),
                self.same_account(old(self)),
            decreases n - done,
        {
            let left = n - done;
            let k = if left > MAX_READ_WRITE_LEN {
                MAX_READ_WRITE_LEN
            } else {
                left
            };
            let mut chunk: Vec<u8> = Vec::new();
            let mut i: usize = 0;
            while i < k
                invariant
                    i <= k,
                    chunk@.len() == i,
                    forall|j: int| 0 <= j < i ==> chunk@[j] == byte,
                decreases k - i,
            {
                chunk.push(byte);
                i = i + 1;
            }
            let ghost s1 = *self;
            self.write_bytes(chunk.as_slice(), false, false);
            let ghost s2 = *self;
            self.maybe_flush();
            proof {
                let so_far = constant_cycles(8 * done as nat, tdi, false);
                let part = constant_cycles(8 * k as nat, tdi, false);
                assert(byte_cycles(chunk@, false) =~= part) by {
                    assert forall|j: int| 0 <= j < 8 implies bit8(byte, j) == tdi by {
                        lemma_constant_byte(j as u8);
                    }
                }
                Self::lemma_grew_chain(&s1, &s2, self, part, Seq::empty());
                assert(part + Seq::<Cycle>::empty() =~= part);
                Self::lemma_grew_chain(old(self), &s1, self, so_far, part);
                assert(so_far + part =~= constant_cycles(8 * (done + k) as nat, tdi, false));
            }
            done = done + k;
        }
    }

    /// Shift the low `n` bits of `data` out on TDI, eight bits to a command.
    fn write_word(&mut self, data: u32, n: u8)
        requires
            old(self).inv(),
            n <= 32,
        ensures
            final(self).grew(old(self), word_cycles(data, n as nat)),
            final(self).same_account(old(self)),
    {
        let mut done: u8 = 0;
        proof {
            Self::lemma_grew_nothing(self);
            assert(word_cycles(data, 0) =~= Seq::<Cycle>::empty());
        }
        while done < n
            invariant
                done <= n <= 32,
                self.grew(old(self), word_cycles(data, done as nat)),
                self.same_account(old(self)),
            decreases n - done,
        {
            let left = n - done;
            let k: u8 = if left > 8 {
                8
            } else {
                left
            };
            let ghost s1 = *self;
            let low = ((data >> (done as u32)) & 0xff) as u8;
            self.write_bits(k, low, false);
            proof {
                let so_far = word_cycles(data, done as nat);
                let part = bit_cycles(k as nat, low, false);
                Self::lemma_grew_chain(old(self), &s1, self, so_far, part);
                assert forall|j: int| 0 <= j < k implies bit8(low, j) == crate::backend::bit32(
                    data,
                    j + done,
                ) by {
                    lemma_word_chunk(data, done as u32, j as u32, low);
                }
                assert(so_far + part =~= word_cycles(data, (done + k) as nat));
            }
            done = done + k;
        }
    }
}

/// A leaving path clocked with TDI at the last payload bit is the edge that
/// bit rides on, and the rest of the path.
proof fn lemma_path_split(path: Path, tdi: bool)
    requires
        path.len > 0,
    ensures
        path_cycles(path, tdi) == seq![Cycle { tms: path.bit(0), tdi, tdo: false }]
            + crate::bitbang::exit_tail(path, tdi),
{
    assert(path_cycles(path, tdi) =~= seq![Cycle { tms: path.bit(0), tdi, tdo: false }]
        + crate::bitbang::exit_tail(path, tdi));
}

/// Bytes whose last bit rides on the leaving path: all bytes but the last,
/// seven bits of the last, and the path with TDI at the eighth.
proof fn lemma_tx_merged(d: Seq<u8>, read: bool, path: Path, held: bool)
    requires
        d.len() > 0,
        path.len > 0,
    ensures
        shift_cycles(byte_cycles(d, read), Some(path), held, false) == byte_cycles(
            d.drop_last(),
            read,
        ) + bit_cycles(7, d.last(), read) + path_cycles(path, bit8(d.last(), 7)),
{
    let payload = byte_cycles(d, read);
    let b7 = bit8(d.last(), 7);
    let n = d.len() as int;
    assert((8 * n - 1) / 8 == n - 1);
    assert((8 * n - 1) % 8 == 7);
    crate::bitbang::lemma_shift_merged(payload, path, held, false);
    lemma_path_split(path, b7);
    let head = byte_cycles(d.drop_last(), read) + bit_cycles(7, d.last(), read);
    assert(payload.drop_last() =~= head) by {
        assert forall|i: int| 0 <= i < head.len() implies payload.drop_last()[i] == head[i] by {
            if i >= 8 * (n - 1) {
                assert(i / 8 == n - 1);
                assert(i % 8 == i - 8 * (n - 1));
            }
        }
    }
    let merged = Cycle { tms: path.bit(0), tdi: b7, tdo: false };
    let tail = crate::bitbang::exit_tail(path, b7);
    assert(head.push(merged) + tail =~= head + (seq![merged] + tail));
}

/// Constant cycles whose last rides on the leaving path: all bytes but the
/// last, seven bits, and the path with TDI at the same level.
proof fn lemma_constant_merged(n: nat, tdi: bool, path: Path, held: bool)
    requires
        n > 0,
        path.len > 0,
    ensures
        shift_cycles(constant_cycles(8 * n, tdi, false), Some(path), held, false)
            == constant_cycles((8 * (n - 1)) as nat, tdi, false) + bit_cycles(
            7,
            if tdi {
                0xffu8
            } else {
                0x00u8
            },
            false,
        ) + path_cycles(path, tdi),
{
    let payload = constant_cycles(8 * n, tdi, false);
    let byte = if tdi {
        0xffu8
    } else {
        0x00u8
    };
    crate::bitbang::lemma_shift_merged(payload, path, held, false);
    lemma_path_split(path, tdi);
    let head = constant_cycles((8 * (n - 1)) as nat, tdi, false) + bit_cycles(7, byte, false);
    assert(payload.drop_last() =~= head) by {
        assert forall|j: int| 0 <= j < 8 implies bit8(byte, j) == tdi by {
            lemma_constant_byte(j as u8);
        }
    }
    let merged = Cycle { tms: path.bit(0), tdi, tdo: false };
    let tail = crate::bitbang::exit_tail(path, tdi);
    assert(head.push(merged) + tail =~= head + (seq![merged] + tail));
}

/// A read whose last cycle rides on the leaving path: all bytes but the
/// last, seven cycles, and the path with TDI at rest.
proof fn lemma_rx_merged(n: nat, path: Path, held: bool)
    requires
        n > 0,
        path.len > 0,
    ensures
        shift_cycles(constant_cycles(8 * n, held, true), Some(path), held, false)
            == constant_cycles((8 * (n - 1)) as nat, held, true) + constant_cycles(7, held, true)
            + path_cycles(path, held),
{
    let payload = constant_cycles(8 * n, held, true);
    crate::bitbang::lemma_shift_merged(payload, path, held, false);
    lemma_path_split(path, held);
    let head = constant_cycles((8 * (n - 1)) as nat, held, true) + constant_cycles(
        7,
        held,
        true,
    );
    assert(payload.drop_last() =~= head);
    let merged = Cycle { tms: path.bit(0), tdi: held, tdo: false };
    let tail = crate::bitbang::exit_tail(path, held);
    assert(head.push(merged) + tail =~= head + (seq![merged] + tail));
}

/// A word whose last bit rides on the leaving path: all bits but the last,
/// and the path with TDI at the last.
proof fn lemma_word_merged(data: u32, n: nat, path: Path, held: bool)
    requires
        0 < n <= 32,
        path.len > 0,
    ensures
        shift_cycles(word_cycles(data, n), Some(path), held, false) == word_cycles(
            data,
            (n - 1) as nat,
        ) + path_cycles(path, crate::backend::bit32(data, n - 1)),
{
    let payload = word_cycles(data, n);
    let last = crate::backend::bit32(data, n - 1);
    crate::bitbang::lemma_shift_merged(payload, path, held, false);
    lemma_path_split(path, last);
    let head = word_cycles(data, (n - 1) as nat);
    assert(payload.drop_last() =~= head);
    let merged = Cycle { tms: path.bit(0), tdi: last, tdo: false };
    let tail = crate::bitbang::exit_tail(path, last);
    assert(head.push(merged) + tail =~= head + (seq![merged] + tail));
}

impl Stream {
    /// Leave by `after` with TDI where it rests.
    fn leave(&mut self, after: Option<Path>)
        requires
            old(self).inv(),
            path_wf(after),
        ensures
            final(self).grew(old(self), entry_cycles(after, old(self).held)),
            final(self).held == old(self).held,
            final(self).same_account(old(self)),
    {
        match after {
            None => {
                proof {
                    Self::lemma_grew_nothing(self);
                }
            },
            Some(p) => {
                self.clock(p, self.held);
                proof {
                    assert(path_cycles(p, old(self).held) =~= tms_cycles(p, old(self).held));
                    lemma_level_entry(after, old(self).held);
                }
            },
        }
    }

    /// Shift `d` out and leave by `after`, the last bit riding on its first
    /// edge.
    fn tx(&mut self, d: &[u8], read: bool, notify: bool, after: Option<Path>)
        requires
            old(self).inv(),
            path_wf(after),
            read ==> old(self).owed() + d@.len() <= usize::MAX,
            notify ==> old(self).progress() + d@.len() <= usize::MAX,
        ensures
            final(self).grew(
                old(self),
                shift_cycles(byte_cycles(d@, read), after, old(self).held, false),
            ),
            final(self).owed() == old(self).owed() + if read {
                d@.len()
            } else {
                0
            },
            final(self).progress() == old(self).progress() + if notify {
                d@.len()
            } else {
                0
            },
    {
        let ghost h = self.held;
        let merge = match after {
            Some(p) => p.len > 0 && d.len() > 0,
            None => false,
        };
        if merge {
            let p = after.unwrap();
            let n = d.len();
            let body = vstd::slice::slice_subrange(d, 0, n - 1);
            let last = d[n - 1];
            self.write_all(body, read, notify);
            let ghost s1 = *self;
            self.write_bits(7, last, read);
            if notify {
                self.notify = self.notify + 1;
            }
            let ghost s2 = *self;
            proof {
                assert(s2.wire() == s1.wire() + bit_cycles(7, last, read));
                assert(s2.grew(&s1, bit_cycles(7, last, read)));
            }
            self.clock(p, (last >> 7) & 1 == 1);
            proof {
                let a = byte_cycles(body@, read);
                let b = bit_cycles(7, last, read);
                let c = path_cycles(p, bit8(last, 7));
                Self::lemma_grew_chain(old(self), &s1, &s2, a, b);
                Self::lemma_grew_chain(old(self), &s2, self, a + b, c);
                assert(body@ =~= d@.drop_last());
                lemma_tx_merged(d@, read, p, h);
            }
        } else {
            self.write_all(d, read, notify);
            let ghost s1 = *self;
            self.leave(after);
            proof {
                let a = byte_cycles(d@, read);
                crate::bitbang::lemma_shift_plain(a, after, h, false);
                Self::lemma_grew_chain(old(self), &s1, self, a, entry_cycles(after, s1.held));
            }
        }
    }

    /// Sample `n` bytes and leave by `after`, the last cycle riding on its
    /// first edge, where the chip cannot sample.
    fn rx(&mut self, n: usize, after: Option<Path>)
        requires
            old(self).inv(),
            path_wf(after),
            old(self).owed() + n <= usize::MAX,
            8 * n <= usize::MAX,
        ensures
            final(self).grew(
                old(self),
                shift_cycles(
                    constant_cycles(8 * n as nat, old(self).held, true),
                    after,
                    old(self).held,
                    false,
                ),
            ),
            final(self).owed() == old(self).owed() + n,
            final(self).progress() == old(self).progress(),
    {
        let ghost h = self.held;
        let merge = match after {
            Some(p) => p.len > 0 && n > 0,
            None => false,
        };
        if merge {
            let p = after.unwrap();
            self.read_all(n - 1);
            let ghost s1 = *self;
            self.read_bits(7);
            let ghost s2 = *self;
            self.clock(p, self.held);
            proof {
                let a = constant_cycles((8 * (n - 1)) as nat, h, true);
                let b = constant_cycles(7, h, true);
                let c = path_cycles(p, h);
                Self::lemma_grew_chain(old(self), &s1, &s2, a, b);
                Self::lemma_grew_chain(old(self), &s2, self, a + b, c);
                lemma_rx_merged(n as nat, p, h);
            }
        } else {
            self.read_all(n);
            let ghost s1 = *self;
            self.leave(after);
            proof {
                let a = constant_cycles(8 * n as nat, h, true);
                crate::bitbang::lemma_shift_plain(a, after, h, false);
                Self::lemma_grew_chain(old(self), &s1, self, a, entry_cycles(after, s1.held));
                if a.len() > 0 {
                    assert(a.last().tdi == h);
                }
            }
        }
    }

    /// Hold TDI at `tdi` for `n` bytes' worth of cycles and leave by `after`,
    /// the last cycle riding on its first edge.
    fn constant(&mut self, tdi: bool, n: usize, after: Option<Path>)
        requires
            old(self).inv(),
            path_wf(after),
            8 * n <= usize::MAX,
        ensures
            final(self).grew(
                old(self),
                shift_cycles(
                    constant_cycles(8 * n as nat, tdi, false),
                    after,
                    old(self).held,
                    false,
                ),
            ),
            final(self).same_account(old(self)),
    {
        let ghost h = self.held;
        let merge = match after {
            Some(p) => p.len > 0 && n > 0,
            None => false,
        };
        if merge {
            let p = after.unwrap();
            self.constant_all(tdi, n - 1);
            let ghost s1 = *self;
            let byte: u8 = if tdi {
                0xff
            } else {
                0x00
            };
            self.write_bits(7, byte, false);
            let ghost s2 = *self;
            self.clock(p, tdi);
            proof {
                let a = constant_cycles((8 * (n - 1)) as nat, tdi, false);
                let b = bit_cycles(7, byte, false);
                let c = path_cycles(p, tdi);
                Self::lemma_grew_chain(old(self), &s1, &s2, a, b);
                Self::lemma_grew_chain(old(self), &s2, self, a + b, c);
                lemma_constant_merged(n as nat, tdi, p, h);
            }
        } else {
            self.constant_all(tdi, n);
            let ghost s1 = *self;
            self.leave(after);
            proof {
                let a = constant_cycles(8 * n as nat, tdi, false);
                crate::bitbang::lemma_shift_plain(a, after, h, false);
                Self::lemma_grew_chain(old(self), &s1, self, a, entry_cycles(after, s1.held));
            }
        }
    }

    /// Shift the low `n` bits of `data` and leave by `after`, the last bit
    /// riding on its first edge.
    fn word(&mut self, data: u32, n: u8, after: Option<Path>)
        requires
            old(self).inv(),
            path_wf(after),
            n <= 32,
        ensures
            final(self).grew(
                old(self),
                shift_cycles(word_cycles(data, n as nat), after, old(self).held, false),
            ),
            final(self).same_account(old(self)),
    {
        let ghost h = self.held;
        let merge = match after {
            Some(p) => p.len > 0 && n > 0,
            None => false,
        };
        if merge {
            let p = after.unwrap();
            self.write_word(data, n - 1);
            let ghost s1 = *self;
            let last = (data >> ((n - 1) as u32)) & 1 == 1;
            self.clock(p, last);
            proof {
                let a = word_cycles(data, (n - 1) as nat);
                Self::lemma_grew_chain(old(self), &s1, self, a, path_cycles(p, last));
                lemma_word_merged(data, n as nat, p, h);
            }
        } else {
            self.write_word(data, n);
            let ghost s1 = *self;
            self.leave(after);
            proof {
                let a = word_cycles(data, n as nat);
                crate::bitbang::lemma_shift_plain(a, after, h, false);
                Self::lemma_grew_chain(old(self), &s1, self, a, entry_cycles(after, s1.held));
            }
        }
    }
}

/// What a byte shift of `d` that leaves by `path` puts on the wire: one
/// cycle for every bit of `d`, least significant bit of every byte first,
/// with TMS low on all but the last, where it is the first bit of the
/// path; then the rest of the path. Nothing is sampled on the last bit.
pub proof fn lemma_tx_wire(d: Seq<u8>, read: bool, path: Path, held: bool)
    requires
        d.len() > 0,
        path.len > 0,
    ensures
        ({
            let w = shift_cycles(byte_cycles(d, read), Some(path), held, false);
            let n = 8 * d.len() as int;
            &&& w.len() == n + path.len - 1
            &&& forall|i: int| 0 <= i < n ==> (#[trigger] w[i]).tdi == bit8(d[i / 8], i % 8)
            &&& forall|i: int| 0 <= i < n - 1 ==> !(#[trigger] w[i]).tms && w[i].tdo == read
            &&& w[n - 1].tms == path.bit(0)
            &&& !w[n - 1].tdo
            &&& forall|i: int|
                n <= i < w.len() ==> (#[trigger] w[i]).tms == path.bit(i - n + 1) && !w[i].tdo
        }),
{
    crate::bitbang::lemma_shift_merged(byte_cycles(d, read), path, held, false);
}

/// Set the levels and directions of the low byte of the pins.
pub const SET_BITS_LOW: u8 = 0x80;

/// Set the levels and directions of the high byte of the pins.
pub const SET_BITS_HIGH: u8 = 0x82;

/// Set the clock divisor.
pub const SET_CLOCK_DIVISOR: u8 = 0x86;

/// Clock from the full 60 MHz in place of a fifth of it.
pub const DISABLE_CLOCK_DIVIDE: u8 = 0x8a;

/// The commands that set a chip up for a board: the pins of the low byte,
/// the pins of the high byte and, where a divisor is given, the clock: the
/// chip then clocks at 30 MHz divided by the divisor and one.
pub open spec fn init_burst(info: devices::Info, divisor: Option<u16>) -> Seq<u8> {
    seq![
        SET_BITS_LOW,
        info.dbus_data,
        info.dbus_en,
        SET_BITS_HIGH,
        info.cbus_data,
        info.cbus_en,
    ] + match divisor {
        Some(d) => seq![
            DISABLE_CLOCK_DIVIDE,
            SET_CLOCK_DIVISOR,
            (d % 256) as u8,
            (d / 256) as u8,
        ],
        None => Seq::empty(),
    }
}

/// The driver of one FT2232H-class cable.
pub struct Device {
    stream: Stream,
    notifying: bool,
}

impl Device {
    /// A driver for a cable on the board `info`, and the exchange that sets
    /// the chip up: its pins and, where `divisor` is given, its clock.
    pub fn new(info: &devices::Info, divisor: Option<u16>) -> (r: (Self, Transfer))
        ensures
            r.0.inv(),
            r.0.wire() == Seq::<Cycle>::empty(),
            r.0.start(),
            r.0.owed() == 0,
            r.0.progress() == 0,
            !r.0.notifying(),
            r.1.out@ == init_burst(*info, divisor),
            r.1.read_len == 0,
            r.1.notify == 0,
            r.1.bits == 0,
    {
        let mut out: Vec<u8> = Vec::new();
        out.push(SET_BITS_LOW);
        out.push(info.dbus_data);
        out.push(info.dbus_en);
        out.push(SET_BITS_HIGH);
        out.push(info.cbus_data);
        out.push(info.cbus_en);
        match divisor {
            Some(d) => {
                out.push(DISABLE_CLOCK_DIVIDE);
                out.push(SET_CLOCK_DIVISOR);
                out.push((d % 256) as u8);
                out.push((d / 256) as u8);
            },
            None => {},
        }
        proof {
            assert(out@ =~= init_burst(*info, divisor));
        }
        let device = Device { stream: Stream::new(), notifying: false };
        (device, Transfer { out, bits: 0, read_len: 0, notify: 0 })
    }
}

impl Backend for Device {
    closed spec fn inv(&self) -> bool {
        self.stream.inv() && self.stream.rested()
    }

    closed spec fn wire(&self) -> Seq<Cycle> {
        self.stream.wire()
    }

    closed spec fn start(&self) -> bool {
        self.stream.start
    }

    closed spec fn owed(&self) -> nat {
        self.stream.owed()
    }

    closed spec fn progress(&self) -> nat {
        self.stream.progress()
    }

    closed spec fn notifying(&self) -> bool {
        self.notifying
    }

    open spec fn exit_reads(&self) -> bool {
        false
    }

    open spec fn carried(transfers: Seq<Transfer>, held: bool) -> Seq<Cycle> {
        queue_wire(transfers, held)
    }

    fn notify(&mut self, on: bool) {
        self.notifying = on;
    }

    fn tms(&mut self, path: Path) {
        let ghost s0 = self.stream;
        let ghost want = tms_cycles(path, self.stream.held);
        proof {
            assert(path_cycles(path, self.stream.held) =~= want);
        }
        self.stream.clock(path, self.stream.held);
        let ghost s1 = self.stream;
        self.stream.maybe_flush();
        proof {
            Stream::lemma_grew_chain(&s0, &s1, &self.stream, want, Seq::empty());
            assert(want + Seq::<Cycle>::empty() =~= want);
        }
    }

    fn bytes(&mut self, before: Option<Path>, data: Data<'_>, after: Option<Path>) {
        let ghost s0 = self.stream;
        let ghost h = self.stream.held;
        self.stream.leave(before);
        let ghost s1 = self.stream;
        let ghost e = entry_cycles(before, h);
        let notify = self.notifying;
        match data {
            Data::Tx(d) => {
                self.stream.tx(d, false, notify, after);
            },
            Data::TxRx(d) => {
                self.stream.tx(d, true, notify, after);
            },
            Data::Rx(n) => {
                self.stream.rx(n.0, after);
            },
            Data::ConstantTx(tdi, n) => {
                self.stream.constant(tdi, n.0, after);
            },
        }
        let ghost s2 = self.stream;
        self.stream.maybe_flush();
        proof {
            let sh = shift_cycles(data.payload(h), after, h, false);
            Stream::lemma_grew_chain(&s0, &s1, &s2, e, sh);
            Stream::lemma_grew_chain(&s0, &s2, &self.stream, e + sh, Seq::empty());
            assert(e + sh + Seq::<Cycle>::empty() =~= e + sh);
        }
    }

    fn bits(&mut self, before: Option<Path>, data: u32, len: Bits<u8>, after: Option<Path>) {
        let ghost s0 = self.stream;
        let ghost h = self.stream.held;
        self.stream.leave(before);
        let ghost s1 = self.stream;
        self.stream.word(data, len.0, after);
        let ghost s2 = self.stream;
        self.stream.maybe_flush();
        proof {
            let e = entry_cycles(before, h);
            let sh = shift_cycles(word_cycles(data, len.0 as nat), after, h, false);
            Stream::lemma_grew_chain(&s0, &s1, &s2, e, sh);
            Stream::lemma_grew_chain(&s0, &s2, &self.stream, e + sh, Seq::empty());
            assert(e + sh + Seq::<Cycle>::empty() =~= e + sh);
        }
    }

    fn flush(&mut self) -> (r: Vec<Transfer>)
        ensures
            sealed(r@),
            closed_full(r@),
            r@.len() > 0,
    {
        self.stream.close();
        let mut queue: Vec<Transfer> = Vec::new();
        core::mem::swap(&mut self.stream.queue, &mut queue);
        self.stream.start = self.stream.held;
        proof {
            assert(self.stream.wire() =~= Seq::<Cycle>::empty());
        }
        queue
    }
}

proof fn lemma_burst_byte(pattern: u8, tdi: bool, data: u8, i: u8)
    by (bit_vector)
    requires
        i < 8,
        data == (pattern & 0x7f) | (if tdi {
            0x80u8
        } else {
            0u8
        }),
    ensures
        ((data >> i) & 1 == 1) == (if i == 7 {
            tdi
        } else {
            (pattern >> i) & 1 == 1
        }),
{
}

} // verus!
