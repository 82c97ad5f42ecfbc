//! Finding out which devices sit on the scan chain.
//!
//! After a reset every device shifts its identification code out of its data
//! register. The detector reads one more code with every round until the
//! chain answers with all ones. It performs no I/O: each round is a request
//! for exchanges and a reply to evaluate.

use crate::backend::{
    bits_cycles, byte_cycles, bytes_cycles, constant_cycles, entry_cycles, held, level,
    shift_cycles, tms_cycles, tms_of, total_read, Backend, Cycle, Data, Transfer,
};
use crate::controller::{
    do_bits, do_bytes, do_tms, grew, init_cycles, lemma_follow_zeros, lemma_grew_chain,
    lemma_grew_nothing, lemma_init_reaches_idle, lemma_tms_concat, lemma_tms_path,
    lemma_tms_shift, low_edges, reset_chain, zeros,
};
use crate::devices::{
    find, lemma_knows_xc7a35t, lemma_knows_xcku3p, lemma_knows_xczu3eg, lookup, row, rows_map,
    spec_x32, xilinx_rows, DeviceInfo, Xilinx32Family,
};
use crate::error::Error;
use crate::jtag::{
    follow, get_path, lemma_follow_concat, lemma_named_paths_reach, lemma_route, route, Path,
    State,
};
use crate::units::{Bits, Bytes};
use std::collections::HashMap;
use vstd::prelude::*;

verus! {

/// What the word read behind the devices found so far says.
#[derive(Clone, Copy, Debug, PartialEq, Eq, Structural)]
pub enum Verdict {
    /// All ones: no further device drives the line.
    End,
    /// The placeholder that a Zynq UltraScale+ shows until it is woken.
    Wake,
    /// A device in bypass: its first bit is zero.
    Bypass,
    /// The identification code of a device.
    Device,
}

/// The word that marks the end of the chain.
pub const END_OF_CHAIN: u32 = 0xffff_ffff;

/// The low twelve bits of the placeholder of a Zynq UltraScale+.
pub const ZYNQ_PLACEHOLDER: u32 = 0x126;

/// The instruction that wakes a Zynq UltraScale+, sixteen bits.
pub const ZYNQ_JTAG_CTRL: u32 = 0x824f;

/// The most devices that a chain may hold: 32 on either side of one.
pub const MAX_CHAIN: usize = 65;

/// What a word says, where `first` tells that no device was found before it.
pub open spec fn verdict(word: u32, first: bool) -> Verdict {
    if word == 0xffff_ffff {
        Verdict::End
    } else if first && word & 0xfff == 0x126 {
        Verdict::Wake
    } else if word & 1 != 1 {
        Verdict::Bypass
    } else {
        Verdict::Device
    }
}

/// What a word says, where `first` tells that no device was found before it.
pub fn classify(word: u32, first: bool) -> (r: Verdict)
    ensures
        r == verdict(word, first),
{
    if word == END_OF_CHAIN {
        Verdict::End
    } else if first && word & 0xfff == ZYNQ_PLACEHOLDER {
        Verdict::Wake
    } else if word & 1 != 1 {
        Verdict::Bypass
    } else {
        Verdict::Device
    }
}

/// The word whose bytes, least significant first, stand at `at` in `bytes`.
pub open spec fn le_word(bytes: Seq<u8>, at: int) -> u32 {
    (bytes[at] as u32) | (bytes[at + 1] as u32) << 8 | (bytes[at + 2] as u32) << 16 | (bytes[at
        + 3] as u32) << 24
}

/// The word whose bytes, least significant first, stand at `at` in `bytes`.
pub fn read_le_word(bytes: &[u8], at: usize) -> (r: u32)
    requires
        at + 4 <= bytes@.len(),
    ensures
        r == le_word(bytes@, at as int),
{
    (bytes[at] as u32) | (bytes[at + 1] as u32) << 8 | (bytes[at + 2] as u32) << 16 | (bytes[at
        + 3] as u32) << 24
}

/// The state of a detection: the devices found so far, in chain order, and
/// what the next reply will be the answer to.
pub struct Detector {
    found: Vec<(u32, DeviceInfo)>,
    started: bool,
    waking: bool,
    done: bool,
}

/// The state of a detection as a value.
pub struct DetectorView {
    pub found: Seq<(u32, DeviceInfo)>,
    /// Whether the chain was reset already.
    pub started: bool,
    /// Whether the next reply answers the wake-up of a Zynq UltraScale+.
    pub waking: bool,
    /// Whether the end of the chain was seen.
    pub done: bool,
}

impl View for Detector {
    type V = DetectorView;

    closed spec fn view(&self) -> DetectorView {
        DetectorView {
            found: self.found@,
            started: self.started,
            waking: self.waking,
            done: self.done,
        }
    }
}

/// An operation on a wire whose TDI rests at `held`: enter, shift, leave.
pub open spec fn op_cycles(
    before: Option<Path>,
    payload: Seq<Cycle>,
    after: Option<Path>,
    held: bool,
    exit_reads: bool,
) -> Seq<Cycle> {
    entry_cycles(before, held) + shift_cycles(payload, after, held, exit_reads)
}

/// One cycle at rest with TDI high.
pub open spec fn rest_high() -> Seq<Cycle> {
    seq![Cycle { tms: false, tdi: true, tdo: false }]
}

/// The cycles that read the identification codes of `n + 1` devices: one
/// cycle at rest that raises TDI, so that ones follow the last code, then
/// from Run-Test-Idle into Shift-DR, four bytes sampled per device, and
/// back.
pub open spec fn scan_cycles(n: nat, exit_reads: bool) -> Seq<Cycle> {
    rest_high() + op_cycles(
        Some(route(State::RunTestIdle, State::ShiftDR)),
        constant_cycles(8 * (4 * (n + 1)) as nat, true, true),
        Some(route(State::ShiftDR, State::RunTestIdle)),
        true,
        exit_reads,
    )
}

/// The cycles that wake a Zynq UltraScale+ and read its identification
/// code: reset; the wake-up instruction, sixteen bits, shifted from
/// Test-Logic-Reset; the word 3 written to the data register; 32 ones
/// clocked through it; four bytes read from it.
pub open spec fn wake_cycles(held: bool, exit_reads: bool) -> Seq<Cycle> {
    let a = tms_cycles(Path::spec_reset(), held);
    let b = bits_cycles(
        Some(route(State::TestLogicReset, State::ShiftIR)),
        ZYNQ_JTAG_CTRL,
        16,
        Some(route(State::ShiftIR, State::RunTestIdle)),
        level(a, held),
    );
    let c = op_cycles(
        Some(route(State::RunTestIdle, State::ShiftDR)),
        byte_cycles(seq![3u8, 0u8, 0u8, 0u8], false),
        Some(route(State::ShiftDR, State::TestLogicReset)),
        level(a + b, held),
        exit_reads,
    );
    let d = op_cycles(
        Some(route(State::TestLogicReset, State::ShiftDR)),
        constant_cycles(32, true, false),
        Some(route(State::ShiftDR, State::TestLogicReset)),
        level(a + b + c, held),
        exit_reads,
    );
    let e = op_cycles(
        Some(route(State::TestLogicReset, State::ShiftDR)),
        constant_cycles(32, level(a + b + c + d, held), true),
        Some(route(State::ShiftDR, State::RunTestIdle)),
        level(a + b + c + d, held),
        exit_reads,
    );
    a + b + c + d + e
}

/// Queue the wake-up of a Zynq UltraScale+ and the read of its
/// identification code.
fn wake<B: Backend>(backend: &mut B)
    requires
        old(backend).inv(),
        old(backend).owed() == 0,
        old(backend).progress() == 0,
    ensures
        grew(
            old(backend),
            final(backend),
            wake_cycles(held(old(backend)), old(backend).exit_reads()),
        ),
        final(backend).owed() == 4,
        final(backend).notifying() == old(backend).notifying(),
{
    let ghost s0 = *backend;
    let ghost h = held(&s0);
    let ghost er = backend.exit_reads();
    let reset_to_sir = get_path(State::TestLogicReset, State::ShiftIR);
    let sir_to_idle = get_path(State::ShiftIR, State::RunTestIdle);
    let idle_to_sdr = get_path(State::RunTestIdle, State::ShiftDR);
    let sdr_to_reset = get_path(State::ShiftDR, State::TestLogicReset);
    let reset_to_sdr = get_path(State::TestLogicReset, State::ShiftDR);
    let sdr_to_idle = get_path(State::ShiftDR, State::RunTestIdle);
    let ghost s0n = *backend;
    do_tms(backend, Path::reset());
    let ghost s1 = *backend;
    let ghost a = tms_cycles(Path::spec_reset(), h);
    do_bits(backend, Some(reset_to_sir), ZYNQ_JTAG_CTRL, Bits(16), Some(sir_to_idle));
    let ghost s2 = *backend;
    let ghost b = bits_cycles(Some(reset_to_sir), ZYNQ_JTAG_CTRL, 16, Some(sir_to_idle), held(&s1));
    proof {
        lemma_grew_chain(&s0n, &s1, &s2, a, b);
    }
    let three: [u8; 4] = [3, 0, 0, 0];
    let three_bytes = three.as_slice();
    proof {
        assert(three_bytes@ =~= seq![3u8, 0u8, 0u8, 0u8]);
    }
    do_bytes(backend, Some(idle_to_sdr), Data::Tx(three_bytes), Some(sdr_to_reset));
    let ghost s3 = *backend;
    let ghost c = bytes_cycles(
        Some(idle_to_sdr),
        Data::Tx(three_bytes),
        Some(sdr_to_reset),
        held(&s2),
        er,
    );
    proof {
        lemma_grew_chain(&s0n, &s2, &s3, a + b, c);
    }
    do_bytes(backend, Some(reset_to_sdr), Data::ConstantTx(true, Bytes(4)), Some(sdr_to_reset));
    let ghost s4 = *backend;
    let ghost d = bytes_cycles(
        Some(reset_to_sdr),
        Data::ConstantTx(true, Bytes(4)),
        Some(sdr_to_reset),
        held(&s3),
        er,
    );
    proof {
        lemma_grew_chain(&s0n, &s3, &s4, a + b + c, d);
    }
    do_bytes(backend, Some(reset_to_sdr), Data::Rx(Bytes(4)), Some(sdr_to_idle));
    let ghost e = bytes_cycles(
        Some(reset_to_sdr),
        Data::Rx(Bytes(4)),
        Some(sdr_to_idle),
        held(&s4),
        er,
    );
    proof {
        lemma_grew_chain(&s0n, &s4, backend, a + b + c + d, e);
    }
}

/// An operation that enters a shift state by the route from `from` and
/// leaves it by the route to `to` takes the TAP from `from` to `to`.
pub proof fn lemma_op_moves(
    from: State,
    shift: State,
    to: State,
    payload: Seq<Cycle>,
    held: bool,
    exit_reads: bool,
)
    requires
        shift.next(false) == shift,
        forall|i: int| 0 <= i < payload.len() ==> !(#[trigger] payload[i]).tms,
    ensures
        follow(
            from,
            tms_of(
                op_cycles(
                    Some(route(from, shift)),
                    payload,
                    Some(route(shift, to)),
                    held,
                    exit_reads,
                ),
            ),
        ) == to,
{
    let entry = route(from, shift);
    let exit = route(shift, to);
    let e = tms_cycles(entry, held);
    let sh = shift_cycles(payload, Some(exit), held, exit_reads);
    let k = low_edges(payload.len(), exit);
    lemma_route(from, shift);
    lemma_route(shift, to);
    lemma_tms_shift(payload, exit, held, exit_reads);
    lemma_tms_path(entry, held);
    lemma_tms_concat(e, sh);
    lemma_follow_concat(from, entry@, zeros(k) + exit@);
    lemma_follow_concat(shift, zeros(k), exit@);
    lemma_follow_zeros(shift, k);
}

/// A scan finds the TAP in Run-Test-Idle and leaves it there.
pub proof fn lemma_scan_keeps_idle(n: nat, exit_reads: bool)
    ensures
        follow(State::RunTestIdle, tms_of(scan_cycles(n, exit_reads))) == State::RunTestIdle,
{
    let idle = State::RunTestIdle;
    let read = op_cycles(
        Some(route(idle, State::ShiftDR)),
        constant_cycles(8 * (4 * (n + 1)) as nat, true, true),
        Some(route(State::ShiftDR, idle)),
        true,
        exit_reads,
    );
    lemma_op_moves(
        idle,
        State::ShiftDR,
        idle,
        constant_cycles(8 * (4 * (n + 1)) as nat, true, true),
        true,
        exit_reads,
    );
    lemma_tms_concat(rest_high(), read);
    assert(tms_of(rest_high()) =~= zeros(1));
    lemma_follow_zeros(idle, 1);
    lemma_follow_concat(idle, zeros(1), tms_of(read));
}

/// The wake-up of a Zynq UltraScale+ leaves the TAP in Run-Test-Idle,
/// whatever state it finds it in.
pub proof fn lemma_wake_reaches_idle(start: State, held: bool, exit_reads: bool)
    ensures
        follow(start, tms_of(wake_cycles(held, exit_reads))) == State::RunTestIdle,
{
    let reset = State::TestLogicReset;
    let idle = State::RunTestIdle;
    let a = tms_cycles(Path::spec_reset(), held);
    let ha = level(a, held);
    let word = crate::backend::word_cycles(ZYNQ_JTAG_CTRL, 16);
    let b = bits_cycles(
        Some(route(reset, State::ShiftIR)),
        ZYNQ_JTAG_CTRL,
        16,
        Some(route(State::ShiftIR, idle)),
        ha,
    );
    let hb = level(a + b, held);
    let three = byte_cycles(seq![3u8, 0u8, 0u8, 0u8], false);
    let c = op_cycles(
        Some(route(idle, State::ShiftDR)),
        three,
        Some(route(State::ShiftDR, reset)),
        hb,
        exit_reads,
    );
    let hc = level(a + b + c, held);
    let ones = constant_cycles(32, true, false);
    let d = op_cycles(
        Some(route(reset, State::ShiftDR)),
        ones,
        Some(route(State::ShiftDR, reset)),
        hc,
        exit_reads,
    );
    let hd = level(a + b + c + d, held);
    let read = constant_cycles(32, hd, true);
    let e = op_cycles(
        Some(route(reset, State::ShiftDR)),
        read,
        Some(route(State::ShiftDR, idle)),
        hd,
        exit_reads,
    );
    lemma_tms_path(Path::spec_reset(), held);
    lemma_named_paths_reach(start);
    lemma_op_moves(reset, State::ShiftIR, idle, word, ha, false);
    lemma_op_moves(idle, State::ShiftDR, reset, three, hb, exit_reads);
    lemma_op_moves(reset, State::ShiftDR, reset, ones, hc, exit_reads);
    lemma_op_moves(reset, State::ShiftDR, idle, read, hd, exit_reads);
    lemma_tms_concat(a, b);
    lemma_tms_concat(a + b, c);
    lemma_tms_concat(a + b + c, d);
    lemma_tms_concat(a + b + c + d, e);
    lemma_follow_concat(start, tms_of(a), tms_of(b));
    lemma_follow_concat(start, tms_of(a + b), tms_of(c));
    lemma_follow_concat(start, tms_of(a + b + c), tms_of(d));
    lemma_follow_concat(start, tms_of(a + b + c + d), tms_of(e));
}

impl DetectorView {
    /// Every request leaves the TAP in Run-Test-Idle: the first from any
    /// state, the later ones from Run-Test-Idle, where the one before left
    /// it.
    pub proof fn lemma_request_reaches_idle(self, start: State, held: bool, exit_reads: bool)
        requires
            self.started ==> start == State::RunTestIdle,
        ensures
            follow(start, tms_of(self.request_cycles(held, exit_reads))) == State::RunTestIdle,
    {
        if self.waking {
            lemma_wake_reaches_idle(start, held, exit_reads);
        } else {
            lemma_scan_keeps_idle(self.found.len(), exit_reads);
            if !self.started {
                let init = init_cycles(held);
                let scan = scan_cycles(self.found.len(), exit_reads);
                lemma_init_reaches_idle(start, held);
                lemma_tms_concat(init, scan);
                lemma_follow_concat(start, tms_of(init), tms_of(scan));
            }
        }
    }

    /// The cycles of the next request.
    pub open spec fn request_cycles(self, held: bool, exit_reads: bool) -> Seq<Cycle> {
        if self.waking {
            wake_cycles(held, exit_reads)
        } else if self.started {
            scan_cycles(self.found.len(), exit_reads)
        } else {
            init_cycles(held) + scan_cycles(self.found.len(), exit_reads)
        }
    }

    /// The number of bytes that the next request reads.
    pub open spec fn request_len(self) -> nat {
        if self.waking {
            4
        } else {
            4 * (self.found.len() + 1)
        }
    }

    /// The detection with the device of `word` enrolled, or the error that
    /// keeps it out.
    pub open spec fn enrol(self, devices: Map<u32, DeviceInfo>, word: u32) -> Result<
        DetectorView,
        Error,
    > {
        match lookup(devices, word) {
            None => Err(Error::UnknownIdcode(word)),
            Some(info) => if info.irlen.0 > 32 || info.irlen.0 < 1 {
                Err(Error::IrTooLong(word))
            } else if self.found.len() >= MAX_CHAIN {
                Err(Error::ChainTooLong)
            } else {
                Ok(
                    DetectorView {
                        found: self.found.push((word, info)),
                        started: true,
                        waking: false,
                        done: false,
                    },
                )
            },
        }
    }

    /// The detection after `reply` came back for its last request, or the
    /// error that ends it.
    pub open spec fn step(self, devices: Map<u32, DeviceInfo>, reply: Seq<u8>) -> Result<
        DetectorView,
        Error,
    > {
        if reply.len() != self.request_len() {
            Err(Error::ShortRead { expected: self.request_len() as usize, got: reply.len() as usize })
        } else if self.waking {
            let word = le_word(reply, 0);
            if word == 0xffff_ffff {
                Err(Error::WakeEndOfChain)
            } else if word & 1 != 1 {
                Err(Error::WakeBypass)
            } else {
                self.enrol(devices, word)
            }
        } else {
            let word = le_word(reply, 4 * self.found.len() as int);
            match verdict(word, self.found.len() == 0) {
                Verdict::End => Ok(
                    DetectorView { found: self.found, started: true, waking: false, done: true },
                ),
                Verdict::Wake => Ok(
                    DetectorView { found: self.found, started: true, waking: true, done: false },
                ),
                Verdict::Bypass => Err(Error::Bypass(word)),
                Verdict::Device => self.enrol(devices, word),
            }
        }
    }
}

impl Detector {
    /// At most 65 devices are enrolled, each with an instruction register
    /// of 1 to 32 bits.
    pub closed spec fn inv(&self) -> bool {
        &&& self.found@.len() <= MAX_CHAIN
        &&& forall|i: int|
            0 <= i < self.found@.len() ==> 1 <= (#[trigger] self.found@[i]).1.irlen.0 <= 32
    }

    /// A detection that has found nothing yet.
    pub fn new() -> (r: Self)
        ensures
            r.inv(),
            r@ == fresh(),
    {
        Detector { found: Vec::new(), started: false, waking: false, done: false }
    }

    /// Queue the next request of the detection on `backend` and hand out
    /// its exchanges. The bytes they read back go to `advance`.
    pub fn request<B: Backend>(&mut self, backend: &mut B) -> (r: Vec<Transfer>)
        requires
            old(self).inv(),
            old(backend).inv(),
            old(backend).wire() == Seq::<Cycle>::empty(),
            old(backend).owed() == 0,
            old(backend).progress() == 0,
        ensures
            final(self).inv(),
            final(self)@ == (DetectorView { started: true, ..old(self)@ }),
            final(backend).inv(),
            final(backend).wire() == Seq::<Cycle>::empty(),
            final(backend).owed() == 0,
            final(backend).progress() == 0,
            final(backend).exit_reads() == old(backend).exit_reads(),
            final(backend).notifying() == old(backend).notifying(),
            B::carried(r@, old(backend).start()) == old(self)@.request_cycles(
                old(backend).start(),
                old(backend).exit_reads(),
            ),
            final(backend).start() == level(
                old(self)@.request_cycles(old(backend).start(), old(backend).exit_reads()),
                old(backend).start(),
            ),
            total_read(r@) == old(self)@.request_len(),
    {
        let ghost s0 = *backend;
        let ghost h = backend.start();
        let ghost er = backend.exit_reads();
        proof {
            lemma_grew_nothing(&s0);
        }
        if self.waking {
            wake(backend);
        } else {
            if !self.started {
                reset_chain(backend);
            }
            let ghost s1 = *backend;
            let n = self.found.len();
            let dr0 = get_path(State::RunTestIdle, State::ShiftDR);
            let dr1 = get_path(State::ShiftDR, State::RunTestIdle);
            do_bits(backend, None, 1, Bits(1), None);
            let ghost s2 = *backend;
            proof {
                assert((1u32 >> 0u32) & 1 == 1) by (bit_vector);
                assert(bits_cycles(None, 1, 1, None, held(&s1)) =~= rest_high());
            }
            do_bytes(backend, Some(dr0), Data::Rx(Bytes(4 * (n + 1))), Some(dr1));
            proof {
                let first = if self.started {
                    Seq::<Cycle>::empty()
                } else {
                    init_cycles(h)
                };
                let read = bytes_cycles(
                    Some(dr0),
                    Data::Rx(Bytes((4 * (n + 1)) as usize)),
                    Some(dr1),
                    true,
                    er,
                );
                lemma_grew_chain(&s1, &s2, backend, rest_high(), read);
                lemma_grew_chain(&s0, &s1, backend, first, scan_cycles(n as nat, er));
                assert(Seq::<Cycle>::empty() + scan_cycles(n as nat, er) =~= scan_cycles(
                    n as nat,
                    er,
                ));
            }
        }
        proof {
            let all = old(self)@.request_cycles(h, er);
            assert(s0.wire() + all =~= all);
        }
        self.started = true;
        backend.flush()
    }

    /// Take in the bytes that the last request read back.
    ///
    /// Returns whether the end of the chain was seen. On an error the
    /// detection stays as it was.
    pub fn advance(&mut self, devices: &HashMap<u32, DeviceInfo>, reply: &[u8]) -> (r: Result<
        bool,
        Error,
    >)
        requires
            old(self).inv(),
        ensures
            final(self).inv(),
            match old(self)@.step(devices@, reply@) {
                Ok(next) => r == Ok::<bool, Error>(next.done) && final(self)@ == next,
                Err(e) => r == Err::<bool, Error>(e) && final(self)@ == old(self)@,
            },
    {
        let expected = if self.waking {
            4
        } else {
            4 * (self.found.len() + 1)
        };
        if reply.len() != expected {
            return Err(Error::ShortRead { expected, got: reply.len() });
        }
        if self.waking {
            let word = read_le_word(reply, 0);
            if word == END_OF_CHAIN {
                Err(Error::WakeEndOfChain)
            } else if word & 1 != 1 {
                Err(Error::WakeBypass)
            } else {
                self.enrol(devices, word)
            }
        } else {
            let word = read_le_word(reply, 4 * self.found.len());
            match classify(word, self.found.len() == 0) {
                Verdict::End => {
                    self.started = true;
                    self.done = true;
                    Ok(true)
                },
                Verdict::Wake => {
                    self.started = true;
                    self.waking = true;
                    self.done = false;
                    Ok(false)
                },
                Verdict::Bypass => Err(Error::Bypass(word)),
                Verdict::Device => self.enrol(devices, word),
            }
        }
    }

    fn enrol(&mut self, devices: &HashMap<u32, DeviceInfo>, word: u32) -> (r: Result<bool, Error>)
        requires
            old(self).inv(),
        ensures
            final(self).inv(),
            match old(self)@.enrol(devices@, word) {
                Ok(next) => r == Ok::<bool, Error>(false) && final(self)@ == next,
                Err(e) => r == Err::<bool, Error>(e) && final(self)@ == old(self)@,
            },
    {
        match find(devices, word) {
            None => Err(Error::UnknownIdcode(word)),
            Some(info) => {
                if info.irlen.0 > 32 || info.irlen.0 < 1 {
                    Err(Error::IrTooLong(word))
                } else if self.found.len() >= MAX_CHAIN {
                    Err(Error::ChainTooLong)
                } else {
                    self.found.push((word, info));
                    self.started = true;
                    self.waking = false;
                    self.done = false;
                    Ok(false)
                }
            },
        }
    }

    /// Whether the end of the chain was seen.
    pub fn is_done(&self) -> (r: bool)
        ensures
            r == self@.done,
    {
        self.done
    }

    /// The devices found so far, in chain order, each with the
    /// identification code it answered with.
    pub fn found(&self) -> (r: &Vec<(u32, DeviceInfo)>)
        requires
            self.inv(),
        ensures
            r@ == self@.found,
            r@.len() <= MAX_CHAIN,
            forall|i: int| 0 <= i < r@.len() ==> 1 <= (#[trigger] r@[i]).1.irlen.0 <= 32,
    {
        &self.found
    }
}

/// A detection that has found nothing yet.
pub open spec fn fresh() -> DetectorView {
    DetectorView { found: Seq::empty(), started: false, waking: false, done: false }
}

proof fn lemma_scenario_words(w: u32)
    by (bit_vector)
    ensures
        0x0362_d093u32 & 0xfff != 0x126,
        0x0362_d093u32 & 1 == 1,
        0x04a6_3093u32 & 1 == 1,
        0x1471_0093u32 & 1 == 1,
        w & 0xfff == 0x126 ==> w != 0xffff_ffff,
{
}

/// Against the built-in table, a chain that answers with the code of an
/// XC7A35T and then with all ones is found to hold that one device, with an
/// instruction register of six bits.
pub proof fn lemma_single_device_chain(
    devices: Map<u32, DeviceInfo>,
    first: Seq<u8>,
    second: Seq<u8>,
)
    requires
        devices == rows_map(xilinx_rows()),
        first.len() == 4,
        le_word(first, 0) == 0x0362_d093,
        second.len() == 8,
        le_word(second, 4) == 0xffff_ffff,
    ensures
        ({
            let one = fresh().step(devices, first);
            let end = one->Ok_0.step(devices, second);
            &&& one is Ok
            &&& end is Ok
            &&& end->Ok_0.done
            &&& end->Ok_0.found == seq![
                (
                    0x0362_d093u32,
                    row(0x0362D093, 6, "XC7A35T", spec_x32(Xilinx32Family::S7, 1, 548003)).1,
                ),
            ]
            &&& end->Ok_0.found[0].1.name == "XC7A35T"
            &&& end->Ok_0.found[0].1.irlen.0 == 6
        }),
{
    lemma_scenario_words(0);
    lemma_knows_xc7a35t();
    let one = fresh().step(devices, first)->Ok_0;
    assert(one.found =~= seq![
        (
            0x0362_d093u32,
            row(0x0362D093, 6, "XC7A35T", spec_x32(Xilinx32Family::S7, 1, 548003)).1,
        ),
    ]);
}

/// Against the built-in table, a chain that answers with the codes of an
/// XC7A35T and an XCKU3P and then with all ones is found to hold these two
/// devices, in that order.
pub proof fn lemma_two_device_chain(
    devices: Map<u32, DeviceInfo>,
    first: Seq<u8>,
    second: Seq<u8>,
    third: Seq<u8>,
)
    requires
        devices == rows_map(xilinx_rows()),
        first.len() == 4,
        le_word(first, 0) == 0x0362_d093,
        second.len() == 8,
        le_word(second, 4) == 0x04a6_3093,
        third.len() == 12,
        le_word(third, 8) == 0xffff_ffff,
    ensures
        ({
            let one = fresh().step(devices, first);
            let two = one->Ok_0.step(devices, second);
            let end = two->Ok_0.step(devices, third);
            &&& one is Ok
            &&& two is Ok
            &&& end is Ok
            &&& end->Ok_0.done
            &&& end->Ok_0.found == seq![
                (
                    0x0362_d093u32,
                    row(0x0362D093, 6, "XC7A35T", spec_x32(Xilinx32Family::S7, 1, 548003)).1,
                ),
                (
                    0x04a6_3093u32,
                    row(0x04A63093, 6, "XCKU3P", spec_x32(Xilinx32Family::UP, 1, 3857268)).1,
                ),
            ]
            &&& end->Ok_0.found[0].1.name == "XC7A35T"
            &&& end->Ok_0.found[1].1.name == "XCKU3P"
        }),
{
    lemma_scenario_words(0);
    lemma_knows_xc7a35t();
    lemma_knows_xcku3p();
    let one = fresh().step(devices, first)->Ok_0;
    let two = one.step(devices, second)->Ok_0;
    assert(two.found =~= seq![
        (
            0x0362_d093u32,
            row(0x0362D093, 6, "XC7A35T", spec_x32(Xilinx32Family::S7, 1, 548003)).1,
        ),
        (
            0x04a6_3093u32,
            row(0x04A63093, 6, "XCKU3P", spec_x32(Xilinx32Family::UP, 1, 3857268)).1,
        ),
    ]);
}

/// Against the built-in table, a chain whose first word shows the
/// placeholder of a Zynq UltraScale+ is woken; the placeholder is neither
/// enrolled nor taken for a device in bypass. Where the wake-up is answered
/// with the code of an XCZU3EG and the chain then with all ones, the chain
/// is found to hold that one device.
pub proof fn lemma_zynq_chain(
    devices: Map<u32, DeviceInfo>,
    first: Seq<u8>,
    woken: Seq<u8>,
    last: Seq<u8>,
)
    requires
        devices == rows_map(xilinx_rows()),
        first.len() == 4,
        le_word(first, 0) & 0xfff == 0x126,
        woken.len() == 4,
        le_word(woken, 0) == 0x1471_0093,
        last.len() == 8,
        le_word(last, 4) == 0xffff_ffff,
    ensures
        ({
            let asleep = fresh().step(devices, first);
            let awake = asleep->Ok_0.step(devices, woken);
            let end = awake->Ok_0.step(devices, last);
            &&& asleep is Ok
            &&& asleep->Ok_0.waking
            &&& asleep->Ok_0.found.len() == 0
            &&& awake is Ok
            &&& !awake->Ok_0.waking
            &&& end is Ok
            &&& end->Ok_0.done
            &&& end->Ok_0.found == seq![
                (
                    0x1471_0093u32,
                    row(0x14710093, 12, "XCZU3EG", spec_x32(Xilinx32Family::ZP, 1, 1391652)).1,
                ),
            ]
            &&& end->Ok_0.found[0].1.name == "XCZU3EG"
        }),
{
    lemma_scenario_words(le_word(first, 0));
    lemma_knows_xczu3eg();
    let asleep = fresh().step(devices, first)->Ok_0;
    let awake = asleep.step(devices, woken)->Ok_0;
    assert(awake.found =~= seq![
        (
            0x1471_0093u32,
            row(0x14710093, 12, "XCZU3EG", spec_x32(Xilinx32Family::ZP, 1, 1391652)).1,
        ),
    ]);
}

/// The descriptors of a chain, in chain order.
pub open spec fn infos(chain: Seq<(u32, DeviceInfo)>) -> Seq<DeviceInfo> {
    Seq::new(chain.len(), |i: int| chain[i].1)
}

/// The identification codes of a chain, in chain order.
pub open spec fn codes(chain: Seq<(u32, DeviceInfo)>) -> Seq<u32> {
    Seq::new(chain.len(), |i: int| chain[i].0)
}

/// The position of the target on a chain of `len` devices: the position
/// asked for or, where none is asked for, that of the only device.
pub open spec fn position(len: nat, index: Option<usize>) -> Option<int> {
    match index {
        Some(i) => if i < len {
            Some(i as int)
        } else {
            None
        },
        None => if len == 1 {
            Some(0)
        } else {
            None
        },
    }
}

/// A target with the devices before and after it.
pub struct Selection {
    pub before: Vec<DeviceInfo>,
    pub target: (u32, DeviceInfo),
    pub after: Vec<DeviceInfo>,
}

fn descriptors(chain: &Vec<(u32, DeviceInfo)>, from: usize, to: usize) -> (r: Vec<DeviceInfo>)
    requires
        from <= to <= chain@.len(),
    ensures
        r@ == infos(chain@.subrange(from as int, to as int)),
{
    let mut r: Vec<DeviceInfo> = Vec::new();
    let mut i: usize = from;
    while i < to
        invariant
            from <= i <= to <= chain@.len(),
            r@.len() == i - from,
            forall|k: int| 0 <= k < i - from ==> r@[k] == chain@[from + k].1,
        decreases to - i,
    {
        r.push(chain[i].1);
        i = i + 1;
    }
    proof {
        assert(r@ =~= infos(chain@.subrange(from as int, to as int)));
    }
    r
}

/// Choose the target on a detected chain.
///
/// Without `index` the chain must hold one device. Fails where the chain
/// is empty, where it holds several devices and none is chosen, where the
/// chosen position is not on the chain, and where more than 32 devices sit
/// on one side of the target.
pub fn select(chain: &Vec<(u32, DeviceInfo)>, index: Option<usize>) -> (r: Result<
    Selection,
    Error,
>)
    ensures
        match r {
            Ok(s) => position(chain@.len(), index) matches Some(p) && p <= 32 && chain@.len() - 1
                - p <= 32 && s.before@ == infos(chain@.take(p)) && s.target == chain@[p]
                && s.after@ == infos(chain@.skip(p + 1)),
            Err(Error::NoDevices) => chain@.len() == 0,
            Err(Error::MultipleDevices(c)) => chain@.len() > 1 && index is None && c@ == codes(
                chain@,
            ),
            Err(Error::NoSuchDevice(i)) => chain@.len() > 0 && index == Some(i) && i
                >= chain@.len(),
            Err(Error::ChainTooLong) => position(chain@.len(), index) matches Some(p) && (p > 32
                || chain@.len() - 1 - p > 32),
            Err(_) => false,
        },
{
    let len = chain.len();
    if len == 0 {
        return Err(Error::NoDevices);
    }
    let p = match index {
        Some(i) => {
            if i >= len {
                return Err(Error::NoSuchDevice(i));
            }
            i
        },
        None => {
            if len > 1 {
                let mut c: Vec<u32> = Vec::new();
                let mut i: usize = 0;
                while i < len
                    invariant
                        i <= len,
                        len == chain@.len(),
                        c@.len() == i,
                        forall|k: int| 0 <= k < i ==> c@[k] == chain@[k].0,
                    decreases len - i,
                {
                    c.push(chain[i].0);
                    i = i + 1;
                }
                proof {
                    assert(c@ =~= codes(chain@));
                }
                return Err(Error::MultipleDevices(c));
            }
            0
        },
    };
    if p > 32 || len - 1 - p > 32 {
        return Err(Error::ChainTooLong);
    }
    let before = descriptors(chain, 0, p);
    let after = descriptors(chain, p + 1, len);
    proof {
        assert(chain@.subrange(0, p as int) =~= chain@.take(p as int));
        assert(chain@.subrange(p + 1, len as int) =~= chain@.skip(p + 1));
    }
    Ok(Selection { before, target: chain[p], after })
}

} // verus!
