//! The chain-aware command issuer.
//!
//! A controller owns a cable driver and knows where its target sits on the
//! scan chain. It turns abstract commands into cable operations, pads every
//! shift for the devices before and after the target, and keeps the TAP in
//! Run-Test-Idle between commands.

use crate::backend::{
    bit32, bits_cycles, byte_cycles, bytes_cycles, constant_cycles, held, level,
    path_wf, shift_cycles, tms_cycles, tms_of, total_notify, total_read, word_cycles, Backend,
    Cycle, Data, Transfer,
};
use crate::bitbang::{lemma_level_concat, lemma_level_entry};
use crate::devices::DeviceInfo;
use crate::error::Error;
use crate::jtag::{
    follow, get_path, lemma_follow_concat, lemma_leaves_at_once,
    lemma_named_paths_reach, lemma_route, route, Path, State,
};
use crate::units::{Bits, Bytes};
use vstd::prelude::*;

verus! {

/// One abstract JTAG command.
#[derive(Clone, Copy, Debug)]
pub struct Command<'d> {
    /// Whether the bytes this command writes count as progress.
    pub notify: bool,
    pub inner: CommandInner<'d>,
}

#[derive(Clone, Copy, Debug)]
pub enum CommandInner<'d> {
    /// Shift an instruction into the target's instruction register.
    IrTxBits { tdi: u32 },
    /// Shift bytes into the data register; ignore what comes out.
    DrTx { tdi: &'d [u8] },
    /// Sample bytes out of the data register.
    DrRx { len: Bytes<usize> },
    /// Shift bytes into the data register and sample what comes out.
    DrTxRx { tdi: &'d [u8] },
    /// Stay in Run-Test-Idle and clock with TDI high.
    Idle { len: Bytes<usize> },
}

impl<'d> Command<'d> {
    pub fn ir(tdi: u32) -> (r: Self)
        ensures
            r == (Command { notify: false, inner: CommandInner::IrTxBits { tdi } }),
    {
        let inner = CommandInner::IrTxBits { tdi };
        let notify = false;
        Self { notify, inner }
    }

    pub fn dr_tx(tdi: &'d [u8]) -> (r: Self)
        ensures
            r == (Command { notify: false, inner: CommandInner::DrTx { tdi } }),
    {
        let inner = CommandInner::DrTx { tdi };
        let notify = false;
        Self { notify, inner }
    }

    pub fn dr_tx_with_notification(tdi: &'d [u8]) -> (r: Self)
        ensures
            r == (Command { notify: true, inner: CommandInner::DrTx { tdi } }),
    {
        let inner = CommandInner::DrTx { tdi };
        let notify = true;
        Self { notify, inner }
    }

    pub fn dr_rx(len: Bytes<usize>) -> (r: Self)
        ensures
            r == (Command { notify: false, inner: CommandInner::DrRx { len } }),
    {
        let inner = CommandInner::DrRx { len };
        let notify = false;
        Self { notify, inner }
    }

    pub fn dr_rx_with_notification(len: Bytes<usize>) -> (r: Self)
        ensures
            r == (Command { notify: true, inner: CommandInner::DrRx { len } }),
    {
        let inner = CommandInner::DrRx { len };
        let notify = true;
        Self { notify, inner }
    }

    pub fn dr_txrx(tdi: &'d [u8]) -> (r: Self)
        ensures
            r == (Command { notify: false, inner: CommandInner::DrTxRx { tdi } }),
    {
        let inner = CommandInner::DrTxRx { tdi };
        let notify = false;
        Self { notify, inner }
    }

    pub fn dr_txrx_with_notification(tdi: &'d [u8]) -> (r: Self)
        ensures
            r == (Command { notify: true, inner: CommandInner::DrTxRx { tdi } }),
    {
        let inner = CommandInner::DrTxRx { tdi };
        let notify = true;
        Self { notify, inner }
    }

    pub fn idle(len: Bytes<usize>) -> (r: Self)
        ensures
            r == (Command { notify: false, inner: CommandInner::Idle { len } }),
    {
        let inner = CommandInner::Idle { len };
        let notify = false;
        Self { notify, inner }
    }
}

/// What a command shifts, with its bytes as a sequence.
pub enum CommandKind {
    IrTxBits { tdi: u32 },
    DrTx { tdi: Seq<u8> },
    DrRx { len: nat },
    DrTxRx { tdi: Seq<u8> },
    Idle { len: nat },
}

/// A command as a value.
pub struct CommandView {
    pub notify: bool,
    pub inner: CommandKind,
}

impl<'d> View for Command<'d> {
    type V = CommandView;

    open spec fn view(&self) -> CommandView {
        CommandView {
            notify: self.notify,
            inner: match self.inner {
                CommandInner::IrTxBits { tdi } => CommandKind::IrTxBits { tdi },
                CommandInner::DrTx { tdi } => CommandKind::DrTx { tdi: tdi@ },
                CommandInner::DrRx { len } => CommandKind::DrRx { len: len.0 as nat },
                CommandInner::DrTxRx { tdi } => CommandKind::DrTxRx { tdi: tdi@ },
                CommandInner::Idle { len } => CommandKind::Idle { len: len.0 as nat },
            },
        }
    }
}

/// The commands of a batch as values.
pub open spec fn views(commands: Seq<Command<'_>>) -> Seq<CommandView> {
    Seq::new(commands.len(), |i: int| commands[i]@)
}

impl CommandView {
    /// The bytes of TDO that the command asks for.
    pub open spec fn rx_len(self) -> nat {
        match self.inner {
            CommandKind::DrRx { len } => len,
            CommandKind::DrTxRx { tdi } => tdi.len(),
            _ => 0,
        }
    }

    /// The payload bytes that the command writes.
    pub open spec fn tx_len(self) -> nat {
        match self.inner {
            CommandKind::DrTx { tdi } => tdi.len(),
            CommandKind::DrTxRx { tdi } => tdi.len(),
            _ => 0,
        }
    }

    /// The number of bytes that the command spans in the data register.
    pub open spec fn len(self) -> nat {
        match self.inner {
            CommandKind::IrTxBits { .. } => 0,
            CommandKind::DrTx { tdi } => tdi.len(),
            CommandKind::DrRx { len } => len,
            CommandKind::DrTxRx { tdi } => tdi.len(),
            CommandKind::Idle { len } => len,
        }
    }
}

/// Where the target sits on the chain, and the four routes between
/// Run-Test-Idle and the shift states.
#[derive(Clone, Copy, Debug)]
pub struct Geometry {
    /// Length of the target's instruction register.
    pub irlen: u8,
    /// Sum of the instruction register lengths of the devices before the
    /// target.
    pub ir_before: usize,
    /// Sum of the instruction register lengths of the devices after the
    /// target.
    pub ir_after: usize,
    /// Number of devices before the target: one bypass bit each.
    pub dr_before: usize,
    /// Number of devices after the target: one bypass bit each.
    pub dr_after: usize,
    /// Run-Test-Idle to Shift-IR.
    pub ir0: Path,
    /// Shift-IR to Run-Test-Idle.
    pub ir1: Path,
    /// Run-Test-Idle to Shift-DR.
    pub dr0: Path,
    /// Shift-DR to Run-Test-Idle.
    pub dr1: Path,
}

impl Geometry {
    /// The paths are the router's, the target's instruction register holds
    /// 1 to 32 bits, and the padding is that of at most 32 devices of at most
    /// 32 bits on either side.
    pub open spec fn wf(self) -> bool {
        &&& 1 <= self.irlen <= 32
        &&& self.dr_before <= 32
        &&& self.dr_after <= 32
        &&& self.ir_before <= 32 * self.dr_before
        &&& self.ir_after <= 32 * self.dr_after
        &&& self.ir0 == route(State::RunTestIdle, State::ShiftIR)
        &&& self.ir1 == route(State::ShiftIR, State::RunTestIdle)
        &&& self.dr0 == route(State::RunTestIdle, State::ShiftDR)
        &&& self.dr1 == route(State::ShiftDR, State::RunTestIdle)
        &&& self.ir0.wf() && self.ir1.wf() && self.dr0.wf() && self.dr1.wf()
    }

    /// Whether the command shifts through the instruction register.
    pub open spec fn is_ir(cmd: CommandView) -> bool {
        cmd.inner is IrTxBits
    }

    /// The ones shifted ahead of the payload of `cmd`.
    pub open spec fn pre(self, cmd: CommandView) -> Seq<Cycle> {
        constant_cycles(
            if Self::is_ir(cmd) {
                self.ir_before as nat
            } else {
                self.dr_before as nat
            },
            true,
            false,
        )
    }

    /// The ones shifted behind the payload of `cmd`.
    pub open spec fn post(self, cmd: CommandView) -> Seq<Cycle> {
        constant_cycles(
            if Self::is_ir(cmd) {
                self.ir_after as nat
            } else {
                self.dr_after as nat
            },
            true,
            false,
        )
    }

    /// The payload of `cmd` itself, on a wire whose TDI rests at `held`.
    pub open spec fn mid(self, cmd: CommandView, held: bool) -> Seq<Cycle> {
        match cmd.inner {
            CommandKind::IrTxBits { tdi } => word_cycles(tdi, self.irlen as nat),
            CommandKind::DrTx { tdi } => byte_cycles(tdi, false),
            CommandKind::DrRx { len } => constant_cycles(8 * len, held, true),
            CommandKind::DrTxRx { tdi } => byte_cycles(tdi, true),
            CommandKind::Idle { len } => constant_cycles(8 * len, true, false),
        }
    }

    /// Everything `cmd` shifts: padding, payload, padding.
    pub open spec fn shifted(self, cmd: CommandView, held: bool) -> Seq<Cycle> {
        self.pre(cmd) + self.mid(cmd, level(self.pre(cmd), held)) + self.post(cmd)
    }

    /// The path into the shift state of `cmd`.
    pub open spec fn entry(self, cmd: CommandView) -> Path {
        if Self::is_ir(cmd) {
            self.ir0
        } else {
            self.dr0
        }
    }

    /// The path out of the shift state of `cmd`.
    pub open spec fn exit(self, cmd: CommandView) -> Path {
        if Self::is_ir(cmd) {
            self.ir1
        } else {
            self.dr1
        }
    }

    /// The cycles of one command on a wire whose TDI rests at `held`.
    ///
    /// An idle command clocks eight cycles per byte with TMS low and TDI
    /// high. Every other command enters its shift state, shifts ones for the
    /// devices before the target, its payload, ones for the devices after
    /// the target, and leaves on the last shifted bit.
    pub open spec fn command_cycles(self, cmd: CommandView, held: bool, exit_reads: bool) -> Seq<
        Cycle,
    > {
        if cmd.inner is Idle {
            self.mid(cmd, held)
        } else {
            tms_cycles(self.entry(cmd), held) + shift_cycles(
                self.shifted(cmd, held),
                Some(self.exit(cmd)),
                held,
                exit_reads,
            )
        }
    }

    /// The cycles of the commands in order, each on the wire as the one
    /// before left it.
    pub open spec fn commands_cycles(
        self,
        commands: Seq<CommandView>,
        held: bool,
        exit_reads: bool,
    ) -> Seq<Cycle>
        decreases commands.len(),
    {
        if commands.len() == 0 {
            Seq::empty()
        } else {
            let done = self.commands_cycles(commands.drop_last(), held, exit_reads);
            done + self.command_cycles(commands.last(), level(done, held), exit_reads)
        }
    }

    /// The cycles of a batch: the commands, then the path that reaches
    /// Run-Test-Idle from any state.
    pub open spec fn run_cycles(self, commands: Seq<CommandView>, held: bool, exit_reads: bool) -> Seq<
        Cycle,
    > {
        let done = self.commands_cycles(commands, held, exit_reads);
        done + tms_cycles(Path::spec_idle(), level(done, held))
    }
}

/// The bytes of TDO that the commands ask for.
pub open spec fn rx_total(commands: Seq<CommandView>) -> nat
    decreases commands.len(),
{
    if commands.len() == 0 {
        0
    } else {
        rx_total(commands.drop_last()) + commands.last().rx_len()
    }
}

/// The payload bytes written by those of the commands that ask for
/// notification.
pub open spec fn notify_total(commands: Seq<CommandView>) -> nat
    decreases commands.len(),
{
    if commands.len() == 0 {
        0
    } else {
        notify_total(commands.drop_last()) + if commands.last().notify {
            commands.last().tx_len()
        } else {
            0
        }
    }
}

/// The payload bytes that the commands write.
pub open spec fn tx_total(commands: Seq<CommandView>) -> nat
    decreases commands.len(),
{
    if commands.len() == 0 {
        0
    } else {
        tx_total(commands.drop_last()) + commands.last().tx_len()
    }
}

/// A shift whose payload comes in two parts shifts the first part plainly.
pub proof fn lemma_shift_split(
    x: Seq<Cycle>,
    y: Seq<Cycle>,
    after: Option<Path>,
    held: bool,
    exit_reads: bool,
)
    requires
        y.len() > 0,
    ensures
        shift_cycles(x + y, after, held, exit_reads) == x + shift_cycles(
            y,
            after,
            level(x, held),
            exit_reads,
        ),
{
    lemma_level_concat(x, y, held);
    match after {
        None => {},
        Some(path) => {
            if path.len > 0 {
                assert((x + y).drop_last() =~= x + y.drop_last());
                assert((x + y).last() == y.last());
                assert(shift_cycles(x + y, after, held, exit_reads) =~= x + shift_cycles(
                    y,
                    after,
                    level(x, held),
                    exit_reads,
                ));
            } else {
                assert(shift_cycles(x + y, after, held, exit_reads) =~= x + shift_cycles(
                    y,
                    after,
                    level(x, held),
                    exit_reads,
                ));
            }
        },
    }
}

/// A payload that samples nothing shifts the same whether or not the cable
/// can sample on the leaving edge.
pub proof fn lemma_shift_unread(
    payload: Seq<Cycle>,
    after: Option<Path>,
    held: bool,
    a: bool,
    b: bool,
)
    requires
        payload.len() > 0 ==> !payload.last().tdo,
    ensures
        shift_cycles(payload, after, held, a) == shift_cycles(
            payload,
            after,
            held,
            b,
        ),
{
}

/// The driver was asked for `added` and nothing else.
pub open spec fn grew<B: Backend>(before: &B, after: &B, added: Seq<Cycle>) -> bool {
    &&& after.inv()
    &&& after.wire() == before.wire() + added
    &&& held(after) == level(added, held(before))
    &&& after.start() == before.start()
    &&& after.exit_reads() == before.exit_reads()
}

proof fn lemma_all_ones(i: u32)
    by (bit_vector)
    requires
        i < 32,
    ensures
        (0xffff_ffffu32 >> i) & 1 == 1,
{
}

pub proof fn lemma_grew_chain<B: Backend>(a: &B, b: &B, c: &B, x: Seq<Cycle>, y: Seq<Cycle>)
    requires
        grew(a, b, x),
        grew(b, c, y),
    ensures
        grew(a, c, x + y),
{
    assert(a.wire() + x + y =~= a.wire() + (x + y));
    lemma_level_concat(x, y, held(a));
}

pub proof fn lemma_grew_nothing<B: Backend>(a: &B)
    requires
        a.inv(),
    ensures
        grew(a, a, Seq::<Cycle>::empty()),
{
    assert(a.wire() + Seq::<Cycle>::empty() =~= a.wire());
}

/// Clock `before`, shift `data` and leave by `after`.
pub fn do_bytes<B: Backend>(
    backend: &mut B,
    before: Option<Path>,
    data: Data<'_>,
    after: Option<Path>,
)
    requires
        old(backend).inv(),
        path_wf(before),
        path_wf(after),
        old(backend).owed() + data.rx_len() <= usize::MAX,
        old(backend).progress() + data.tx_len() <= usize::MAX,
        8 * data.len() <= usize::MAX,
    ensures
        grew(
            old(backend),
            final(backend),
            bytes_cycles(before, data, after, held(old(backend)), old(backend).exit_reads()),
        ),
        final(backend).owed() == old(backend).owed() + data.rx_len(),
        final(backend).progress() == old(backend).progress() + if old(backend).notifying() {
            data.tx_len()
        } else {
            0
        },
        final(backend).notifying() == old(backend).notifying(),
{
    backend.bytes(before, data, after);
    proof {
        lemma_level_concat(
            old(backend).wire(),
            bytes_cycles(before, data, after, held(old(backend)), old(backend).exit_reads()),
            old(backend).start(),
        );
    }
}

/// Clock `before`, shift the low `len` bits of `data` and leave by `after`.
pub fn do_bits<B: Backend>(
    backend: &mut B,
    before: Option<Path>,
    data: u32,
    len: Bits<u8>,
    after: Option<Path>,
)
    requires
        old(backend).inv(),
        path_wf(before),
        path_wf(after),
        len.0 <= 32,
    ensures
        grew(
            old(backend),
            final(backend),
            bits_cycles(before, data, len.0 as nat, after, held(old(backend))),
        ),
        final(backend).owed() == old(backend).owed(),
        final(backend).progress() == old(backend).progress(),
        final(backend).notifying() == old(backend).notifying(),
{
    backend.bits(before, data, len, after);
    proof {
        lemma_level_concat(
            old(backend).wire(),
            bits_cycles(before, data, len.0 as nat, after, held(old(backend))),
            old(backend).start(),
        );
    }
}

/// Clock a path.
pub fn do_tms<B: Backend>(backend: &mut B, path: Path)
    requires
        old(backend).inv(),
        path.wf(),
    ensures
        grew(old(backend), final(backend), tms_cycles(path, held(old(backend)))),
        final(backend).owed() == old(backend).owed(),
        final(backend).progress() == old(backend).progress(),
        final(backend).notifying() == old(backend).notifying(),
{
    backend.tms(path);
    proof {
        lemma_level_concat(
            old(backend).wire(),
            tms_cycles(path, held(old(backend))),
            old(backend).start(),
        );
    }
}

/// Shift `n` ones and leave by `exit`.
fn pad<B: Backend>(backend: &mut B, n: usize, exit: Option<Path>)
    requires
        old(backend).inv(),
        path_wf(exit),
        old(backend).owed() <= usize::MAX,
        old(backend).progress() <= usize::MAX,
    ensures
        grew(
            old(backend),
            final(backend),
            shift_cycles(
                constant_cycles(n as nat, true, false),
                exit,
                held(old(backend)),
                false,
            ),
        ),
        final(backend).owed() == old(backend).owed(),
        final(backend).progress() == old(backend).progress(),
        final(backend).notifying() == old(backend).notifying(),
{
    let q = n / 8;
    let r = (n % 8) as u8;
    let ghost h = held(old(backend));
    let ghost er = old(backend).exit_reads();
    let ghost whole = constant_cycles(8 * q as nat, true, false);
    let ghost part = constant_cycles(r as nat, true, false);
    let ghost all = constant_cycles(n as nat, true, false);
    proof {
        assert(whole + part =~= all);
        assert(word_cycles(0xffff_ffff, r as nat) =~= part) by {
            assert forall|i: int| 0 <= i < r implies bit32(0xffff_ffff, i) by {
                lemma_all_ones(i as u32);
            }
        }
        assert(Seq::<Cycle>::empty() + all =~= all);
    }
    if r == 0 {
        let data = Data::ConstantTx(true, Bytes(q));
        backend.bytes(None, data, exit);
        proof {
            assert(whole =~= all);
            let sh = shift_cycles(all, exit, h, er);
            assert(Seq::<Cycle>::empty() + sh =~= sh);
            lemma_shift_unread(all, exit, h, er, false);
            lemma_level_concat(old(backend).wire(), sh, old(backend).start());
        }
    } else if q == 0 {
        backend.bits(None, 0xffff_ffff, Bits(r), exit);
        proof {
            assert(part =~= all);
            let sh = shift_cycles(all, exit, h, false);
            assert(Seq::<Cycle>::empty() + sh =~= sh);
            lemma_level_concat(old(backend).wire(), sh, old(backend).start());
        }
    } else {
        let data = Data::ConstantTx(true, Bytes(q));
        backend.bytes(None, data, None);
        let ghost mid = *backend;
        proof {
            assert(Seq::<Cycle>::empty() + whole =~= whole);
            lemma_level_concat(old(backend).wire(), whole, old(backend).start());
            assert(grew(old(backend), &mid, whole));
        }
        backend.bits(None, 0xffff_ffff, Bits(r), exit);
        proof {
            let sh = shift_cycles(part, exit, held(&mid), false);
            assert(Seq::<Cycle>::empty() + sh =~= sh);
            lemma_level_concat(mid.wire(), sh, mid.start());
            assert(grew(&mid, backend, sh));
            lemma_grew_chain(old(backend), &mid, backend, whole, sh);
            lemma_shift_split(whole, part, exit, h, false);
        }
    }
}

impl Geometry {
    /// The command fits the machine and the chain: its instruction, if it
    /// is one, is no wider than the target's instruction register.
    pub open spec fn fits(self, cmd: CommandView) -> bool {
        &&& 8 * cmd.len() <= usize::MAX
        &&& cmd.inner matches CommandKind::IrTxBits { tdi } ==> self.irlen == 32 || tdi >> (
        self.irlen as u32) == 0
    }

    /// Whether the payload of `cmd` itself is empty.
    fn mid_empty(&self, cmd: &Command<'_>) -> (r: bool)
        requires
            self.wf(),
        ensures
            r == (self.mid(cmd@, true).len() == 0),
            r == (self.mid(cmd@, false).len() == 0),
    {
        match cmd.inner {
            CommandInner::IrTxBits { .. } => false,
            CommandInner::DrTx { tdi } => tdi.len() == 0,
            CommandInner::DrRx { len } => len.0 == 0,
            CommandInner::DrTxRx { tdi } => tdi.len() == 0,
            CommandInner::Idle { len } => len.0 == 0,
        }
    }

    /// Shift the payload of `cmd` itself and leave by `exit`.
    fn emit_mid<B: Backend>(&self, backend: &mut B, cmd: &Command<'_>, exit: Option<Path>)
        requires
            self.wf(),
            self.fits(cmd@),
            old(backend).inv(),
            path_wf(exit),
            old(backend).owed() + cmd@.rx_len() <= usize::MAX,
            old(backend).progress() + cmd@.tx_len() <= usize::MAX,
        ensures
            grew(
                old(backend),
                final(backend),
                shift_cycles(
                    self.mid(cmd@, held(old(backend))),
                    exit,
                    held(old(backend)),
                    old(backend).exit_reads(),
                ),
            ),
            final(backend).owed() == old(backend).owed() + cmd@.rx_len(),
            final(backend).progress() == old(backend).progress() + if old(backend).notifying() {
                cmd@.tx_len()
            } else {
                0
            },
            final(backend).notifying() == old(backend).notifying(),
    {
        let ghost h = held(old(backend));
        let ghost er = old(backend).exit_reads();
        let ghost payload = self.mid(cmd@, h);
        let ghost sh = shift_cycles(payload, exit, h, er);
        proof {
            assert(Seq::<Cycle>::empty() + sh =~= sh);
            lemma_level_concat(old(backend).wire(), sh, old(backend).start());
        }
        match cmd.inner {
            CommandInner::IrTxBits { tdi } => {
                proof {
                    lemma_shift_unread(payload, exit, h, er, false);
                }
                backend.bits(None, tdi, Bits(self.irlen), exit);
            },
            CommandInner::DrTx { tdi } => {
                backend.bytes(None, Data::Tx(tdi), exit);
            },
            CommandInner::DrRx { len } => {
                backend.bytes(None, Data::Rx(len), exit);
            },
            CommandInner::DrTxRx { tdi } => {
                backend.bytes(None, Data::TxRx(tdi), exit);
            },
            CommandInner::Idle { len } => {
                backend.bytes(None, Data::ConstantTx(true, len), exit);
            },
        }
    }
}

impl Geometry {
    /// A command whose shift ends in padding, part by part.
    proof fn lemma_ends_in_post(self, cmd: CommandView, h: bool, er: bool)
        requires
            !(cmd.inner is Idle),
            self.post(cmd).len() > 0,
        ensures
            self.command_cycles(cmd, h, er) == tms_cycles(self.entry(cmd), h) + self.pre(cmd)
                + self.mid(cmd, level(self.pre(cmd), h)) + shift_cycles(
                self.post(cmd),
                Some(self.exit(cmd)),
                level(self.mid(cmd, level(self.pre(cmd), h)), level(self.pre(cmd), h)),
                false,
            ),
    {
        let e = tms_cycles(self.entry(cmd), h);
        let pre = self.pre(cmd);
        let mid = self.mid(cmd, level(pre, h));
        let post = self.post(cmd);
        let exit = Some(self.exit(cmd));
        lemma_shift_split(pre + mid, post, exit, h, er);
        lemma_level_concat(pre, mid, h);
        lemma_shift_unread(post, exit, level(pre + mid, h), er, false);
        let sh = shift_cycles(post, exit, level(pre + mid, h), false);
        assert(e + (pre + mid + sh) =~= e + pre + mid + sh);
    }

    /// A command whose shift ends in its own payload, part by part.
    proof fn lemma_ends_in_mid(self, cmd: CommandView, h: bool, er: bool)
        requires
            !(cmd.inner is Idle),
            self.post(cmd).len() == 0,
            self.mid(cmd, level(self.pre(cmd), h)).len() > 0,
        ensures
            self.command_cycles(cmd, h, er) == tms_cycles(self.entry(cmd), h) + self.pre(cmd)
                + shift_cycles(
                self.mid(cmd, level(self.pre(cmd), h)),
                Some(self.exit(cmd)),
                level(self.pre(cmd), h),
                er,
            ),
    {
        let e = tms_cycles(self.entry(cmd), h);
        let pre = self.pre(cmd);
        let mid = self.mid(cmd, level(pre, h));
        let exit = Some(self.exit(cmd));
        assert(pre + mid + self.post(cmd) =~= pre + mid);
        lemma_shift_split(pre, mid, exit, h, er);
        let sh = shift_cycles(mid, exit, level(pre, h), er);
        assert(e + (pre + sh) =~= e + pre + sh);
    }

    /// A command that shifts nothing but the padding ahead of it.
    proof fn lemma_ends_in_pre(self, cmd: CommandView, h: bool, er: bool)
        requires
            !(cmd.inner is Idle),
            self.post(cmd).len() == 0,
            self.mid(cmd, level(self.pre(cmd), h)).len() == 0,
        ensures
            self.command_cycles(cmd, h, er) == tms_cycles(self.entry(cmd), h) + shift_cycles(
                self.pre(cmd),
                Some(self.exit(cmd)),
                h,
                false,
            ),
    {
        let pre = self.pre(cmd);
        let exit = Some(self.exit(cmd));
        assert(pre + self.mid(cmd, level(pre, h)) + self.post(cmd) =~= pre);
        lemma_shift_unread(pre, exit, h, er, false);
    }

    /// Issue one command to the driver.
    fn issue<B: Backend>(&self, backend: &mut B, cmd: &Command<'_>)
        requires
            self.wf(),
            self.fits(cmd@),
            old(backend).inv(),
            old(backend).owed() + cmd@.rx_len() <= usize::MAX,
            old(backend).progress() + cmd@.tx_len() <= usize::MAX,
        ensures
            grew(
                old(backend),
                final(backend),
                self.command_cycles(cmd@, held(old(backend)), old(backend).exit_reads()),
            ),
            final(backend).owed() == old(backend).owed() + cmd@.rx_len(),
            final(backend).progress() == old(backend).progress() + if old(backend).notifying() {
                cmd@.tx_len()
            } else {
                0
            },
            final(backend).notifying() == old(backend).notifying(),
    {
        let ghost h = held(old(backend));
        let ghost er = old(backend).exit_reads();
        let ghost s0 = *old(backend);
        if let CommandInner::Idle { .. } = cmd.inner {
            self.emit_mid(backend, cmd, None);
            return ;
        }
        let is_ir = match cmd.inner {
            CommandInner::IrTxBits { .. } => true,
            _ => false,
        };
        let (entry, exit, npre, npost) = if is_ir {
            (self.ir0, self.ir1, self.ir_before, self.ir_after)
        } else {
            (self.dr0, self.dr1, self.dr_before, self.dr_after)
        };
        let ghost e = tms_cycles(entry, h);
        let ghost pre = self.pre(cmd@);
        let ghost h1 = level(pre, h);
        let ghost mid = self.mid(cmd@, h1);
        let ghost post = self.post(cmd@);
        do_tms(backend, entry);
        let ghost s1 = *backend;
        proof {
            lemma_level_entry(Some(entry), h);
            assert(held(&s1) == h);
        }
        if npost > 0 || !self.mid_empty(cmd) {
            if npre > 0 {
                pad(backend, npre, None);
            } else {
                proof {
                    lemma_grew_nothing(&s1);
                    assert(pre =~= Seq::<Cycle>::empty());
                }
            }
            let ghost s2 = *backend;
            proof {
                assert(grew(&s1, &s2, pre));
                lemma_grew_chain(&s0, &s1, &s2, e, pre);
                lemma_level_concat(e, pre, h);
                assert(held(&s2) == h1);
            }
            if npost > 0 {
                self.emit_mid(backend, cmd, None);
                let ghost s3 = *backend;
                proof {
                    assert(grew(&s2, &s3, mid));
                    lemma_grew_chain(&s0, &s2, &s3, e + pre, mid);
                    lemma_level_concat(e + pre, mid, h);
                }
                pad(backend, npost, Some(exit));
                proof {
                    let sh = shift_cycles(post, Some(exit), level(mid, h1), false);
                    assert(grew(&s3, backend, sh));
                    lemma_grew_chain(&s0, &s3, backend, e + pre + mid, sh);
                    self.lemma_ends_in_post(cmd@, h, er);
                }
            } else {
                self.emit_mid(backend, cmd, Some(exit));
                proof {
                    let sh = shift_cycles(mid, Some(exit), h1, er);
                    assert(grew(&s2, backend, sh));
                    lemma_grew_chain(&s0, &s2, backend, e + pre, sh);
                    self.lemma_ends_in_mid(cmd@, h, er);
                }
            }
        } else {
            pad(backend, npre, Some(exit));
            proof {
                let sh = shift_cycles(pre, Some(exit), h, false);
                assert(grew(&s1, backend, sh));
                lemma_grew_chain(&s0, &s1, backend, e, sh);
                self.lemma_ends_in_pre(cmd@, h, er);
            }
        }
    }
}

/// The sum of the instruction register lengths of `devices`.
pub open spec fn ir_sum(devices: Seq<DeviceInfo>) -> nat
    decreases devices.len(),
{
    if devices.len() == 0 {
        0
    } else {
        ir_sum(devices.drop_last()) + devices.last().irlen.0 as nat
    }
}

/// Every instruction register of `devices` holds at most 32 bits.
pub open spec fn irs_fit(devices: Seq<DeviceInfo>) -> bool {
    forall|i: int| 0 <= i < devices.len() ==> (#[trigger] devices[i]).irlen.0 <= 32
}

fn sum_irlen(devices: &Vec<DeviceInfo>) -> (r: usize)
    requires
        devices@.len() <= 32,
        irs_fit(devices@),
    ensures
        r == ir_sum(devices@),
        r <= 32 * devices@.len(),
{
    let mut sum: usize = 0;
    let mut i: usize = 0;
    proof {
        assert(devices@.take(0) =~= Seq::<DeviceInfo>::empty());
    }
    while i < devices.len()
        invariant
            i <= devices.len() <= 32,
            irs_fit(devices@),
            sum == ir_sum(devices@.take(i as int)),
            sum <= 32 * i,
        decreases devices.len() - i,
    {
        proof {
            let done = devices@.take(i + 1);
            assert(done.drop_last() =~= devices@.take(i as int));
            assert(done.last() == devices@[i as int]);
        }
        sum = sum + devices[i].irlen.0 as usize;
        i = i + 1;
    }
    proof {
        assert(devices@.take(devices@.len() as int) =~= devices@);
    }
    sum
}

impl Geometry {
    /// The geometry of a target between the devices `before` and `after`.
    pub fn of(before: &Vec<DeviceInfo>, target: &DeviceInfo, after: &Vec<DeviceInfo>) -> (r: Self)
        requires
            before@.len() <= 32,
            after@.len() <= 32,
            irs_fit(before@),
            irs_fit(after@),
            1 <= target.irlen.0 <= 32,
        ensures
            r.wf(),
            r.irlen == target.irlen.0,
            r.ir_before == ir_sum(before@),
            r.ir_after == ir_sum(after@),
            r.dr_before == before@.len(),
            r.dr_after == after@.len(),
    {
        Geometry {
            irlen: target.irlen.0,
            ir_before: sum_irlen(before),
            ir_after: sum_irlen(after),
            dr_before: before.len(),
            dr_after: after.len(),
            ir0: get_path(State::RunTestIdle, State::ShiftIR),
            ir1: get_path(State::ShiftIR, State::RunTestIdle),
            dr0: get_path(State::RunTestIdle, State::ShiftDR),
            dr1: get_path(State::ShiftDR, State::RunTestIdle),
        }
    }
}

/// The cycles that bring a chain in any state to Run-Test-Idle: the reset
/// path twice, then the route from Test-Logic-Reset to Run-Test-Idle.
pub open spec fn init_cycles(held: bool) -> Seq<Cycle> {
    tms_cycles(Path::spec_reset(), held) + tms_cycles(Path::spec_reset(), held) + tms_cycles(
        route(State::TestLogicReset, State::RunTestIdle),
        held,
    )
}

/// Reset the chain and move it to Run-Test-Idle.
pub fn reset_chain<B: Backend>(backend: &mut B)
    requires
        old(backend).inv(),
    ensures
        grew(old(backend), final(backend), init_cycles(held(old(backend)))),
        held(final(backend)) == held(old(backend)),
        final(backend).owed() == old(backend).owed(),
        final(backend).progress() == old(backend).progress(),
        final(backend).notifying() == old(backend).notifying(),
{
    let ghost h = held(old(backend));
    let ghost s0 = *old(backend);
    let ghost r = tms_cycles(Path::spec_reset(), h);
    do_tms(backend, Path::reset());
    let ghost s1 = *backend;
    proof {
        lemma_level_entry(Some(Path::spec_reset()), h);
    }
    do_tms(backend, Path::reset());
    let ghost s2 = *backend;
    proof {
        lemma_grew_chain(&s0, &s1, &s2, r, r);
        lemma_level_concat(r, r, h);
    }
    let to_idle = get_path(State::TestLogicReset, State::RunTestIdle);
    do_tms(backend, to_idle);
    proof {
        lemma_grew_chain(&s0, &s2, backend, r + r, tms_cycles(to_idle, h));
        lemma_level_entry(Some(to_idle), h);
        lemma_level_concat(r + r, tms_cycles(to_idle, h), h);
    }
}

/// Every command fits the chain and the machine, and so do the totals of what
/// the batch reads and writes.
pub open spec fn batch_fits(g: Geometry, commands: Seq<CommandView>) -> bool {
    &&& forall|i: int| 0 <= i < commands.len() ==> g.fits(#[trigger] commands[i])
    &&& rx_total(commands) <= usize::MAX
    &&& tx_total(commands) <= usize::MAX
}

/// The totals of a batch of four commands.
pub proof fn lemma_totals_four(a: CommandView, b: CommandView, c: CommandView, d: CommandView)
    ensures
        rx_total(seq![a, b, c, d]) == a.rx_len() + b.rx_len() + c.rx_len() + d.rx_len(),
        tx_total(seq![a, b, c, d]) == a.tx_len() + b.tx_len() + c.tx_len() + d.tx_len(),
{
    let s4 = seq![a, b, c, d];
    let s3 = seq![a, b, c];
    let s2 = seq![a, b];
    let s1 = seq![a];
    assert(s4.drop_last() =~= s3);
    assert(s3.drop_last() =~= s2);
    assert(s2.drop_last() =~= s1);
    assert(s1.drop_last() =~= Seq::<CommandView>::empty());
    assert(rx_total(s1.drop_last()) == 0);
    assert(tx_total(s1.drop_last()) == 0);
    assert(s1.last() == a);
    assert(rx_total(s1) == a.rx_len());
    assert(tx_total(s1) == a.tx_len());
    assert(rx_total(s2) == rx_total(s1) + b.rx_len());
    assert(tx_total(s2) == tx_total(s1) + b.tx_len());
    assert(rx_total(s3) == rx_total(s2) + c.rx_len());
    assert(tx_total(s3) == tx_total(s2) + c.tx_len());
}

/// The totals of a batch are the sums of the totals of its parts.
pub proof fn lemma_totals_concat(a: Seq<CommandView>, b: Seq<CommandView>)
    ensures
        rx_total(a + b) == rx_total(a) + rx_total(b),
        tx_total(a + b) == tx_total(a) + tx_total(b),
        notify_total(a + b) == notify_total(a) + notify_total(b),
    decreases b.len(),
{
    if b.len() == 0 {
        assert(a + b =~= a);
    } else {
        assert((a + b).drop_last() =~= a + b.drop_last());
        lemma_totals_concat(a, b.drop_last());
    }
}

/// The totals of a batch of one command.
pub proof fn lemma_totals_one(a: CommandView)
    ensures
        rx_total(seq![a]) == a.rx_len(),
        tx_total(seq![a]) == a.tx_len(),
        notify_total(seq![a]) == if a.notify {
            a.tx_len()
        } else {
            0
        },
{
    let s1 = seq![a];
    assert(s1.drop_last() =~= Seq::<CommandView>::empty());
    assert(rx_total(s1.drop_last()) == 0);
    assert(tx_total(s1.drop_last()) == 0);
    assert(notify_total(s1.drop_last()) == 0);
    assert(s1.last() == a);
}

/// The progress that a batch of four commands reports.
pub proof fn lemma_notify_four(a: CommandView, b: CommandView, c: CommandView, d: CommandView)
    ensures
        notify_total(seq![a, b, c, d]) == (if a.notify {
            a.tx_len()
        } else {
            0
        }) + (if b.notify {
            b.tx_len()
        } else {
            0
        }) + (if c.notify {
            c.tx_len()
        } else {
            0
        }) + (if d.notify {
            d.tx_len()
        } else {
            0
        }),
{
    let s4 = seq![a, b, c, d];
    let s3 = seq![a, b, c];
    let s2 = seq![a, b];
    let s1 = seq![a];
    assert(s4.drop_last() =~= s3);
    assert(s3.drop_last() =~= s2);
    assert(s2.drop_last() =~= s1);
    assert(s1.drop_last() =~= Seq::<CommandView>::empty());
    assert(notify_total(s1.drop_last()) == 0);
    assert(s1.last() == a);
    assert(notify_total(s1) == if a.notify {
        a.tx_len()
    } else {
        0
    });
    assert(notify_total(s2) == notify_total(s1) + if b.notify {
        b.tx_len()
    } else {
        0
    });
    assert(notify_total(s3) == notify_total(s2) + if c.notify {
        c.tx_len()
    } else {
        0
    });
}

/// The totals of a batch grow with every command.
pub proof fn lemma_totals_prefix(commands: Seq<CommandView>, k: int)
    requires
        0 <= k <= commands.len(),
    ensures
        rx_total(commands.take(k)) <= rx_total(commands),
        tx_total(commands.take(k)) <= tx_total(commands),
        notify_total(commands.take(k)) <= tx_total(commands.take(k)),
        k < commands.len() ==> rx_total(commands.take(k + 1)) == rx_total(commands.take(k))
            + commands[k].rx_len(),
        k < commands.len() ==> tx_total(commands.take(k + 1)) == tx_total(commands.take(k))
            + commands[k].tx_len(),
        k < commands.len() ==> notify_total(commands.take(k + 1)) == notify_total(
            commands.take(k),
        ) + if commands[k].notify {
            commands[k].tx_len()
        } else {
            0
        },
    decreases commands.len() - k,
{
    if k < commands.len() {
        assert(commands.take(k + 1).drop_last() =~= commands.take(k));
        assert(commands.take(k + 1).last() == commands[k]);
        lemma_totals_prefix(commands, k + 1);
    } else {
        assert(commands.take(k) =~= commands);
    }
    lemma_notify_below_tx(commands.take(k));
}

proof fn lemma_notify_below_tx(commands: Seq<CommandView>)
    ensures
        notify_total(commands) <= tx_total(commands),
    decreases commands.len(),
{
    if commands.len() > 0 {
        lemma_notify_below_tx(commands.drop_last());
    }
}

impl Geometry {
    /// Issue one command of a batch: it reports its written bytes where the
    /// batch runs with notifications and the command asks for them.
    fn step<B: Backend>(&self, backend: &mut B, cmd: &Command<'_>, notify: bool)
        requires
            self.wf(),
            self.fits(cmd@),
            old(backend).inv(),
            old(backend).owed() + cmd@.rx_len() <= usize::MAX,
            old(backend).progress() + cmd@.tx_len() <= usize::MAX,
        ensures
            grew(
                old(backend),
                final(backend),
                self.command_cycles(cmd@, held(old(backend)), old(backend).exit_reads()),
            ),
            final(backend).owed() == old(backend).owed() + cmd@.rx_len(),
            final(backend).progress() == old(backend).progress() + if notify && cmd@.notify {
                cmd@.tx_len()
            } else {
                0
            },
    {
        backend.notify(notify && cmd.notify);
        self.issue(backend, cmd);
    }
}

/// A cable driver together with the place of one device on its chain.
pub struct Controller<B> {
    backend: B,
    pub idcode: u32,
    pub info: DeviceInfo,
    before: Vec<DeviceInfo>,
    after: Vec<DeviceInfo>,
    geometry: Geometry,
    notify: bool,
    buf: Vec<u8>,
    expected: usize,
}

impl<B: Backend> Controller<B> {
    /// Between batches the driver has handed out everything it was asked
    /// for, and the geometry is that of the target.
    pub closed spec fn inv(&self) -> bool {
        &&& self.backend.inv()
        &&& self.backend.wire() == Seq::<Cycle>::empty()
        &&& self.backend.owed() == 0
        &&& self.backend.progress() == 0
        &&& self.geometry.wf()
        &&& self.geometry.irlen == self.info.irlen.0
        &&& self.geometry.ir_before == ir_sum(self.before@)
        &&& self.geometry.ir_after == ir_sum(self.after@)
        &&& self.geometry.dr_before == self.before@.len()
        &&& self.geometry.dr_after == self.after@.len()
    }

    /// Where the target sits on the chain.
    pub closed spec fn geometry(&self) -> Geometry {
        self.geometry
    }

    /// The identification code and the descriptor of the target.
    pub closed spec fn target(&self) -> (u32, DeviceInfo) {
        (self.idcode, self.info)
    }

    /// The devices before the target, in chain order.
    pub closed spec fn before(&self) -> Seq<DeviceInfo> {
        self.before@
    }

    /// The devices after the target, in chain order.
    pub closed spec fn after(&self) -> Seq<DeviceInfo> {
        self.after@
    }

    /// The padding follows from the neighbours of the target.
    pub proof fn lemma_geometry(&self)
        requires
            self.inv(),
        ensures
            self.geometry().wf(),
            self.geometry().irlen == self.target().1.irlen.0,
            self.geometry().ir_before == ir_sum(self.before()),
            self.geometry().ir_after == ir_sum(self.after()),
            self.geometry().dr_before == self.before().len(),
            self.geometry().dr_after == self.after().len(),
    {
    }

    /// The level at which TDI rests.
    pub closed spec fn held(&self) -> bool {
        self.backend.start()
    }

    /// Whether the cable can sample TDO on the edge that leaves a shift state.
    pub closed spec fn exit_reads(&self) -> bool {
        self.backend.exit_reads()
    }

    /// Whether commands that ask for it report their written bytes.
    pub closed spec fn notifying(&self) -> bool {
        self.notify
    }

    /// The number of bytes that the exchanges of the last batch read back.
    pub closed spec fn expected(&self) -> nat {
        self.expected as nat
    }

    /// The bytes read by the last completed batch.
    pub closed spec fn output(&self) -> Seq<u8> {
        self.buf@
    }

    /// A controller for `target`, with the devices `before` and `after` it
    /// on the chain, and the exchanges that reset the chain and move it to
    /// Run-Test-Idle.
    pub fn new(
        backend: B,
        before: Vec<DeviceInfo>,
        target: (u32, DeviceInfo),
        after: Vec<DeviceInfo>,
    ) -> (r: (Self, Vec<Transfer>))
        requires
            backend.inv(),
            backend.wire() == Seq::<Cycle>::empty(),
            backend.owed() == 0,
            backend.progress() == 0,
            before@.len() <= 32,
            after@.len() <= 32,
            irs_fit(before@),
            irs_fit(after@),
            1 <= target.1.irlen.0 <= 32,
        ensures
            r.0.inv(),
            r.0.target() == target,
            r.0.before() == before@,
            r.0.after() == after@,
            forall|s: State|
                follow(s, tms_of(#[trigger] B::carried(r.1@, backend.start())))
                    == State::RunTestIdle,
            r.0.held() == backend.start(),
            r.0.exit_reads() == backend.exit_reads(),
            !r.0.notifying(),
            r.0.expected() == 0,
            r.0.output() == Seq::<u8>::empty(),
            B::carried(r.1@, backend.start()) == init_cycles(backend.start()),
            total_read(r.1@) == 0,
            total_notify(r.1@) == 0,
    {
        let geometry = Geometry::of(&before, &target.1, &after);
        let mut backend = backend;
        let ghost s0 = backend;
        reset_chain(&mut backend);
        proof {
            assert(Seq::<Cycle>::empty() + init_cycles(held(&s0)) =~= init_cycles(held(&s0)));
        }
        let transfers = backend.flush();
        proof {
            assert forall|s: State|
                follow(s, tms_of(#[trigger] B::carried(transfers@, s0.start())))
                    == State::RunTestIdle by {
                lemma_init_reaches_idle(s, s0.start());
            }
        }
        let cont = Controller {
            backend,
            idcode: target.0,
            info: target.1,
            before,
            after,
            geometry,
            notify: false,
            buf: Vec::new(),
            expected: 0,
        };
        (cont, transfers)
    }

    /// Run a batch of commands: issue them in order, return the TAP to
    /// Run-Test-Idle and hand out the exchanges to perform.
    ///
    /// The output of the batch before is dropped. The bytes that the
    /// exchanges read back, in order, are to be handed to `complete`.
    #[verifier::rlimit(40)]
    pub fn run(&mut self, commands: &[Command<'_>]) -> (r: Vec<Transfer>)
        requires
            old(self).inv(),
            batch_fits(old(self).geometry(), views(commands@)),
        ensures
            final(self).inv(),
            final(self).geometry() == old(self).geometry(),
            final(self).target() == old(self).target(),
            final(self).before() == old(self).before(),
            final(self).after() == old(self).after(),
            final(self).exit_reads() == old(self).exit_reads(),
            final(self).notifying() == old(self).notifying(),
            follow(State::RunTestIdle, tms_of(B::carried(r@, old(self).held())))
                == State::RunTestIdle,
            B::carried(r@, old(self).held()) == old(self).geometry().run_cycles(
                views(commands@),
                old(self).held(),
                old(self).exit_reads(),
            ),
            final(self).held() == level(
                old(self).geometry().run_cycles(
                    views(commands@),
                    old(self).held(),
                    old(self).exit_reads(),
                ),
                old(self).held(),
            ),
            total_read(r@) == rx_total(views(commands@)),
            final(self).expected() == rx_total(views(commands@)),
            total_notify(r@) == if old(self).notifying() {
                notify_total(views(commands@))
            } else {
                0
            },
            final(self).output() == Seq::<u8>::empty(),
    {
        let ghost g = self.geometry;
        let ghost h = self.backend.start();
        let ghost er = self.backend.exit_reads();
        let ghost s0 = self.backend;
        self.buf = Vec::new();
        let mut rx: usize = 0;
        let mut i: usize = 0;
        proof {
            assert(views(commands@).take(0) =~= Seq::<CommandView>::empty());
            lemma_grew_nothing(&s0);
            assert(held(&s0) == h);
        }
        while i < commands.len()
            invariant
                i <= commands.len(),
                views(commands@).len() == commands.len(),
                batch_fits(g, views(commands@)),
                g.wf(),
                self.geometry == g,
                self.notify == old(self).notify,
                self.idcode == old(self).idcode,
                self.info == old(self).info,
                self.before == old(self).before,
                self.after == old(self).after,
                self.expected == old(self).expected,
                self.buf@ == Seq::<u8>::empty(),
                held(&s0) == h,
                s0.exit_reads() == er,
                grew(&s0, &self.backend, g.commands_cycles(views(commands@).take(i as int), h, er)),
                self.backend.owed() == rx_total(views(commands@).take(i as int)),
                rx == rx_total(views(commands@).take(i as int)),
                self.backend.progress() == if self.notify {
                    notify_total(views(commands@).take(i as int))
                } else {
                    0
                },
            decreases commands.len() - i,
        {
            let cmd = &commands[i];
            let ghost done = g.commands_cycles(views(commands@).take(i as int), h, er);
            proof {
                lemma_totals_prefix(views(commands@), i as int);
                lemma_totals_prefix(views(commands@), i + 1);
            }
            let ghost s1 = self.backend;
            self.geometry.step(&mut self.backend, cmd, self.notify);
            proof {
                let next = views(commands@).take(i + 1);
                assert(next.drop_last() =~= views(commands@).take(i as int));
                assert(next.last() == views(commands@)[i as int]);
                let one = g.command_cycles(cmd@, level(done, h), er);
                lemma_grew_chain(&s0, &s1, &self.backend, done, one);
            }
            rx = rx + match cmd.inner {
                CommandInner::DrRx { len } => len.0,
                CommandInner::DrTxRx { tdi } => tdi.len(),
                _ => 0,
            };
            i = i + 1;
        }
        let ghost done = g.commands_cycles(views(commands@), h, er);
        proof {
            assert(views(commands@).take(views(commands@).len() as int) =~= views(commands@));
        }
        let ghost s2 = self.backend;
        do_tms(&mut self.backend, Path::idle());
        proof {
            lemma_grew_chain(&s0, &s2, &self.backend, done, tms_cycles(Path::spec_idle(), level(done, h)));
            assert(s0.wire() + g.run_cycles(views(commands@), h, er) =~= g.run_cycles(views(commands@), h, er));
            g.lemma_run_keeps_idle(views(commands@), h, er, State::RunTestIdle);
        }
        let transfers = self.backend.flush();
        self.expected = rx;
        transfers
    }

    /// Run a batch with progress reporting switched on: the exchanges report
    /// the bytes written by the commands that ask for notification. The
    /// switch is back where it was when the call returns.
    pub fn with_notifications(&mut self, commands: &[Command<'_>]) -> (r: Vec<Transfer>)
        requires
            old(self).inv(),
            batch_fits(old(self).geometry(), views(commands@)),
        ensures
            final(self).inv(),
            final(self).geometry() == old(self).geometry(),
            final(self).target() == old(self).target(),
            final(self).before() == old(self).before(),
            final(self).after() == old(self).after(),
            final(self).exit_reads() == old(self).exit_reads(),
            final(self).notifying() == old(self).notifying(),
            follow(State::RunTestIdle, tms_of(B::carried(r@, old(self).held())))
                == State::RunTestIdle,
            B::carried(r@, old(self).held()) == old(self).geometry().run_cycles(
                views(commands@),
                old(self).held(),
                old(self).exit_reads(),
            ),
            final(self).held() == level(
                old(self).geometry().run_cycles(
                    views(commands@),
                    old(self).held(),
                    old(self).exit_reads(),
                ),
                old(self).held(),
            ),
            total_read(r@) == rx_total(views(commands@)),
            final(self).expected() == rx_total(views(commands@)),
            total_notify(r@) == notify_total(views(commands@)),
            final(self).output() == Seq::<u8>::empty(),
    {
        let old_notify = self.notify;
        self.notify = true;
        let r = self.run(commands);
        self.notify = old_notify;
        r
    }

    /// The descriptor of the target.
    pub fn info(&self) -> (r: &DeviceInfo)
        requires
            self.inv(),
        ensures
            *r == self.target().1,
            r.irlen.0 == self.geometry().irlen,
            self.geometry().wf(),
    {
        &self.info
    }

    /// The bytes read by the last completed batch. They stay until the next
    /// batch is run.
    pub fn data(&self) -> (r: &Vec<u8>)
        ensures
            r@ == self.output(),
    {
        &self.buf
    }

    /// Take in the bytes that the exchanges of the last batch read back.
    ///
    /// Succeeds exactly when `reply` holds as many bytes as the batch asked
    /// for; the bytes are then the output of the batch.
    pub fn complete(&mut self, reply: Vec<u8>) -> (r: Result<usize, Error>)
        requires
            old(self).inv(),
        ensures
            final(self).inv(),
            final(self).geometry() == old(self).geometry(),
            final(self).held() == old(self).held(),
            final(self).exit_reads() == old(self).exit_reads(),
            final(self).notifying() == old(self).notifying(),
            final(self).target() == old(self).target(),
            final(self).before() == old(self).before(),
            final(self).after() == old(self).after(),
            final(self).expected() == old(self).expected(),
            reply@.len() == old(self).expected() ==> r == Ok::<usize, Error>(reply@.len() as usize)
                && final(self).output() == reply@,
            reply@.len() != old(self).expected() ==> r == Err::<usize, Error>(
                Error::ShortRead { expected: old(self).expected() as usize, got: reply@.len() as usize },
            ) && final(self).output() == old(self).output(),
    {
        if reply.len() == self.expected {
            let n = reply.len();
            self.buf = reply;
            Ok(n)
        } else {
            Err(Error::ShortRead { expected: self.expected, got: reply.len() })
        }
    }
}

/// `n` clock edges with TMS low.
pub open spec fn zeros(n: nat) -> Seq<bool> {
    Seq::new(n, |i: int| false)
}

/// The TMS levels of a concatenation are those of its parts.
pub proof fn lemma_tms_concat(a: Seq<Cycle>, b: Seq<Cycle>)
    ensures
        tms_of(a + b) == tms_of(a) + tms_of(b),
{
    assert(tms_of(a + b) =~= tms_of(a) + tms_of(b));
}

/// Clocking a path puts its bits on TMS.
pub proof fn lemma_tms_path(path: Path, held: bool)
    ensures
        tms_of(tms_cycles(path, held)) == path@,
{
    assert(tms_of(tms_cycles(path, held)) =~= path@);
}

/// A state that TMS low does not leave is not left by any number of such
/// edges.
pub proof fn lemma_follow_zeros(s: State, n: nat)
    requires
        s.next(false) == s,
    ensures
        follow(s, zeros(n)) == s,
    decreases n,
{
    if n > 0 {
        assert(zeros(n).skip(1) =~= zeros((n - 1) as nat));
        lemma_follow_zeros(s, (n - 1) as nat);
    }
}

/// The number of edges with TMS low in a shift of `n` payload bits.
pub open spec fn low_edges(n: nat, path: Path) -> nat {
    if path.len > 0 && n > 0 {
        (n - 1) as nat
    } else {
        n
    }
}

/// A shift holds TMS low until it leaves: its TMS levels are zeros, then the
/// bits of the leaving path.
pub proof fn lemma_tms_shift(
    payload: Seq<Cycle>,
    path: Path,
    held: bool,
    exit_reads: bool,
)
    requires
        forall|i: int| 0 <= i < payload.len() ==> !payload[i].tms,
    ensures
        tms_of(shift_cycles(payload, Some(path), held, exit_reads)) == zeros(
            low_edges(payload.len(), path),
        ) + path@,
        shift_cycles(payload, Some(path), held, exit_reads).len() == low_edges(
            payload.len(),
            path,
        ) + path.len,
{
    let w = shift_cycles(payload, Some(path), held, exit_reads);
    let k = low_edges(payload.len(), path);
    assert(tms_of(w) =~= zeros(k) + path@);
}

impl Geometry {
    /// No cycle that a command shifts raises TMS.
    pub proof fn lemma_shifted_low(self, cmd: CommandView, held: bool)
        ensures
            forall|i: int|
                0 <= i < self.shifted(cmd, held).len() ==> !(#[trigger] self.shifted(
                    cmd,
                    held,
                )[i]).tms,
            forall|i: int|
                0 <= i < self.mid(cmd, held).len() ==> !(#[trigger] self.mid(cmd, held)[i]).tms,
    {
    }

    /// A command finds the TAP in Run-Test-Idle and leaves it there.
    pub proof fn lemma_command_keeps_idle(self, cmd: CommandView, held: bool, exit_reads: bool)
        requires
            self.wf(),
        ensures
            follow(State::RunTestIdle, tms_of(self.command_cycles(cmd, held, exit_reads)))
                == State::RunTestIdle,
    {
        let idle = State::RunTestIdle;
        if cmd.inner is Idle {
            let w = self.mid(cmd, held);
            assert(tms_of(w) =~= zeros(w.len()));
            lemma_follow_zeros(idle, w.len());
        } else {
            let shift = if Self::is_ir(cmd) {
                State::ShiftIR
            } else {
                State::ShiftDR
            };
            let entry = self.entry(cmd);
            let exit = self.exit(cmd);
            let payload = self.shifted(cmd, held);
            let e = tms_cycles(entry, held);
            let sh = shift_cycles(payload, Some(exit), held, exit_reads);
            let k = low_edges(payload.len(), exit);
            lemma_route(idle, shift);
            lemma_route(shift, idle);
            self.lemma_shifted_low(cmd, held);
            lemma_tms_shift(payload, exit, held, exit_reads);
            lemma_tms_path(entry, held);
            lemma_tms_concat(e, sh);
            lemma_follow_concat(idle, entry@, zeros(k) + exit@);
            lemma_follow_concat(shift, zeros(k), exit@);
            lemma_follow_zeros(shift, k);
        }
    }

    /// The commands of a batch find the TAP in Run-Test-Idle and leave it
    /// there.
    pub proof fn lemma_commands_keep_idle(
        self,
        commands: Seq<CommandView>,
        held: bool,
        exit_reads: bool,
    )
        requires
            self.wf(),
        ensures
            follow(State::RunTestIdle, tms_of(self.commands_cycles(commands, held, exit_reads)))
                == State::RunTestIdle,
        decreases commands.len(),
    {
        if commands.len() > 0 {
            let done = self.commands_cycles(commands.drop_last(), held, exit_reads);
            let one = self.command_cycles(commands.last(), level(done, held), exit_reads);
            self.lemma_commands_keep_idle(commands.drop_last(), held, exit_reads);
            self.lemma_command_keeps_idle(commands.last(), level(done, held), exit_reads);
            lemma_tms_concat(done, one);
            lemma_follow_concat(State::RunTestIdle, tms_of(done), tms_of(one));
        } else {
            assert(tms_of(Seq::<Cycle>::empty()) =~= Seq::<bool>::empty());
        }
    }

    /// A batch begins with the TAP in Run-Test-Idle, passes through it
    /// between any two commands, and ends there. It ends there whatever
    /// state it began in.
    pub proof fn lemma_run_keeps_idle(
        self,
        commands: Seq<CommandView>,
        held: bool,
        exit_reads: bool,
        start: State,
    )
        requires
            self.wf(),
        ensures
            follow(State::RunTestIdle, tms_of(self.commands_cycles(commands, held, exit_reads)))
                == State::RunTestIdle,
            follow(start, tms_of(self.run_cycles(commands, held, exit_reads)))
                == State::RunTestIdle,
    {
        let done = self.commands_cycles(commands, held, exit_reads);
        let last = tms_cycles(Path::spec_idle(), level(done, held));
        self.lemma_commands_keep_idle(commands, held, exit_reads);
        lemma_tms_concat(done, last);
        lemma_tms_path(Path::spec_idle(), level(done, held));
        lemma_follow_concat(start, tms_of(done), Path::spec_idle()@);
        lemma_named_paths_reach(follow(start, tms_of(done)));
    }
}

impl Geometry {
    /// Both paths out of the shift states raise TMS on their first edge.
    pub proof fn lemma_exit_rises(self)
        requires
            self.wf(),
        ensures
            self.ir1.bit(0),
            self.dr1.bit(0),
    {
        lemma_leaves_at_once(State::ShiftIR, State::RunTestIdle);
        lemma_leaves_at_once(State::ShiftDR, State::RunTestIdle);
    }

    /// What an instruction puts on the wire behind the path into Shift-IR:
    /// ones for the instruction registers before the target, the
    /// instruction with its least significant bit first, ones for the
    /// instruction registers after the target. TMS stays low but for the
    /// last of these bits, where it rises. Nothing is sampled.
    pub proof fn lemma_ir_wire(self, tdi: u32, held: bool, exit_reads: bool)
        requires
            self.wf(),
        ensures
            ({
                let cmd = CommandView { notify: false, inner: CommandKind::IrTxBits { tdi } };
                let w = self.command_cycles(cmd, held, exit_reads);
                let e = self.ir0.len as int;
                let b = self.ir_before as int;
                let l = self.irlen as int;
                let n = b + l + self.ir_after;
                &&& w.len() == e + n + self.ir1.len - 1
                &&& forall|i: int| 0 <= i < e ==> (#[trigger] w[i]).tms == self.ir0.bit(i)
                &&& forall|i: int| 0 <= i < b ==> (#[trigger] w[e + i]).tdi
                &&& forall|i: int| 0 <= i < l ==> (#[trigger] w[e + b + i]).tdi == bit32(tdi, i)
                &&& forall|i: int| b + l <= i < n ==> (#[trigger] w[e + i]).tdi
                &&& forall|i: int| 0 <= i < n - 1 ==> !(#[trigger] w[e + i]).tms
                &&& w[e + n - 1].tms
                &&& forall|i: int| 0 <= i < w.len() ==> !(#[trigger] w[i]).tdo
            }),
    {
        let cmd = CommandView { notify: false, inner: CommandKind::IrTxBits { tdi } };
        self.lemma_exit_rises();
        lemma_route(State::ShiftIR, State::RunTestIdle);
        let payload = self.shifted(cmd, held);
        crate::bitbang::lemma_shift_merged(payload, self.ir1, held, exit_reads);
    }
}

/// The cycles of a new controller leave the TAP in Run-Test-Idle, whatever
/// state it was in.
pub proof fn lemma_init_reaches_idle(start: State, held: bool)
    ensures
        follow(start, tms_of(init_cycles(held))) == State::RunTestIdle,
{
    let r = tms_cycles(Path::spec_reset(), held);
    let i = tms_cycles(route(State::TestLogicReset, State::RunTestIdle), held);
    lemma_tms_path(Path::spec_reset(), held);
    lemma_tms_path(route(State::TestLogicReset, State::RunTestIdle), held);
    lemma_tms_concat(r, r);
    lemma_tms_concat(r + r, i);
    lemma_follow_concat(start, tms_of(r) + tms_of(r), tms_of(i));
    lemma_follow_concat(start, tms_of(r), tms_of(r));
    lemma_named_paths_reach(start);
    lemma_named_paths_reach(State::TestLogicReset);
    lemma_route(State::TestLogicReset, State::RunTestIdle);
}

} // verus!
