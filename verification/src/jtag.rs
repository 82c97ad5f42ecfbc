//! The IEEE 1149.1 TAP controller: its sixteen states, the TMS sequences that
//! move it, and the shortest route between every pair of states.

use vstd::prelude::*;
use vstd::string::StringExecFns;

verus! {

/// A state of the TAP controller.
#[derive(Debug, Clone, Copy, PartialEq, Eq, Structural)]
pub enum State {
    TestLogicReset,
    RunTestIdle,
    SelectDR,
    CaptureDR,
    ShiftDR,
    Exit1DR,
    PauseDR,
    Exit2DR,
    UpdateDR,
    SelectIR,
    CaptureIR,
    ShiftIR,
    Exit1IR,
    PauseIR,
    Exit2IR,
    UpdateIR,
}

/// The two successors of a state: entry 0 is taken when TMS is low, entry 1
/// when TMS is high.
#[derive(Debug, Clone, Copy)]
pub struct Edges(pub [State; 2]);

impl Edges {
    /// The successor selected by `tms`.
    pub fn get(&self, tms: bool) -> (r: State)
        ensures
            r == self.0@[if tms { 1int } else { 0int }],
    {
        if tms {
            self.0[1]
        } else {
            self.0[0]
        }
    }
}

impl State {
    /// The state the TAP enters from `self` on a clock edge with the given TMS.
    pub open spec fn next(self, tms: bool) -> State {
        match self {
            State::TestLogicReset => if tms { State::TestLogicReset } else { State::RunTestIdle },
            State::RunTestIdle => if tms { State::SelectDR } else { State::RunTestIdle },
            State::SelectDR => if tms { State::SelectIR } else { State::CaptureDR },
            State::CaptureDR => if tms { State::Exit1DR } else { State::ShiftDR },
            State::ShiftDR => if tms { State::Exit1DR } else { State::ShiftDR },
            State::Exit1DR => if tms { State::UpdateDR } else { State::PauseDR },
            State::PauseDR => if tms { State::Exit2DR } else { State::PauseDR },
            State::Exit2DR => if tms { State::UpdateDR } else { State::ShiftDR },
            State::UpdateDR => if tms { State::SelectDR } else { State::RunTestIdle },
            State::SelectIR => if tms { State::TestLogicReset } else { State::CaptureIR },
            State::CaptureIR => if tms { State::Exit1IR } else { State::ShiftIR },
            State::ShiftIR => if tms { State::Exit1IR } else { State::ShiftIR },
            State::Exit1IR => if tms { State::UpdateIR } else { State::PauseIR },
            State::PauseIR => if tms { State::Exit2IR } else { State::PauseIR },
            State::Exit2IR => if tms { State::UpdateIR } else { State::ShiftIR },
            State::UpdateIR => if tms { State::SelectDR } else { State::RunTestIdle },
        }
    }

    /// Position of the state in declaration order.
    pub open spec fn ordinal(self) -> int {
        match self {
            State::TestLogicReset => 0,
            State::RunTestIdle => 1,
            State::SelectDR => 2,
            State::CaptureDR => 3,
            State::ShiftDR => 4,
            State::Exit1DR => 5,
            State::PauseDR => 6,
            State::Exit2DR => 7,
            State::UpdateDR => 8,
            State::SelectIR => 9,
            State::CaptureIR => 10,
            State::ShiftIR => 11,
            State::Exit1IR => 12,
            State::PauseIR => 13,
            State::Exit2IR => 14,
            State::UpdateIR => 15,
        }
    }

    /// The state at a position of declaration order.
    pub open spec fn at(i: int) -> State {
        if i == 0 {
            State::TestLogicReset
        } else if i == 1 {
            State::RunTestIdle
        } else if i == 2 {
            State::SelectDR
        } else if i == 3 {
            State::CaptureDR
        } else if i == 4 {
            State::ShiftDR
        } else if i == 5 {
            State::Exit1DR
        } else if i == 6 {
            State::PauseDR
        } else if i == 7 {
            State::Exit2DR
        } else if i == 8 {
            State::UpdateDR
        } else if i == 9 {
            State::SelectIR
        } else if i == 10 {
            State::CaptureIR
        } else if i == 11 {
            State::ShiftIR
        } else if i == 12 {
            State::Exit1IR
        } else if i == 13 {
            State::PauseIR
        } else if i == 14 {
            State::Exit2IR
        } else {
            State::UpdateIR
        }
    }

    /// Both successors of the state.
    pub fn edges(self) -> (r: Edges)
        ensures
            r.0@.len() == 2,
            r.0@[0] == self.next(false),
            r.0@[1] == self.next(true),
    {
        match self {
            State::TestLogicReset => Edges([State::RunTestIdle, State::TestLogicReset]),
            State::RunTestIdle => Edges([State::RunTestIdle, State::SelectDR]),
            State::SelectDR => Edges([State::CaptureDR, State::SelectIR]),
            State::CaptureDR => Edges([State::ShiftDR, State::Exit1DR]),
            State::ShiftDR => Edges([State::ShiftDR, State::Exit1DR]),
            State::Exit1DR => Edges([State::PauseDR, State::UpdateDR]),
            State::PauseDR => Edges([State::PauseDR, State::Exit2DR]),
            State::Exit2DR => Edges([State::ShiftDR, State::UpdateDR]),
            State::UpdateDR => Edges([State::RunTestIdle, State::SelectDR]),
            State::SelectIR => Edges([State::CaptureIR, State::TestLogicReset]),
            State::CaptureIR => Edges([State::ShiftIR, State::Exit1IR]),
            State::ShiftIR => Edges([State::ShiftIR, State::Exit1IR]),
            State::Exit1IR => Edges([State::PauseIR, State::UpdateIR]),
            State::PauseIR => Edges([State::PauseIR, State::Exit2IR]),
            State::Exit2IR => Edges([State::ShiftIR, State::UpdateIR]),
            State::UpdateIR => Edges([State::RunTestIdle, State::SelectDR]),
        }
    }

    /// Position of the state in declaration order, as a table index.
    pub fn index(self) -> (r: usize)
        ensures
            r == self.ordinal(),
            r < 16,
    {
        match self {
            State::TestLogicReset => 0,
            State::RunTestIdle => 1,
            State::SelectDR => 2,
            State::CaptureDR => 3,
            State::ShiftDR => 4,
            State::Exit1DR => 5,
            State::PauseDR => 6,
            State::Exit2DR => 7,
            State::UpdateDR => 8,
            State::SelectIR => 9,
            State::CaptureIR => 10,
            State::ShiftIR => 11,
            State::Exit1IR => 12,
            State::PauseIR => 13,
            State::Exit2IR => 14,
            State::UpdateIR => 15,
        }
    }

    /// The state at table index `i`.
    pub fn from_index(i: usize) -> (r: State)
        requires
            i < 16,
        ensures
            r == State::at(i as int),
            r.ordinal() == i,
    {
        if i == 0 {
            State::TestLogicReset
        } else if i == 1 {
            State::RunTestIdle
        } else if i == 2 {
            State::SelectDR
        } else if i == 3 {
            State::CaptureDR
        } else if i == 4 {
            State::ShiftDR
        } else if i == 5 {
            State::Exit1DR
        } else if i == 6 {
            State::PauseDR
        } else if i == 7 {
            State::Exit2DR
        } else if i == 8 {
            State::UpdateDR
        } else if i == 9 {
            State::SelectIR
        } else if i == 10 {
            State::CaptureIR
        } else if i == 11 {
            State::ShiftIR
        } else if i == 12 {
            State::Exit1IR
        } else if i == 13 {
            State::PauseIR
        } else if i == 14 {
            State::Exit2IR
        } else {
            State::UpdateIR
        }
    }

    /// All sixteen states, in declaration order.
    pub fn variants() -> (r: [State; 16])
        ensures
            forall|i: int| 0 <= i < 16 ==> r@[i] == State::at(i),
    {
        [
            State::TestLogicReset,
            State::RunTestIdle,
            State::SelectDR,
            State::CaptureDR,
            State::ShiftDR,
            State::Exit1DR,
            State::PauseDR,
            State::Exit2DR,
            State::UpdateDR,
            State::SelectIR,
            State::CaptureIR,
            State::ShiftIR,
            State::Exit1IR,
            State::PauseIR,
            State::Exit2IR,
            State::UpdateIR,
        ]
    }
}

/// The state reached from `start` by clocking the TMS bits of `tms` in order.
pub open spec fn follow(start: State, tms: Seq<bool>) -> State
    decreases tms.len(),
{
    if tms.len() == 0 {
        start
    } else {
        follow(start.next(tms[0]), tms.skip(1))
    }
}

/// Bit `k` of `v`.
pub open spec fn bit8(v: u8, k: int) -> bool {
    0 <= k < 8 && (v >> (k as u8)) & 1 == 1
}

/// Bits as text: a `1` for every bit that is set, a `0` for every other.
pub open spec fn digits(bits: Seq<bool>) -> Seq<char>
    decreases bits.len(),
{
    if bits.len() == 0 {
        Seq::empty()
    } else {
        digits(bits.drop_last()) + if bits.last() {
            "1"@
        } else {
            "0"@
        }
    }
}

/// A TMS sequence of at most eight bits. The bits are stored most significant
/// first: the bit clocked first is bit `len - 1` of `path`, the bit clocked
/// last is bit 0. Bits of `path` at `len` and above carry no meaning.
#[derive(Clone, Copy, Debug)]
pub struct Path {
    pub path: u8,
    pub len: u8,
}

impl Path {
    /// Five ones: reaches Test-Logic-Reset from any state.
    pub open spec fn spec_reset() -> Path {
        Path { path: 0xff, len: 5 }
    }

    /// Five ones and a zero: reaches Run-Test-Idle from any state.
    pub open spec fn spec_idle() -> Path {
        Path { path: 0x3e, len: 6 }
    }

    /// Five ones: reaches Test-Logic-Reset from any state.
    #[verifier::when_used_as_spec(spec_reset)]
    pub fn reset() -> (r: Path)
        ensures
            r == Path::spec_reset(),
    {
        Path { path: 0xff, len: 5 }
    }

    /// Five ones and a zero: reaches Run-Test-Idle from any state.
    #[verifier::when_used_as_spec(spec_idle)]
    pub fn idle() -> (r: Path)
        ensures
            r == Path::spec_idle(),
    {
        Path { path: 0x3e, len: 6 }
    }

    /// A path holds at most eight bits.
    pub open spec fn wf(self) -> bool {
        self.len <= 8
    }

    /// The TMS bit clocked at step `i`.
    pub open spec fn bit(self, i: int) -> bool {
        0 <= i < self.len && bit8(self.path, self.len - 1 - i)
    }

    /// The TMS bits in the order they are clocked.
    pub open spec fn bits(self) -> Seq<bool> {
        Seq::new(self.len as nat, |i: int| self.bit(i))
    }
}

impl Path {
    /// No bit is set at position `len` or above.
    pub open spec fn canonical(self) -> bool {
        self.len <= 8 && (self.path as u16) >> (self.len as u16) == 0
    }

    /// Shorter paths come first; among paths of one length, the one whose
    /// first differing bit is a zero.
    pub open spec fn precedes(self, other: Path) -> bool {
        self.len < other.len || (self.len == other.len && self.path <= other.path)
    }

    /// The bits in clocking order packed least significant first: bit `i` of
    /// the result is the bit clocked at step `i`.
    pub fn as_clocked(self) -> (r: u8)
        requires
            self.wf(),
        ensures
            forall|i: int| 0 <= i < 8 ==> bit8(r, i) == self.bit(i),
    {
        let mut r: u8 = 0;
        let mut i: u8 = 0;
        proof {
            assert forall|k: int| 0 <= k < 8 implies !bit8(r, k) by {
                lemma_zero_bits(k as u8);
            }
        }
        while i < self.len
            invariant
                self.wf(),
                i <= self.len,
                forall|k: int| 0 <= k < i ==> bit8(r, k) == self.bit(k),
                forall|k: int| i <= k < 8 ==> !bit8(r, k),
            decreases self.len - i,
        {
            let shift: u8 = self.len - 1 - i;
            let b: u8 = (self.path >> shift) & 1;
            let ghost before = r;
            r = r | (b << i);
            proof {
                assert forall|k: int| 0 <= k < 8 implies bit8(r, k) == (if k == i {
                    bit8(before, k) || bit8(self.path, shift as int)
                } else {
                    bit8(before, k)
                }) by {
                    lemma_or_bit(before, self.path, shift, i, k as u8);
                }
            }
            i = i + 1;
        }
        r
    }

    /// The path as text: a `1` or a `0` for every bit, in clocking order.
    pub fn to_string(&self) -> (r: String)
        requires
            self.wf(),
        ensures
            r@ == digits(self@),
    {
        let mut out = String::new();
        let mut i: u8 = 0;
        proof {
            assert(self@.take(0) =~= Seq::<bool>::empty());
        }
        while i < self.len
            invariant
                self.wf(),
                i <= self.len,
                out@ == digits(self@.take(i as int)),
            decreases self.len - i,
        {
            let shift: u8 = self.len - 1 - i;
            let bit = (self.path >> shift) & 1 == 1;
            proof {
                let done = self@.take(i + 1);
                assert(done.drop_last() =~= self@.take(i as int));
                assert(done.last() == bit);
            }
            if bit {
                out.append("1");
            } else {
                out.append("0");
            }
            i = i + 1;
        }
        proof {
            assert(self@.take(self.len as int) =~= self@);
        }
        out
    }

    /// An iterator over the TMS bits in clocking order.
    pub fn into_iter(self) -> (r: PathIter)
        ensures
            r.0 == self,
            r.1 == 0,
    {
        PathIter(self, 0)
    }
}

proof fn lemma_zero_bits(k: u8)
    by (bit_vector)
    requires
        k < 8,
    ensures
        (0u8 >> k) & 1 == 0,
{
}

proof fn lemma_or_bit(r: u8, v: u8, shift: u8, i: u8, k: u8)
    by (bit_vector)
    requires
        shift < 8,
        i < 8,
        k < 8,
    ensures
        (((r | (((v >> shift) & 1) << i)) >> k) & 1 == 1) == (if k == i {
            (r >> k) & 1 == 1 || (v >> shift) & 1 == 1
        } else {
            (r >> k) & 1 == 1
        }),
{
}

/// Walks the bits of a path in clocking order.
pub struct PathIter(pub Path, pub u8);

impl PathIter {
    /// The next TMS bit, or `None` once all `len` bits were handed out.
    pub fn next(&mut self) -> (r: Option<bool>)
        requires
            old(self).0.wf(),
        ensures
            final(self).0 == old(self).0,
            final(self).1 == if old(self).1 == 255 { 255u8 } else { (old(self).1 + 1) as u8 },
            old(self).1 < old(self).0.len ==> r == Some(old(self).0.bit(old(self).1 as int)),
            old(self).1 >= old(self).0.len ==> r is None,
    {
        let idx = self.1;
        self.1 = if idx == 255 { 255 } else { idx + 1 };
        if idx < self.0.len {
            let shift: u8 = self.0.len - idx - 1;
            Some((self.0.path >> shift) & 1 == 1)
        } else {
            None
        }
    }
}

/// The state reached from `start` by clocking `path`.
pub fn follow_path(start: State, path: Path) -> (r: State)
    requires
        path.wf(),
    ensures
        r == follow(start, path@),
{
    let mut cur = start;
    let mut i: u8 = 0;
    proof {
        assert(path@.skip(0) =~= path@);
    }
    while i < path.len
        invariant
            path.wf(),
            i <= path.len,
            follow(cur, path@.skip(i as int)) == follow(start, path@),
        decreases path.len - i,
    {
        let shift: u8 = path.len - 1 - i;
        let tms = (path.path >> shift) & 1 == 1;
        proof {
            let rest = path@.skip(i as int);
            assert(rest[0] == path.bit(i as int));
            assert(rest.skip(1) =~= path@.skip(i + 1));
        }
        cur = cur.edges().get(tms);
        i = i + 1;
    }
    cur
}

impl View for Path {
    type V = Seq<bool>;

    open spec fn view(&self) -> Seq<bool> {
        self.bits()
    }
}

/// Whether some sequence of exactly `k` TMS bits leads from `s` to `t`.
pub open spec fn reach(s: State, t: State, k: nat) -> bool
    decreases k,
{
    if k == 0 {
        s == t
    } else {
        reach(s.next(false), t, (k - 1) as nat) || reach(s.next(true), t, (k - 1) as nat)
    }
}

proof fn lemma_reach_compose(s: State, u: State, t: State, a: nat, b: nat)
    requires
        reach(s, u, a),
        reach(u, t, b),
    ensures
        reach(s, t, a + b),
    decreases a,
{
    if a > 0 {
        if reach(s.next(false), u, (a - 1) as nat) {
            lemma_reach_compose(s.next(false), u, t, (a - 1) as nat, b);
        } else {
            lemma_reach_compose(s.next(true), u, t, (a - 1) as nat, b);
        }
        assert((a + b - 1) as nat == (a - 1) as nat + b);
    }
}

proof fn lemma_reach_hubs(s: State)
    ensures
        reach(s, State::TestLogicReset, 5),
        reach(s, State::RunTestIdle, 1) || reach(s, State::RunTestIdle, 2) || reach(
            s,
            State::RunTestIdle,
            3,
        ),
        reach(s, State::SelectDR, 1) || reach(s, State::SelectDR, 2) || reach(
            s,
            State::SelectDR,
            3,
        ) || reach(s, State::SelectDR, 4),
        reach(s, State::SelectIR, 1) || reach(s, State::SelectIR, 2) || reach(
            s,
            State::SelectIR,
            3,
        ) || reach(s, State::SelectIR, 4),
{
    reveal_with_fuel(reach, 6);
}

proof fn lemma_reach_scan()
    ensures
        reach(State::SelectDR, State::CaptureDR, 1),
        reach(State::SelectDR, State::ShiftDR, 2),
        reach(State::SelectDR, State::Exit1DR, 2),
        reach(State::SelectDR, State::PauseDR, 3),
        reach(State::SelectDR, State::Exit2DR, 4),
        reach(State::SelectDR, State::UpdateDR, 3),
        reach(State::SelectIR, State::CaptureIR, 1),
        reach(State::SelectIR, State::ShiftIR, 2),
        reach(State::SelectIR, State::Exit1IR, 2),
        reach(State::SelectIR, State::PauseIR, 3),
        reach(State::SelectIR, State::Exit2IR, 4),
        reach(State::SelectIR, State::UpdateIR, 3),
{
    reveal_with_fuel(reach, 5);
}

proof fn lemma_reach_via(s: State, hub: State, t: State, b: nat)
    requires
        reach(s, hub, 1) || reach(s, hub, 2) || reach(s, hub, 3) || reach(s, hub, 4),
        reach(hub, t, b),
        b <= 4,
    ensures
        exists|k: nat| 1 <= k <= 8 && reach(s, t, k),
{
    let a: nat = if reach(s, hub, 1) {
        1
    } else if reach(s, hub, 2) {
        2
    } else if reach(s, hub, 3) {
        3
    } else {
        4
    };
    lemma_reach_compose(s, hub, t, a, b);
    assert(reach(s, t, a + b));
}

/// Every state is reachable from every state in one to eight clock edges.
pub proof fn lemma_reach_within_eight(s: State, t: State)
    ensures
        exists|k: nat| 1 <= k <= 8 && reach(s, t, k),
{
    lemma_reach_hubs(s);
    lemma_reach_scan();
    match t {
        State::TestLogicReset => {
            assert(reach(s, t, 5));
        },
        State::RunTestIdle => {
            assert(reach(s, t, 1) || reach(s, t, 2) || reach(s, t, 3));
        },
        State::SelectDR => {
            assert(reach(s, t, 1) || reach(s, t, 2) || reach(s, t, 3) || reach(s, t, 4));
        },
        State::SelectIR => {
            assert(reach(s, t, 1) || reach(s, t, 2) || reach(s, t, 3) || reach(s, t, 4));
        },
        State::CaptureDR => lemma_reach_via(s, State::SelectDR, t, 1),
        State::ShiftDR => lemma_reach_via(s, State::SelectDR, t, 2),
        State::Exit1DR => lemma_reach_via(s, State::SelectDR, t, 2),
        State::PauseDR => lemma_reach_via(s, State::SelectDR, t, 3),
        State::Exit2DR => lemma_reach_via(s, State::SelectDR, t, 4),
        State::UpdateDR => lemma_reach_via(s, State::SelectDR, t, 3),
        State::CaptureIR => lemma_reach_via(s, State::SelectIR, t, 1),
        State::ShiftIR => lemma_reach_via(s, State::SelectIR, t, 2),
        State::Exit1IR => lemma_reach_via(s, State::SelectIR, t, 2),
        State::PauseIR => lemma_reach_via(s, State::SelectIR, t, 3),
        State::Exit2IR => lemma_reach_via(s, State::SelectIR, t, 4),
        State::UpdateIR => lemma_reach_via(s, State::SelectIR, t, 3),
    }
}

proof fn lemma_prepend_bit(w: u8, b: u8, k: u8)
    by (bit_vector)
    requires
        1 <= k <= 8,
        b <= 1,
        (w as u16) >> ((k - 1) as u16) == 0,
    ensures
        (((w | (b << (k - 1) as u8)) >> (k - 1) as u8) & 1 == 1) == (b == 1),
        forall|j: u8|
            j < k - 1 ==> (#[trigger] ((w | (b << (k - 1) as u8)) >> j)) & 1 == (w >> j) & 1,
        ((w | (b << (k - 1) as u8)) as u16) >> (k as u16) == 0,
{
}

proof fn lemma_canonical_bound(w: u8, v: u16, k: u8)
    by (bit_vector)
    requires
        1 <= k <= 8,
    ensures
        (w as u16) >> (k as u16) == 0 <==> (w as u16) < (1u16 << (k as u16)),
        v < (1u16 << (k as u16)) ==> (v as u8) as u16 == v,
        1u16 << (k as u16) <= 256,
        0u16 >> 0u16 == 0,
{
}

/// A sequence that `reach` promises can be written down as a path.
proof fn lemma_reach_path(s: State, t: State, k: nat) -> (p: Path)
    requires
        reach(s, t, k),
        k <= 8,
    ensures
        p.canonical(),
        p.len == k,
        follow(s, p@) == t,
    decreases k,
{
    if k == 0 {
        lemma_canonical_bound(0, 0, 1);
        let p = Path { path: 0, len: 0 };
        assert(p@.len() == 0);
        p
    } else {
        let b = reach(s.next(true), t, (k - 1) as nat);
        let rest = lemma_reach_path(s.next(b), t, (k - 1) as nat);
        let bit: u8 = if b { 1 } else { 0 };
        let top: u8 = (k - 1) as u8;
        lemma_prepend_bit(rest.path, bit, k as u8);
        let p = Path { path: rest.path | (bit << top), len: k as u8 };
        assert(p@[0] == b);
        assert(p@.skip(1) =~= rest@) by {
            assert forall|i: int| 0 <= i < k - 1 implies p@.skip(1)[i] == rest@[i] by {
                let j: u8 = (k - 2 - i) as u8;
                assert(((p.path >> j) & 1) == ((rest.path >> j) & 1));
            }
        }
        p
    }
}

/// `p` is the route the router gives from `start` to `end`: it leads there,
/// holds one to eight bits, and no other such path precedes it.
pub open spec fn is_route(start: State, end: State, p: Path) -> bool {
    &&& p.canonical()
    &&& 1 <= p.len <= 8
    &&& follow(start, p@) == end
    &&& forall|q: Path|
        q.canonical() && q.len >= 1 && follow(start, q@) == end ==> p.precedes(q)
}

/// The route from `start` to `end`.
pub open spec fn route(start: State, end: State) -> Path {
    choose|p: Path| is_route(start, end, p)
}

/// The shortest TMS sequence that moves the TAP from `start` to `end`.
///
/// The search is breadth first: every sequence of one length is tried before
/// any longer one, and among sequences of one length the one that clocks a
/// zero where the others first differ wins.
pub fn get_path(start: State, end: State) -> (r: Path)
    ensures
        is_route(start, end, r),
        r == route(start, end),
{
    let mut len: u8 = 1;
    while len <= 8
        invariant
            1 <= len <= 9,
            forall|p: Path| p.canonical() && 1 <= p.len < len ==> follow(start, p@) != end,
        decreases 9 - len,
    {
        proof {
            lemma_canonical_bound(0, 0, len);
        }
        let limit: u16 = 1u16 << len;
        let mut v: u16 = 0;
        while v < limit
            invariant
                1 <= len <= 8,
                limit == 1u16 << (len as u16),
                limit <= 256,
                v <= limit,
                forall|p: Path| p.canonical() && 1 <= p.len < len ==> follow(start, p@) != end,
                forall|p: Path|
                    p.canonical() && p.len == len && p.path < v ==> follow(start, p@) != end,
            decreases limit - v,
        {
            let cand = Path { path: v as u8, len };
            proof {
                lemma_canonical_bound(v as u8, v, len);
            }
            if follow_path(start, cand) == end {
                proof {
                    assert forall|p: Path|
                        p.canonical() && p.len >= 1 && follow(start, p@) == end implies cand.precedes(
                        p,
                    ) by {
                        if p.len == len && p.path < v {
                            assert(false);
                        }
                    }
                    assert(is_route(start, end, cand));
                    lemma_route_unique(start, end, cand, route(start, end));
                }
                return cand;
            }
            proof {
                assert forall|p: Path|
                    p.canonical() && p.len == len && p.path < v + 1 implies follow(start, p@)
                    != end by {
                    if p.path == v {
                        assert(p == cand);
                    }
                }
            }
            v = v + 1;
        }
        proof {
            assert forall|p: Path| p.canonical() && 1 <= p.len < len + 1 implies follow(
                start,
                p@,
            ) != end by {
                if p.len == len {
                    lemma_canonical_bound(p.path, 0, len);
                }
            }
        }
        len = len + 1;
    }
    proof {
        lemma_reach_within_eight(start, end);
        let k = choose|k: nat| 1 <= k <= 8 && reach(start, end, k);
        let p = lemma_reach_path(start, end, k);
        assert(false);
    }
    Path { path: 0, len: 0 }
}

/// One entry per TAP state, indexed by the state.
#[derive(Clone, Copy, Debug)]
pub struct Graph<T>(pub [T; 16]);

impl<T> Graph<T> {
    /// The entry of state `s`.
    pub open spec fn at(self, s: State) -> T {
        self.0@[s.ordinal()]
    }

    /// The entry of state `s`.
    pub fn get(&self, s: State) -> (r: &T)
        ensures
            *r == self.at(s),
    {
        &self.0[s.index()]
    }
}

/// The successors of every state.
pub fn graph() -> (r: Graph<Edges>)
    ensures
        forall|s: State, tms: bool|
            #![trigger r.at(s), s.next(tms)]
            r.at(s).0@[if tms { 1int } else { 0int }] == s.next(tms),
{
    let r = Graph(
        [
            State::TestLogicReset.edges(),
            State::RunTestIdle.edges(),
            State::SelectDR.edges(),
            State::CaptureDR.edges(),
            State::ShiftDR.edges(),
            State::Exit1DR.edges(),
            State::PauseDR.edges(),
            State::Exit2DR.edges(),
            State::UpdateDR.edges(),
            State::SelectIR.edges(),
            State::CaptureIR.edges(),
            State::ShiftIR.edges(),
            State::Exit1IR.edges(),
            State::PauseIR.edges(),
            State::Exit2IR.edges(),
            State::UpdateIR.edges(),
        ],
    );
    r
}

/// The routes from one state to every state.
fn routes_from(start: State) -> (r: Graph<Path>)
    ensures
        forall|t: State| is_route(start, t, #[trigger] r.at(t)),
{
    let mut row: [Path; 16] = [Path { path: 0, len: 0 };16];
    let mut j: usize = 0;
    while j < 16
        invariant
            j <= 16,
            forall|k: int| 0 <= k < j ==> is_route(start, State::at(k), #[trigger] row@[k]),
        decreases 16 - j,
    {
        let path = get_path(start, State::from_index(j));
        row.set(j, path);
        j = j + 1;
    }
    let r = Graph(row);
    proof {
        assert forall|t: State| is_route(start, t, #[trigger] r.at(t)) by {
            assert(State::at(t.ordinal()) == t);
        }
    }
    r
}

/// The route between every ordered pair of states: entry `start`, then entry
/// `end`, holds the shortest TMS sequence from `start` to `end`.
pub fn paths() -> (r: Graph<Graph<Path>>)
    ensures
        forall|s: State, t: State| is_route(s, t, #[trigger] r.at(s).at(t)),
{
    let first = routes_from(State::TestLogicReset);
    let mut table: [Graph<Path>; 16] = [first;16];
    let mut i: usize = 1;
    proof {
        assert(State::at(0) == State::TestLogicReset);
    }
    while i < 16
        invariant
            1 <= i <= 16,
            forall|k: int, t: State|
                0 <= k < i ==> is_route(State::at(k), t, #[trigger] table@[k].at(t)),
        decreases 16 - i,
    {
        let row = routes_from(State::from_index(i));
        table.set(i, row);
        i = i + 1;
    }
    let r = Graph(table);
    proof {
        assert forall|s: State, t: State| is_route(s, t, #[trigger] r.at(s).at(t)) by {
            assert(State::at(s.ordinal()) == s);
        }
    }
    r
}

/// Clocking a concatenation is clocking its parts in turn.
pub proof fn lemma_follow_concat(s: State, a: Seq<bool>, b: Seq<bool>)
    ensures
        follow(s, a + b) == follow(follow(s, a), b),
    decreases a.len(),
{
    if a.len() == 0 {
        assert(a + b =~= b);
    } else {
        assert((a + b).skip(1) =~= a.skip(1) + b);
        lemma_follow_concat(s.next(a[0]), a.skip(1), b);
    }
}

/// Clocking one more bit moves one more step.
pub proof fn lemma_follow_push(s: State, a: Seq<bool>, b: bool)
    ensures
        follow(s, a.push(b)) == follow(s, a).next(b),
{
    lemma_follow_concat(s, a, seq![b]);
    assert(a.push(b) =~= a + seq![b]);
    let one = seq![b];
    assert(one.skip(1) =~= Seq::<bool>::empty());
    assert(follow(follow(s, a), one) == follow(follow(s, a).next(one[0]), one.skip(1)));
}

proof fn lemma_named_bits()
    by (bit_vector)
    ensures
        (0xffu8 >> 0u8) & 1 == 1,
        (0xffu8 >> 1u8) & 1 == 1,
        (0xffu8 >> 2u8) & 1 == 1,
        (0xffu8 >> 3u8) & 1 == 1,
        (0xffu8 >> 4u8) & 1 == 1,
        (0x3eu8 >> 0u8) & 1 == 0,
        (0x3eu8 >> 1u8) & 1 == 1,
        (0x3eu8 >> 2u8) & 1 == 1,
        (0x3eu8 >> 3u8) & 1 == 1,
        (0x3eu8 >> 4u8) & 1 == 1,
        (0x3eu8 >> 5u8) & 1 == 1,
{
}

/// The reset path is five ones, the idle path five ones and a zero.
pub proof fn lemma_named_paths()
    ensures
        Path::spec_reset()@ == seq![true, true, true, true, true],
        Path::spec_idle()@ == seq![true, true, true, true, true, false],
{
    lemma_named_bits();
    assert(Path::spec_reset()@ =~= seq![true, true, true, true, true]);
    assert(Path::spec_idle()@ =~= seq![true, true, true, true, true, false]);
}

/// From any state the reset path ends in Test-Logic-Reset and the idle path
/// in Run-Test-Idle.
pub proof fn lemma_named_paths_reach(s: State)
    ensures
        follow(s, Path::spec_reset()@) == State::TestLogicReset,
        follow(s, Path::spec_idle()@) == State::RunTestIdle,
{
    lemma_named_paths();
    let e = Seq::<bool>::empty();
    let a1 = e.push(true);
    let a2 = a1.push(true);
    let a3 = a2.push(true);
    let a4 = a3.push(true);
    let a5 = a4.push(true);
    let a6 = a5.push(false);
    assert(follow(s, e) == s);
    lemma_follow_push(s, e, true);
    lemma_follow_push(s, a1, true);
    lemma_follow_push(s, a2, true);
    lemma_follow_push(s, a3, true);
    lemma_follow_push(s, a4, true);
    lemma_follow_push(s, a5, false);
    assert(a5 =~= seq![true, true, true, true, true]);
    assert(a6 =~= seq![true, true, true, true, true, false]);
}

proof fn lemma_drop_top_bit(v: u8, l: u8)
    by (bit_vector)
    requires
        1 <= l <= 8,
        (v as u16) >> (l as u16) == 0,
        (v >> ((l - 1) as u8)) & 1 != 1,
    ensures
        (v as u16) >> ((l - 1) as u16) == 0,
{
}

/// The route out of a state that TMS low does not leave begins with TMS
/// high.
pub proof fn lemma_leaves_at_once(s: State, t: State)
    requires
        s.next(false) == s,
        s != t,
    ensures
        route(s, t).bit(0),
{
    lemma_route(s, t);
    let p = route(s, t);
    if !p.bit(0) {
        let q = Path { path: p.path, len: (p.len - 1) as u8 };
        lemma_drop_top_bit(p.path, p.len);
        assert(q@ =~= p@.skip(1));
        assert(p@[0] == p.bit(0));
        assert(follow(s, p@) == follow(s.next(p@[0]), p@.skip(1)));
        if q.len == 0 {
            assert(q@.len() == 0);
            assert(follow(s, q@) == s);
        } else {
            assert(q.canonical());
            assert(follow(s, q@) == t);
            assert(p.precedes(q));
        }
    }
}

/// The router's answer is unique: two routes for one pair of states are the
/// same path.
pub proof fn lemma_route_unique(start: State, end: State, p: Path, q: Path)
    requires
        is_route(start, end, p),
        is_route(start, end, q),
    ensures
        p == q,
{
    assert(p.precedes(q));
    assert(q.precedes(p));
}

/// For every ordered pair of states the route exists, lands on the second
/// and holds at most eight bits.
pub proof fn lemma_route(start: State, end: State)
    ensures
        is_route(start, end, route(start, end)),
        follow(start, route(start, end)@) == end,
        1 <= route(start, end).len <= 8,
{
    let p = lemma_route_exists(start, end);
}

/// The route from `start` to `end` exists, lands on `end` and holds at most
/// eight bits.
pub proof fn lemma_route_exists(start: State, end: State) -> (p: Path)
    ensures
        is_route(start, end, p),
        follow(start, p@) == end,
        p.len <= 8,
{
    lemma_reach_within_eight(start, end);
    let k = choose|k: nat| 1 <= k <= 8 && reach(start, end, k);
    let w = lemma_reach_path(start, end, k);
    lemma_least_path(start, end, w, (w.len as int * 256 + w.path as int) as nat)
}

proof fn lemma_least_path(start: State, end: State, w: Path, fuel: nat) -> (p: Path)
    requires
        w.canonical(),
        w.len >= 1,
        follow(start, w@) == end,
        fuel == w.len * 256 + w.path,
    ensures
        is_route(start, end, p),
    decreases fuel,
{
    if exists|q: Path|
        q.canonical() && q.len >= 1 && follow(start, q@) == end && !w.precedes(q) {
        let q = choose|q: Path|
            q.canonical() && q.len >= 1 && follow(start, q@) == end && !w.precedes(q);
        lemma_least_path(start, end, q, (q.len * 256 + q.path) as nat)
    } else {
        w
    }
}

} // verus!
