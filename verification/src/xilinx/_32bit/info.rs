//! Snapshots of the identification and configuration registers of a device.
//!
//! Every register is read in a batch of its own: reading several
//! configuration registers in one pass through CFG_IN returns wrong data on
//! some devices. A snapshot is planned as a list of probes, one batch each,
//! and assembled from the replies to them.

use super::commands;
use super::registers::{type1_word, Addr, OpCode, Type1};
use super::{
    dr_rx, instruction, ir, ir_word, ran, read_register_slr, register_batch, supported, supports,
    untouched, wire_word,
};
use crate::backend::{Backend, Transfer};
use crate::controller::{
    lemma_totals_concat, lemma_totals_one, views, Command, CommandView, Controller,
};
use crate::error::Error;
use crate::units::Bytes;
use vstd::prelude::*;

verus! {

/// One register to read.
#[derive(Clone, Copy, Debug, PartialEq, Eq)]
pub enum Probe {
    /// The data register that the instruction `inst` selects, `len` bytes
    /// long, in the super logic region `slr` or, without one, in all.
    Jtag { inst: u8, len: usize, slr: Option<u8> },
    /// One word of the configuration register `addr` in the super logic
    /// region `slr` or, without one, in all.
    Register { addr: Addr, slr: Option<u8> },
}

impl Probe {
    /// The number of bytes that the reply to the probe holds.
    pub open spec fn spec_reply_len(self) -> usize {
        match self {
            Probe::Jtag { len, .. } => len,
            Probe::Register { .. } => 4,
        }
    }

    /// The number of bytes that the reply to the probe holds.
    #[verifier::when_used_as_spec(spec_reply_len)]
    pub fn reply_len(self) -> (r: usize)
        ensures
            r == self.spec_reply_len(),
    {
        match self {
            Probe::Jtag { len, .. } => len,
            Probe::Register { .. } => 4,
        }
    }

    /// The batch that performs the probe on a device whose instruction
    /// register holds `irlen` bits.
    pub open spec fn batch(self, irlen: u8) -> Seq<CommandView> {
        match self {
            Probe::Jtag { inst, len, slr } => seq![
                ir(ir_word(irlen, inst, slr)),
                dr_rx(len as nat),
            ],
            Probe::Register { addr, slr } => register_batch(
                irlen,
                type1_word(1, addr.spec_code() as int, 1) as u32,
                1,
                slr,
            ),
        }
    }
}

/// Queue the read of one register and hand out the exchanges.
///
/// Fails, with the controller untouched, exactly where the target is no
/// device that this protocol applies to.
pub fn probe<B: Backend>(cont: &mut Controller<B>, what: Probe) -> (r: Result<
    Vec<Transfer>,
    Error,
>)
    requires
        old(cont).inv(),
        8 * what.spec_reply_len() <= usize::MAX,
    ensures
        match r {
            Ok(t) => supported(old(cont).target().1) && ran(
                old(cont),
                final(cont),
                t@,
                what.batch(old(cont).geometry().irlen),
            ),
            Err(e) => e == Error::Unsupported && !supported(old(cont).target().1) && untouched(
                old(cont),
                final(cont),
            ),
        },
{
    match what {
        Probe::Register { addr, slr } => read_register_slr(
            cont,
            Type1::new(OpCode::Read, addr, 1),
            slr,
        ),
        Probe::Jtag { inst, len, slr } => {
            let info = *cont.info();
            if !supports(&info) {
                return Err(Error::Unsupported);
            }
            let a = Command::ir(instruction(info.irlen.0, inst, slr));
            let b = Command::dr_rx(Bytes(len));
            let batch = [a, b];
            proof {
                assert(views(batch@) =~= seq![a@, b@]);
                assert(seq![a@] + seq![b@] =~= seq![a@, b@]);
                lemma_totals_concat(seq![a@], seq![b@]);
                lemma_totals_one(a@);
                lemma_totals_one(b@);
            }
            Ok(cont.run(batch.as_slice()))
        },
    }
}

/// The bytes of a reply as an array.
pub fn to_array<const N: usize>(bytes: &[u8]) -> (r: [u8; N])
    requires
        bytes@.len() == N,
    ensures
        r@ == bytes@,
{
    let mut out = [0u8;N];
    let mut i: usize = 0;
    while i < N
        invariant
            i <= N,
            bytes@.len() == N,
            forall|k: int| 0 <= k < i ==> out@[k] == bytes@[k],
        decreases N - i,
    {
        out.set(i, bytes[i]);
        i = i + 1;
    }
    proof {
        assert(out@ =~= bytes@);
    }
    out
}

/// The word of a configuration register from the four bytes of its reply.
pub fn register_word(bytes: &[u8]) -> (r: u32)
    requires
        bytes@.len() == 4,
    ensures
        r == wire_word(bytes@),
{
    (super::reflect(bytes[0]) as u32) << 24 | (super::reflect(bytes[1]) as u32) << 16 | (
    super::reflect(bytes[2]) as u32) << 8 | (super::reflect(bytes[3]) as u32)
}

/// Whether there is one reply to every probe of the plan, each as long as
/// its probe says.
pub open spec fn shaped(replies: Seq<Vec<u8>>, plan: Seq<Probe>) -> bool {
    &&& replies.len() == plan.len()
    &&& forall|i: int|
        0 <= i < plan.len() ==> (#[trigger] replies[i])@.len() == plan[i].spec_reply_len()
}

/// The identification registers of one super logic region of a 7-series device.
#[derive(Clone, Copy, Debug)]
pub struct S7JtagPerSlr {
    pub idcode: [u8; 4],
    pub usercode: [u8; 4],
    pub fuse_dna: [u8; 8],
    pub fuse_key: [u8; 32],
    pub fuse_user: [u8; 4],
    pub user1: [u8; 4],
    pub user2: [u8; 4],
    pub user3: [u8; 4],
    pub user4: [u8; 4],
}

impl S7JtagPerSlr {
    /// The number of registers of one super logic region.
    pub const COUNT: usize = 9;

    /// The probe that reads register `o` of the region `slr`, in the order
    /// of the fields.
    pub open spec fn probe(o: int, slr: Option<u8>) -> Probe {
        if o == 0 {
            Probe::Jtag { inst: commands::IDCODE, len: 4, slr }
        } else if o == 1 {
            Probe::Jtag { inst: commands::USERCODE, len: 4, slr }
        } else if o == 2 {
            Probe::Jtag { inst: commands::FUSE_DNA, len: 8, slr }
        } else if o == 3 {
            Probe::Jtag { inst: commands::FUSE_KEY, len: 32, slr }
        } else if o == 4 {
            Probe::Jtag { inst: commands::FUSE_USER, len: 4, slr }
        } else if o == 5 {
            Probe::Jtag { inst: commands::USER1, len: 4, slr }
        } else if o == 6 {
            Probe::Jtag { inst: commands::USER2, len: 4, slr }
        } else if o == 7 {
            Probe::Jtag { inst: commands::USER3, len: 4, slr }
        } else {
            Probe::Jtag { inst: commands::USER4, len: 4, slr }
        }
    }

    /// The number of bytes of the reply that holds register `o`.
    pub open spec fn spec_len_at(o: int) -> usize {
        if o == 0 {
            4
        } else if o == 1 {
            4
        } else if o == 2 {
            8
        } else if o == 3 {
            32
        } else if o == 4 {
            4
        } else if o == 5 {
            4
        } else if o == 6 {
            4
        } else if o == 7 {
            4
        } else {
            4
        }
    }

    /// The number of bytes of the reply that holds register `o`.
    pub fn len_at(o: usize) -> (r: usize)
        ensures
            r == Self::spec_len_at(o as int),
            o < 9 ==> r == Self::probe(o as int, None).spec_reply_len(),
    {
        if o == 0 {
            4
        } else if o == 1 {
            4
        } else if o == 2 {
            8
        } else if o == 3 {
            32
        } else if o == 4 {
            4
        } else if o == 5 {
            4
        } else if o == 6 {
            4
        } else if o == 7 {
            4
        } else {
            4
        }
    }

    /// The probes that read the registers of one super logic region, in
    /// the order of the fields.
    pub open spec fn plan_spec(slr: Option<u8>) -> Seq<Probe> {
        Seq::new(9, |o: int| Self::probe(o, slr))
    }

    /// Whether the fields hold what the replies from `at` on carry, one
    /// reply to a field.
    pub open spec fn holds(self, replies: Seq<Vec<u8>>, at: int) -> bool {
        &&& self.idcode@ == replies[at + 0]@
        &&& self.usercode@ == replies[at + 1]@
        &&& self.fuse_dna@ == replies[at + 2]@
        &&& self.fuse_key@ == replies[at + 3]@
        &&& self.fuse_user@ == replies[at + 4]@
        &&& self.user1@ == replies[at + 5]@
        &&& self.user2@ == replies[at + 6]@
        &&& self.user3@ == replies[at + 7]@
        &&& self.user4@ == replies[at + 8]@
    }

    /// Append the probes that read the registers of one super logic region.
    pub fn plan(probes: &mut Vec<Probe>, slr: Option<u8>)
        ensures
            final(probes)@ == old(probes)@ + Self::plan_spec(slr),
    {
        probes.push(Probe::Jtag { inst: commands::IDCODE, len: 4, slr });
        probes.push(Probe::Jtag { inst: commands::USERCODE, len: 4, slr });
        probes.push(Probe::Jtag { inst: commands::FUSE_DNA, len: 8, slr });
        probes.push(Probe::Jtag { inst: commands::FUSE_KEY, len: 32, slr });
        probes.push(Probe::Jtag { inst: commands::FUSE_USER, len: 4, slr });
        probes.push(Probe::Jtag { inst: commands::USER1, len: 4, slr });
        probes.push(Probe::Jtag { inst: commands::USER2, len: 4, slr });
        probes.push(Probe::Jtag { inst: commands::USER3, len: 4, slr });
        probes.push(Probe::Jtag { inst: commands::USER4, len: 4, slr });
        proof {
            assert(probes@ =~= old(probes)@ + Self::plan_spec(slr));
        }
    }

    /// The registers of one super logic region from the replies from `at`
    /// on, each of which has the length of its register.
    pub fn take(replies: &[Vec<u8>], at: usize) -> (r: Self)
        requires
            at + 9 <= replies@.len(),
            forall|o: int|
                0 <= o < 9 ==> (#[trigger] replies@[at + o])@.len() == Self::spec_len_at(o),
        ensures
            r.holds(replies@, at as int),
    {
        proof {
            assert(replies@[at + 0]@.len() == Self::spec_len_at(0));
            assert(replies@[at + 1]@.len() == Self::spec_len_at(1));
            assert(replies@[at + 2]@.len() == Self::spec_len_at(2));
            assert(replies@[at + 3]@.len() == Self::spec_len_at(3));
            assert(replies@[at + 4]@.len() == Self::spec_len_at(4));
            assert(replies@[at + 5]@.len() == Self::spec_len_at(5));
            assert(replies@[at + 6]@.len() == Self::spec_len_at(6));
            assert(replies@[at + 7]@.len() == Self::spec_len_at(7));
            assert(replies@[at + 8]@.len() == Self::spec_len_at(8));
        }
        S7JtagPerSlr {
            idcode: to_array(replies[at + 0].as_slice()),
            usercode: to_array(replies[at + 1].as_slice()),
            fuse_dna: to_array(replies[at + 2].as_slice()),
            fuse_key: to_array(replies[at + 3].as_slice()),
            fuse_user: to_array(replies[at + 4].as_slice()),
            user1: to_array(replies[at + 5].as_slice()),
            user2: to_array(replies[at + 6].as_slice()),
            user3: to_array(replies[at + 7].as_slice()),
            user4: to_array(replies[at + 8].as_slice()),
        }
    }

    /// The registers of one super logic region from the replies to the
    /// probes of the plan. There are some exactly where there is one reply
    /// to every probe, each as long as its probe says.
    pub fn assemble(replies: &[Vec<u8>]) -> (r: Option<Self>)
        ensures
            r is Some <==> shaped(replies@, Self::plan_spec(None)),
            r matches Some(v) ==> v.holds(replies@, 0),
    {
        if replies.len() != 9 {
            return None;
        }
        let mut i: usize = 0;
        while i < 9
            invariant
                i <= 9,
                replies@.len() == 9,
                forall|j: int| 0 <= j < i ==> (#[trigger] replies@[j])@.len() == Self::spec_len_at(j),
            decreases 9 - i,
        {
            if replies[i].len() != Self::len_at(i) {
                return None;
            }
            i = i + 1;
        }
        proof {
            assert forall|j: int| 0 <= j < 9 implies (#[trigger] replies@[j])@.len()
                == Self::plan_spec(None)[j].spec_reply_len() by {
                assert(Self::probe(j, None).spec_reply_len() == Self::spec_len_at(j));
            }
        }
        Some(Self::take(replies, 0))
    }
}

/// The identification registers of one super logic region of an UltraScale or UltraScale+ device.
#[derive(Clone, Copy, Debug)]
pub struct USJtagPerSlr {
    pub idcode: [u8; 4],
    pub usercode: [u8; 4],
    pub fuse_dna: [u8; 12],
    pub fuse_key: [u8; 32],
    pub fuse_user: [u8; 4],
    pub fuse_user_128: [u8; 16],
    pub fuse_rsa: [u8; 48],
    pub fuse_sec: [u8; 2],
    pub user1: [u8; 4],
    pub user2: [u8; 4],
    pub user3: [u8; 4],
    pub user4: [u8; 4],
}

impl USJtagPerSlr {
    /// The number of registers of one super logic region.
    pub const COUNT: usize = 12;

    /// The probe that reads register `o` of the region `slr`, in the order
    /// of the fields.
    pub open spec fn probe(o: int, slr: Option<u8>) -> Probe {
        if o == 0 {
            Probe::Jtag { inst: commands::IDCODE, len: 4, slr }
        } else if o == 1 {
            Probe::Jtag { inst: commands::USERCODE, len: 4, slr }
        } else if o == 2 {
            Probe::Jtag { inst: commands::FUSE_DNA, len: 12, slr }
        } else if o == 3 {
            Probe::Jtag { inst: commands::FUSE_KEY, len: 32, slr }
        } else if o == 4 {
            Probe::Jtag { inst: commands::FUSE_USER, len: 4, slr }
        } else if o == 5 {
            Probe::Jtag { inst: commands::FUSE_USER_128, len: 16, slr }
        } else if o == 6 {
            Probe::Jtag { inst: commands::FUSE_RSA, len: 48, slr }
        } else if o == 7 {
            Probe::Jtag { inst: commands::FUSE_SEC, len: 2, slr }
        } else if o == 8 {
            Probe::Jtag { inst: commands::USER1, len: 4, slr }
        } else if o == 9 {
            Probe::Jtag { inst: commands::USER2, len: 4, slr }
        } else if o == 10 {
            Probe::Jtag { inst: commands::USER3, len: 4, slr }
        } else {
            Probe::Jtag { inst: commands::USER4, len: 4, slr }
        }
    }

    /// The number of bytes of the reply that holds register `o`.
    pub open spec fn spec_len_at(o: int) -> usize {
        if o == 0 {
            4
        } else if o == 1 {
            4
        } else if o == 2 {
            12
        } else if o == 3 {
            32
        } else if o == 4 {
            4
        } else if o == 5 {
            16
        } else if o == 6 {
            48
        } else if o == 7 {
            2
        } else if o == 8 {
            4
        } else if o == 9 {
            4
        } else if o == 10 {
            4
        } else {
            4
        }
    }

    /// The number of bytes of the reply that holds register `o`.
    pub fn len_at(o: usize) -> (r: usize)
        ensures
            r == Self::spec_len_at(o as int),
            o < 12 ==> r == Self::probe(o as int, None).spec_reply_len(),
    {
        if o == 0 {
            4
        } else if o == 1 {
            4
        } else if o == 2 {
            12
        } else if o == 3 {
            32
        } else if o == 4 {
            4
        } else if o == 5 {
            16
        } else if o == 6 {
            48
        } else if o == 7 {
            2
        } else if o == 8 {
            4
        } else if o == 9 {
            4
        } else if o == 10 {
            4
        } else {
            4
        }
    }

    /// The probes that read the registers of one super logic region, in
    /// the order of the fields.
    pub open spec fn plan_spec(slr: Option<u8>) -> Seq<Probe> {
        Seq::new(12, |o: int| Self::probe(o, slr))
    }

    /// Whether the fields hold what the replies from `at` on carry, one
    /// reply to a field.
    pub open spec fn holds(self, replies: Seq<Vec<u8>>, at: int) -> bool {
        &&& self.idcode@ == replies[at + 0]@
        &&& self.usercode@ == replies[at + 1]@
        &&& self.fuse_dna@ == replies[at + 2]@
        &&& self.fuse_key@ == replies[at + 3]@
        &&& self.fuse_user@ == replies[at + 4]@
        &&& self.fuse_user_128@ == replies[at + 5]@
        &&& self.fuse_rsa@ == replies[at + 6]@
        &&& self.fuse_sec@ == replies[at + 7]@
        &&& self.user1@ == replies[at + 8]@
        &&& self.user2@ == replies[at + 9]@
        &&& self.user3@ == replies[at + 10]@
        &&& self.user4@ == replies[at + 11]@
    }

    /// Append the probes that read the registers of one super logic region.
    pub fn plan(probes: &mut Vec<Probe>, slr: Option<u8>)
        ensures
            final(probes)@ == old(probes)@ + Self::plan_spec(slr),
    {
        probes.push(Probe::Jtag { inst: commands::IDCODE, len: 4, slr });
        probes.push(Probe::Jtag { inst: commands::USERCODE, len: 4, slr });
        probes.push(Probe::Jtag { inst: commands::FUSE_DNA, len: 12, slr });
        probes.push(Probe::Jtag { inst: commands::FUSE_KEY, len: 32, slr });
        probes.push(Probe::Jtag { inst: commands::FUSE_USER, len: 4, slr });
        probes.push(Probe::Jtag { inst: commands::FUSE_USER_128, len: 16, slr });
        probes.push(Probe::Jtag { inst: commands::FUSE_RSA, len: 48, slr });
        probes.push(Probe::Jtag { inst: commands::FUSE_SEC, len: 2, slr });
        probes.push(Probe::Jtag { inst: commands::USER1, len: 4, slr });
        probes.push(Probe::Jtag { inst: commands::USER2, len: 4, slr });
        probes.push(Probe::Jtag { inst: commands::USER3, len: 4, slr });
        probes.push(Probe::Jtag { inst: commands::USER4, len: 4, slr });
        proof {
            assert(probes@ =~= old(probes)@ + Self::plan_spec(slr));
        }
    }

    /// The registers of one super logic region from the replies from `at`
    /// on, each of which has the length of its register.
    pub fn take(replies: &[Vec<u8>], at: usize) -> (r: Self)
        requires
            at + 12 <= replies@.len(),
            forall|o: int|
                0 <= o < 12 ==> (#[trigger] replies@[at + o])@.len() == Self::spec_len_at(o),
        ensures
            r.holds(replies@, at as int),
    {
        proof {
            assert(replies@[at + 0]@.len() == Self::spec_len_at(0));
            assert(replies@[at + 1]@.len() == Self::spec_len_at(1));
            assert(replies@[at + 2]@.len() == Self::spec_len_at(2));
            assert(replies@[at + 3]@.len() == Self::spec_len_at(3));
            assert(replies@[at + 4]@.len() == Self::spec_len_at(4));
            assert(replies@[at + 5]@.len() == Self::spec_len_at(5));
            assert(replies@[at + 6]@.len() == Self::spec_len_at(6));
            assert(replies@[at + 7]@.len() == Self::spec_len_at(7));
            assert(replies@[at + 8]@.len() == Self::spec_len_at(8));
            assert(replies@[at + 9]@.len() == Self::spec_len_at(9));
            assert(replies@[at + 10]@.len() == Self::spec_len_at(10));
            assert(replies@[at + 11]@.len() == Self::spec_len_at(11));
        }
        USJtagPerSlr {
            idcode: to_array(replies[at + 0].as_slice()),
            usercode: to_array(replies[at + 1].as_slice()),
            fuse_dna: to_array(replies[at + 2].as_slice()),
            fuse_key: to_array(replies[at + 3].as_slice()),
            fuse_user: to_array(replies[at + 4].as_slice()),
            fuse_user_128: to_array(replies[at + 5].as_slice()),
            fuse_rsa: to_array(replies[at + 6].as_slice()),
            fuse_sec: to_array(replies[at + 7].as_slice()),
            user1: to_array(replies[at + 8].as_slice()),
            user2: to_array(replies[at + 9].as_slice()),
            user3: to_array(replies[at + 10].as_slice()),
            user4: to_array(replies[at + 11].as_slice()),
        }
    }

    /// The registers of one super logic region from the replies to the
    /// probes of the plan. There are some exactly where there is one reply
    /// to every probe, each as long as its probe says.
    pub fn assemble(replies: &[Vec<u8>]) -> (r: Option<Self>)
        ensures
            r is Some <==> shaped(replies@, Self::plan_spec(None)),
            r matches Some(v) ==> v.holds(replies@, 0),
    {
        if replies.len() != 12 {
            return None;
        }
        let mut i: usize = 0;
        while i < 12
            invariant
                i <= 12,
                replies@.len() == 12,
                forall|j: int| 0 <= j < i ==> (#[trigger] replies@[j])@.len() == Self::spec_len_at(j),
            decreases 12 - i,
        {
            if replies[i].len() != Self::len_at(i) {
                return None;
            }
            i = i + 1;
        }
        proof {
            assert forall|j: int| 0 <= j < 12 implies (#[trigger] replies@[j])@.len()
                == Self::plan_spec(None)[j].spec_reply_len() by {
                assert(Self::probe(j, None).spec_reply_len() == Self::spec_len_at(j));
            }
        }
        Some(Self::take(replies, 0))
    }
}

/// The configuration registers of one super logic region.
#[derive(Clone, Copy, Debug)]
pub struct RegistersPerSlr {
    pub ctl0: u32,
    pub stat: u32,
    pub cor0: u32,
    pub idcode: u32,
    pub axss: u32,
    pub cor1: u32,
    pub wbstar: u32,
    pub timer: u32,
    pub bootsts: u32,
    pub ctl1: u32,
    pub bspi: u32,
}

impl RegistersPerSlr {
    /// The number of registers of one super logic region.
    pub const COUNT: usize = 11;

    /// The probe that reads register `o` of the region `slr`, in the order
    /// of the fields.
    pub open spec fn probe(o: int, slr: Option<u8>) -> Probe {
        if o == 0 {
            Probe::Register { addr: Addr::Ctl0, slr }
        } else if o == 1 {
            Probe::Register { addr: Addr::Stat, slr }
        } else if o == 2 {
            Probe::Register { addr: Addr::Cor0, slr }
        } else if o == 3 {
            Probe::Register { addr: Addr::Idcode, slr }
        } else if o == 4 {
            Probe::Register { addr: Addr::Axss, slr }
        } else if o == 5 {
            Probe::Register { addr: Addr::Cor1, slr }
        } else if o == 6 {
            Probe::Register { addr: Addr::Wbstar, slr }
        } else if o == 7 {
            Probe::Register { addr: Addr::Timer, slr }
        } else if o == 8 {
            Probe::Register { addr: Addr::Bootsts, slr }
        } else if o == 9 {
            Probe::Register { addr: Addr::Ctl1, slr }
        } else {
            Probe::Register { addr: Addr::Bspi, slr }
        }
    }

    /// The number of bytes of the reply that holds register `o`.
    pub open spec fn spec_len_at(o: int) -> usize {
        if o == 0 {
            4
        } else if o == 1 {
            4
        } else if o == 2 {
            4
        } else if o == 3 {
            4
        } else if o == 4 {
            4
        } else if o == 5 {
            4
        } else if o == 6 {
            4
        } else if o == 7 {
            4
        } else if o == 8 {
            4
        } else if o == 9 {
            4
        } else {
            4
        }
    }

    /// The number of bytes of the reply that holds register `o`.
    pub fn len_at(o: usize) -> (r: usize)
        ensures
            r == Self::spec_len_at(o as int),
            o < 11 ==> r == Self::probe(o as int, None).spec_reply_len(),
    {
        if o == 0 {
            4
        } else if o == 1 {
            4
        } else if o == 2 {
            4
        } else if o == 3 {
            4
        } else if o == 4 {
            4
        } else if o == 5 {
            4
        } else if o == 6 {
            4
        } else if o == 7 {
            4
        } else if o == 8 {
            4
        } else if o == 9 {
            4
        } else {
            4
        }
    }

    /// The probes that read the registers of one super logic region, in
    /// the order of the fields.
    pub open spec fn plan_spec(slr: Option<u8>) -> Seq<Probe> {
        Seq::new(11, |o: int| Self::probe(o, slr))
    }

    /// Whether the fields hold what the replies from `at` on carry, one
    /// reply to a field.
    pub open spec fn holds(self, replies: Seq<Vec<u8>>, at: int) -> bool {
        &&& self.ctl0 == wire_word(replies[at + 0]@)
        &&& self.stat == wire_word(replies[at + 1]@)
        &&& self.cor0 == wire_word(replies[at + 2]@)
        &&& self.idcode == wire_word(replies[at + 3]@)
        &&& self.axss == wire_word(replies[at + 4]@)
        &&& self.cor1 == wire_word(replies[at + 5]@)
        &&& self.wbstar == wire_word(replies[at + 6]@)
        &&& self.timer == wire_word(replies[at + 7]@)
        &&& self.bootsts == wire_word(replies[at + 8]@)
        &&& self.ctl1 == wire_word(replies[at + 9]@)
        &&& self.bspi == wire_word(replies[at + 10]@)
    }

    /// Append the probes that read the registers of one super logic region.
    pub fn plan(probes: &mut Vec<Probe>, slr: Option<u8>)
        ensures
            final(probes)@ == old(probes)@ + Self::plan_spec(slr),
    {
        probes.push(Probe::Register { addr: Addr::Ctl0, slr });
        probes.push(Probe::Register { addr: Addr::Stat, slr });
        probes.push(Probe::Register { addr: Addr::Cor0, slr });
        probes.push(Probe::Register { addr: Addr::Idcode, slr });
        probes.push(Probe::Register { addr: Addr::Axss, slr });
        probes.push(Probe::Register { addr: Addr::Cor1, slr });
        probes.push(Probe::Register { addr: Addr::Wbstar, slr });
        probes.push(Probe::Register { addr: Addr::Timer, slr });
        probes.push(Probe::Register { addr: Addr::Bootsts, slr });
        probes.push(Probe::Register { addr: Addr::Ctl1, slr });
        probes.push(Probe::Register { addr: Addr::Bspi, slr });
        proof {
            assert(probes@ =~= old(probes)@ + Self::plan_spec(slr));
        }
    }

    /// The registers of one super logic region from the replies from `at`
    /// on, each of which has the length of its register.
    pub fn take(replies: &[Vec<u8>], at: usize) -> (r: Self)
        requires
            at + 11 <= replies@.len(),
            forall|o: int|
                0 <= o < 11 ==> (#[trigger] replies@[at + o])@.len() == Self::spec_len_at(o),
        ensures
            r.holds(replies@, at as int),
    {
        proof {
            assert(replies@[at + 0]@.len() == Self::spec_len_at(0));
            assert(replies@[at + 1]@.len() == Self::spec_len_at(1));
            assert(replies@[at + 2]@.len() == Self::spec_len_at(2));
            assert(replies@[at + 3]@.len() == Self::spec_len_at(3));
            assert(replies@[at + 4]@.len() == Self::spec_len_at(4));
            assert(replies@[at + 5]@.len() == Self::spec_len_at(5));
            assert(replies@[at + 6]@.len() == Self::spec_len_at(6));
            assert(replies@[at + 7]@.len() == Self::spec_len_at(7));
            assert(replies@[at + 8]@.len() == Self::spec_len_at(8));
            assert(replies@[at + 9]@.len() == Self::spec_len_at(9));
            assert(replies@[at + 10]@.len() == Self::spec_len_at(10));
        }
        RegistersPerSlr {
            ctl0: register_word(replies[at + 0].as_slice()),
            stat: register_word(replies[at + 1].as_slice()),
            cor0: register_word(replies[at + 2].as_slice()),
            idcode: register_word(replies[at + 3].as_slice()),
            axss: register_word(replies[at + 4].as_slice()),
            cor1: register_word(replies[at + 5].as_slice()),
            wbstar: register_word(replies[at + 6].as_slice()),
            timer: register_word(replies[at + 7].as_slice()),
            bootsts: register_word(replies[at + 8].as_slice()),
            ctl1: register_word(replies[at + 9].as_slice()),
            bspi: register_word(replies[at + 10].as_slice()),
        }
    }

    /// The registers of one super logic region from the replies to the
    /// probes of the plan. There are some exactly where there is one reply
    /// to every probe, each as long as its probe says.
    pub fn assemble(replies: &[Vec<u8>]) -> (r: Option<Self>)
        ensures
            r is Some <==> shaped(replies@, Self::plan_spec(None)),
            r matches Some(v) ==> v.holds(replies@, 0),
    {
        if replies.len() != 11 {
            return None;
        }
        let mut i: usize = 0;
        while i < 11
            invariant
                i <= 11,
                replies@.len() == 11,
                forall|j: int| 0 <= j < i ==> (#[trigger] replies@[j])@.len() == Self::spec_len_at(j),
            decreases 11 - i,
        {
            if replies[i].len() != Self::len_at(i) {
                return None;
            }
            i = i + 1;
        }
        proof {
            assert forall|j: int| 0 <= j < 11 implies (#[trigger] replies@[j])@.len()
                == Self::plan_spec(None)[j].spec_reply_len() by {
                assert(Self::probe(j, None).spec_reply_len() == Self::spec_len_at(j));
            }
        }
        Some(Self::take(replies, 0))
    }
}

/// The configuration registers of a device, region by region.
#[derive(Clone, Debug)]
pub struct Registers {
    pub slrs: Vec<RegistersPerSlr>,
}

/// A snapshot that is planned as probes and read from the replies to them.
pub trait Read: Sized {
    /// The probes of a snapshot of a device with `num_slr` super logic
    /// regions, in the order in which their replies are read.
    spec fn plan_spec(num_slr: u8) -> Seq<Probe>;

    /// Whether the snapshot holds the replies to the probes of its plan.
    spec fn holds(&self, num_slr: u8, replies: Seq<Vec<u8>>) -> bool;

    /// The probes of a snapshot of a device with `num_slr` super logic
    /// regions.
    fn plan(num_slr: u8) -> (r: Vec<Probe>)
        ensures
            r@ == Self::plan_spec(num_slr),
    ;

    /// The snapshot that the replies to the probes of the plan make up.
    /// There is one exactly where there is one reply to every probe, each as
    /// long as its probe says.
    fn read(num_slr: u8, replies: &[Vec<u8>]) -> (r: Option<Self>)
        ensures
            r is Some <==> shaped(replies@, Self::plan_spec(num_slr)),
            r matches Some(v) ==> v.holds(num_slr, replies@),
    ;
}

/// The probes of a snapshot of kind `R`.
pub fn plan<R: Read>(num_slr: u8) -> (r: Vec<Probe>)
    ensures
        r@ == R::plan_spec(num_slr),
{
    R::plan(num_slr)
}

/// The snapshot of kind `R` that the replies to the probes of its plan make
/// up.
pub fn read<R: Read>(num_slr: u8, replies: &[Vec<u8>]) -> (r: Option<R>)
    ensures
        r is Some <==> shaped(replies@, R::plan_spec(num_slr)),
        r matches Some(v) ==> v.holds(num_slr, replies@),
{
    R::read(num_slr, replies)
}

/// The number of super logic regions of a Xilinx device.
pub fn get_num_slr(info: &crate::devices::DeviceInfo) -> (r: Option<u8>)
    ensures
        r == match info.specific {
            crate::devices::Specific::Xilinx32(x) => Some(x.slr),
            crate::devices::Specific::Unknown => None,
        },
{
    match info.specific {
        crate::devices::Specific::Xilinx32(x) => Some(x.slr),
        crate::devices::Specific::Unknown => None,
    }
}

/// The device-wide identification register of a 7-series device.
#[derive(Clone, Copy, Debug)]
pub struct S7JtagPerDevice {
    pub cntl: [u8; 2],
}

/// The identification registers of a 7-series device.
#[derive(Clone, Debug)]
pub struct S7Jtag {
    pub device: S7JtagPerDevice,
    pub slrs: Vec<S7JtagPerSlr>,
}

/// A snapshot of a 7-series device.
#[derive(Clone, Debug)]
pub struct S7 {
    pub jtag: S7Jtag,
    pub registers: Registers,
}

impl S7 {
    /// Probe `i` of a snapshot of a device with `n` super logic regions: the
    /// device-wide register, then the identification registers region by
    /// region, then the configuration registers region by region.
    pub open spec fn probe_at(n: int, i: int) -> Probe {
        if i == 0 {
            Probe::Jtag { inst: commands::FUSE_CNTL, len: 2, slr: Some(0) }
        } else if i < 1 + 9 * n {
            S7JtagPerSlr::probe((i - 1) % 9, Some(((i - 1) / 9) as u8))
        } else {
            RegistersPerSlr::probe((i - 1 - 9 * n) % 11, Some(((i - 1 - 9 * n) / 11) as u8))
        }
    }

    /// The number of bytes of reply `i`.
    fn expected_len(n: usize, i: usize) -> (r: usize)
        requires
            n <= 255,
            i < 1 + 9 * n + 11 * n,
        ensures
            r == Self::probe_at(n as int, i as int).spec_reply_len(),
    {
        if i == 0 {
            2
        } else if i < 1 + 9 * n {
            let o = (i - 1) % 9;
            S7JtagPerSlr::len_at(o)
        } else {
            4
        }
    }
}

impl Read for S7 {
    open spec fn plan_spec(num_slr: u8) -> Seq<Probe> {
        let n = (num_slr as int);
        Seq::new((1 + 9 * n + 11 * n) as nat, |i: int| Self::probe_at(n, i))
    }

    open spec fn holds(&self, num_slr: u8, replies: Seq<Vec<u8>>) -> bool {
        let n = (num_slr as int);
        &&& self.jtag.device.cntl@ == replies[0]@
        &&& self.jtag.slrs@.len() == n
        &&& self.registers.slrs@.len() == n
        &&& forall|k: int|
            0 <= k < n ==> (#[trigger] self.jtag.slrs@[k]).holds(replies, 1 + 9 * k)
        &&& forall|k: int|
            0 <= k < n ==> (#[trigger] self.registers.slrs@[k]).holds(
                replies,
                1 + 9 * n + 11 * k,
            )
    }

    fn plan(num_slr: u8) -> (r: Vec<Probe>) {
        let n = num_slr as usize;
        let ghost plan = Self::plan_spec(num_slr);
        let mut probes: Vec<Probe> = Vec::new();
        probes.push(Probe::Jtag { inst: commands::FUSE_CNTL, len: 2, slr: Some(0) });
        proof {
            assert(probes@ =~= plan.take(1));
        }
        let mut k: usize = 0;
        while k < n
            invariant
                k <= n <= 255,
                n == (num_slr as int),
                plan == Self::plan_spec(num_slr),
                probes@ == plan.take(1 + 9 * k),
            decreases n - k,
        {
            S7JtagPerSlr::plan(&mut probes, Some(k as u8));
            proof {
                let block = S7JtagPerSlr::plan_spec(Some(k as u8));
                assert forall|o: int| 0 <= o < 9 implies plan[1 + 9 * k + o]
                    == block[o] by {
                    assert((9 * k + o) / 9 == k);
                    assert((9 * k + o) % 9 == o);
                }
                assert(probes@ =~= plan.take(1 + 9 * (k + 1)));
            }
            k = k + 1;
        }
        let mut k: usize = 0;
        while k < n
            invariant
                k <= n <= 255,
                n == (num_slr as int),
                plan == Self::plan_spec(num_slr),
                probes@ == plan.take(1 + 9 * n + 11 * k),
            decreases n - k,
        {
            RegistersPerSlr::plan(&mut probes, Some(k as u8));
            proof {
                let block = RegistersPerSlr::plan_spec(Some(k as u8));
                assert forall|o: int| 0 <= o < 11 implies plan[1 + 9 * n + 11 * k + o]
                    == block[o] by {
                    assert((11 * k + o) / 11 == k);
                    assert((11 * k + o) % 11 == o);
                }
                assert(probes@ =~= plan.take(1 + 9 * n + 11 * (k + 1)));
            }
            k = k + 1;
        }
        proof {
            assert(plan.take(plan.len() as int) =~= plan);
        }
        probes
    }

    fn read(num_slr: u8, replies: &[Vec<u8>]) -> (r: Option<Self>) {
        let n = num_slr as usize;
        let total = 1 + 9 * n + 11 * n;
        if replies.len() != total {
            return None;
        }
        let mut i: usize = 0;
        while i < total
            invariant
                i <= total,
                n <= 255,
                n == (num_slr as int),
                total == 1 + 9 * n + 11 * n,
                replies@.len() == total,
                forall|j: int|
                    0 <= j < i ==> (#[trigger] replies@[j])@.len() == Self::probe_at(
                        n as int,
                        j,
                    ).spec_reply_len(),
            decreases total - i,
        {
            if replies[i].len() != Self::expected_len(n, i) {
                return None;
            }
            i = i + 1;
        }
        let cntl = to_array(replies[0].as_slice());
        let mut jtag: Vec<S7JtagPerSlr> = Vec::new();
        let mut k: usize = 0;
        while k < n
            invariant
                k <= n <= 255,
                replies@.len() == 1 + 9 * n + 11 * n,
                forall|j: int|
                    0 <= j < replies@.len() ==> (#[trigger] replies@[j])@.len() == Self::probe_at(
                        n as int,
                        j,
                    ).spec_reply_len(),
                jtag@.len() == k,
                forall|j: int|
                    0 <= j < k ==> (#[trigger] jtag@[j]).holds(replies@, 1 + 9 * j),
            decreases n - k,
        {
            let at = 1 + 9 * k;
            proof {
                assert forall|o: int| 0 <= o < 9 implies (#[trigger] replies@[at + o])@.len()
                    == S7JtagPerSlr::spec_len_at(o) by {
                    assert((9 * k + o) % 9 == o);
                }
            }
            jtag.push(S7JtagPerSlr::take(replies, at));
            k = k + 1;
        }
        let mut registers: Vec<RegistersPerSlr> = Vec::new();
        let base = 1 + 9 * n;
        let mut k: usize = 0;
        while k < n
            invariant
                k <= n <= 255,
                base == 1 + 9 * n,
                replies@.len() == 1 + 9 * n + 11 * n,
                forall|j: int|
                    0 <= j < replies@.len() ==> (#[trigger] replies@[j])@.len() == Self::probe_at(
                        n as int,
                        j,
                    ).spec_reply_len(),
                registers@.len() == k,
                forall|j: int|
                    0 <= j < k ==> (#[trigger] registers@[j]).holds(replies@, base + 11 * j),
            decreases n - k,
        {
            let at = base + 11 * k;
            proof {
                assert forall|o: int| 0 <= o < 11 implies (#[trigger] replies@[at + o])@.len()
                    == RegistersPerSlr::spec_len_at(o) by {
                    assert((11 * k + o) % 11 == o);
                }
            }
            registers.push(RegistersPerSlr::take(replies, at));
            k = k + 1;
        }
        Some(
            S7 {
                jtag: S7Jtag { device: S7JtagPerDevice { cntl }, slrs: jtag },
                registers: Registers { slrs: registers },
            },
        )
    }
}

/// The device-wide identification register of an UltraScale device.
#[derive(Clone, Copy, Debug)]
pub struct USJtagPerDevice {
    pub cntl: [u8; 3],
}

/// The identification registers of an UltraScale device.
#[derive(Clone, Debug)]
pub struct USJtag {
    pub device: USJtagPerDevice,
    pub slrs: Vec<USJtagPerSlr>,
}

/// A snapshot of an UltraScale device.
#[derive(Clone, Debug)]
pub struct US {
    pub jtag: USJtag,
    pub registers: Registers,
}

impl US {
    /// Probe `i` of a snapshot of a device with `n` super logic regions: the
    /// device-wide register, then the identification registers region by
    /// region, then the configuration registers region by region.
    pub open spec fn probe_at(n: int, i: int) -> Probe {
        if i == 0 {
            Probe::Jtag { inst: commands::FUSE_CNTL, len: 3, slr: Some(0) }
        } else if i < 1 + 12 * n {
            USJtagPerSlr::probe((i - 1) % 12, Some(((i - 1) / 12) as u8))
        } else {
            RegistersPerSlr::probe((i - 1 - 12 * n) % 11, Some(((i - 1 - 12 * n) / 11) as u8))
        }
    }

    /// The number of bytes of reply `i`.
    fn expected_len(n: usize, i: usize) -> (r: usize)
        requires
            n <= 255,
            i < 1 + 12 * n + 11 * n,
        ensures
            r == Self::probe_at(n as int, i as int).spec_reply_len(),
    {
        if i == 0 {
            3
        } else if i < 1 + 12 * n {
            let o = (i - 1) % 12;
            USJtagPerSlr::len_at(o)
        } else {
            4
        }
    }
}

impl Read for US {
    open spec fn plan_spec(num_slr: u8) -> Seq<Probe> {
        let n = (num_slr as int);
        Seq::new((1 + 12 * n + 11 * n) as nat, |i: int| Self::probe_at(n, i))
    }

    open spec fn holds(&self, num_slr: u8, replies: Seq<Vec<u8>>) -> bool {
        let n = (num_slr as int);
        &&& self.jtag.device.cntl@ == replies[0]@
        &&& self.jtag.slrs@.len() == n
        &&& self.registers.slrs@.len() == n
        &&& forall|k: int|
            0 <= k < n ==> (#[trigger] self.jtag.slrs@[k]).holds(replies, 1 + 12 * k)
        &&& forall|k: int|
            0 <= k < n ==> (#[trigger] self.registers.slrs@[k]).holds(
                replies,
                1 + 12 * n + 11 * k,
            )
    }

    fn plan(num_slr: u8) -> (r: Vec<Probe>) {
        let n = num_slr as usize;
        let ghost plan = Self::plan_spec(num_slr);
        let mut probes: Vec<Probe> = Vec::new();
        probes.push(Probe::Jtag { inst: commands::FUSE_CNTL, len: 3, slr: Some(0) });
        proof {
            assert(probes@ =~= plan.take(1));
        }
        let mut k: usize = 0;
        while k < n
            invariant
                k <= n <= 255,
                n == (num_slr as int),
                plan == Self::plan_spec(num_slr),
                probes@ == plan.take(1 + 12 * k),
            decreases n - k,
        {
            USJtagPerSlr::plan(&mut probes, Some(k as u8));
            proof {
                let block = USJtagPerSlr::plan_spec(Some(k as u8));
                assert forall|o: int| 0 <= o < 12 implies plan[1 + 12 * k + o]
                    == block[o] by {
                    assert((12 * k + o) / 12 == k);
                    assert((12 * k + o) % 12 == o);
                }
                assert(probes@ =~= plan.take(1 + 12 * (k + 1)));
            }
            k = k + 1;
        }
        let mut k: usize = 0;
        while k < n
            invariant
                k <= n <= 255,
                n == (num_slr as int),
                plan == Self::plan_spec(num_slr),
                probes@ == plan.take(1 + 12 * n + 11 * k),
            decreases n - k,
        {
            RegistersPerSlr::plan(&mut probes, Some(k as u8));
            proof {
                let block = RegistersPerSlr::plan_spec(Some(k as u8));
                assert forall|o: int| 0 <= o < 11 implies plan[1 + 12 * n + 11 * k + o]
                    == block[o] by {
                    assert((11 * k + o) / 11 == k);
                    assert((11 * k + o) % 11 == o);
                }
                assert(probes@ =~= plan.take(1 + 12 * n + 11 * (k + 1)));
            }
            k = k + 1;
        }
        proof {
            assert(plan.take(plan.len() as int) =~= plan);
        }
        probes
    }

    fn read(num_slr: u8, replies: &[Vec<u8>]) -> (r: Option<Self>) {
        let n = num_slr as usize;
        let total = 1 + 12 * n + 11 * n;
        if replies.len() != total {
            return None;
        }
        let mut i: usize = 0;
        while i < total
            invariant
                i <= total,
                n <= 255,
                n == (num_slr as int),
                total == 1 + 12 * n + 11 * n,
                replies@.len() == total,
                forall|j: int|
                    0 <= j < i ==> (#[trigger] replies@[j])@.len() == Self::probe_at(
                        n as int,
                        j,
                    ).spec_reply_len(),
            decreases total - i,
        {
            if replies[i].len() != Self::expected_len(n, i) {
                return None;
            }
            i = i + 1;
        }
        let cntl = to_array(replies[0].as_slice());
        let mut jtag: Vec<USJtagPerSlr> = Vec::new();
        let mut k: usize = 0;
        while k < n
            invariant
                k <= n <= 255,
                replies@.len() == 1 + 12 * n + 11 * n,
                forall|j: int|
                    0 <= j < replies@.len() ==> (#[trigger] replies@[j])@.len() == Self::probe_at(
                        n as int,
                        j,
                    ).spec_reply_len(),
                jtag@.len() == k,
                forall|j: int|
                    0 <= j < k ==> (#[trigger] jtag@[j]).holds(replies@, 1 + 12 * j),
            decreases n - k,
        {
            let at = 1 + 12 * k;
            proof {
                assert forall|o: int| 0 <= o < 12 implies (#[trigger] replies@[at + o])@.len()
                    == USJtagPerSlr::spec_len_at(o) by {
                    assert((12 * k + o) % 12 == o);
                }
            }
            jtag.push(USJtagPerSlr::take(replies, at));
            k = k + 1;
        }
        let mut registers: Vec<RegistersPerSlr> = Vec::new();
        let base = 1 + 12 * n;
        let mut k: usize = 0;
        while k < n
            invariant
                k <= n <= 255,
                base == 1 + 12 * n,
                replies@.len() == 1 + 12 * n + 11 * n,
                forall|j: int|
                    0 <= j < replies@.len() ==> (#[trigger] replies@[j])@.len() == Self::probe_at(
                        n as int,
                        j,
                    ).spec_reply_len(),
                registers@.len() == k,
                forall|j: int|
                    0 <= j < k ==> (#[trigger] registers@[j]).holds(replies@, base + 11 * j),
            decreases n - k,
        {
            let at = base + 11 * k;
            proof {
                assert forall|o: int| 0 <= o < 11 implies (#[trigger] replies@[at + o])@.len()
                    == RegistersPerSlr::spec_len_at(o) by {
                    assert((11 * k + o) % 11 == o);
                }
            }
            registers.push(RegistersPerSlr::take(replies, at));
            k = k + 1;
        }
        Some(
            US {
                jtag: USJtag { device: USJtagPerDevice { cntl }, slrs: jtag },
                registers: Registers { slrs: registers },
            },
        )
    }
}

/// The device-wide identification register of an UltraScale+ device.
#[derive(Clone, Copy, Debug)]
pub struct UPJtagPerDevice {
    pub cntl: [u8; 4],
}

/// The identification registers of an UltraScale+ device.
#[derive(Clone, Debug)]
pub struct UPJtag {
    pub device: UPJtagPerDevice,
    pub slrs: Vec<USJtagPerSlr>,
}

/// A snapshot of an UltraScale+ device.
#[derive(Clone, Debug)]
pub struct UP {
    pub jtag: UPJtag,
    pub registers: Registers,
}

impl UP {
    /// Probe `i` of a snapshot of a device with `n` super logic regions: the
    /// device-wide register, then the identification registers region by
    /// region, then the configuration registers region by region.
    pub open spec fn probe_at(n: int, i: int) -> Probe {
        if i == 0 {
            Probe::Jtag { inst: commands::FUSE_CNTL, len: 4, slr: Some(0) }
        } else if i < 1 + 12 * n {
            USJtagPerSlr::probe((i - 1) % 12, Some(((i - 1) / 12) as u8))
        } else {
            RegistersPerSlr::probe((i - 1 - 12 * n) % 11, Some(((i - 1 - 12 * n) / 11) as u8))
        }
    }

    /// The number of bytes of reply `i`.
    fn expected_len(n: usize, i: usize) -> (r: usize)
        requires
            n <= 255,
            i < 1 + 12 * n + 11 * n,
        ensures
            r == Self::probe_at(n as int, i as int).spec_reply_len(),
    {
        if i == 0 {
            4
        } else if i < 1 + 12 * n {
            let o = (i - 1) % 12;
            USJtagPerSlr::len_at(o)
        } else {
            4
        }
    }
}

impl Read for UP {
    open spec fn plan_spec(num_slr: u8) -> Seq<Probe> {
        let n = (num_slr as int);
        Seq::new((1 + 12 * n + 11 * n) as nat, |i: int| Self::probe_at(n, i))
    }

    open spec fn holds(&self, num_slr: u8, replies: Seq<Vec<u8>>) -> bool {
        let n = (num_slr as int);
        &&& self.jtag.device.cntl@ == replies[0]@
        &&& self.jtag.slrs@.len() == n
        &&& self.registers.slrs@.len() == n
        &&& forall|k: int|
            0 <= k < n ==> (#[trigger] self.jtag.slrs@[k]).holds(replies, 1 + 12 * k)
        &&& forall|k: int|
            0 <= k < n ==> (#[trigger] self.registers.slrs@[k]).holds(
                replies,
                1 + 12 * n + 11 * k,
            )
    }

    fn plan(num_slr: u8) -> (r: Vec<Probe>) {
        let n = num_slr as usize;
        let ghost plan = Self::plan_spec(num_slr);
        let mut probes: Vec<Probe> = Vec::new();
        probes.push(Probe::Jtag { inst: commands::FUSE_CNTL, len: 4, slr: Some(0) });
        proof {
            assert(probes@ =~= plan.take(1));
        }
        let mut k: usize = 0;
        while k < n
            invariant
                k <= n <= 255,
                n == (num_slr as int),
                plan == Self::plan_spec(num_slr),
                probes@ == plan.take(1 + 12 * k),
            decreases n - k,
        {
            USJtagPerSlr::plan(&mut probes, Some(k as u8));
            proof {
                let block = USJtagPerSlr::plan_spec(Some(k as u8));
                assert forall|o: int| 0 <= o < 12 implies plan[1 + 12 * k + o]
                    == block[o] by {
                    assert((12 * k + o) / 12 == k);
                    assert((12 * k + o) % 12 == o);
                }
                assert(probes@ =~= plan.take(1 + 12 * (k + 1)));
            }
            k = k + 1;
        }
        let mut k: usize = 0;
        while k < n
            invariant
                k <= n <= 255,
                n == (num_slr as int),
                plan == Self::plan_spec(num_slr),
                probes@ == plan.take(1 + 12 * n + 11 * k),
            decreases n - k,
        {
            RegistersPerSlr::plan(&mut probes, Some(k as u8));
            proof {
                let block = RegistersPerSlr::plan_spec(Some(k as u8));
                assert forall|o: int| 0 <= o < 11 implies plan[1 + 12 * n + 11 * k + o]
                    == block[o] by {
                    assert((11 * k + o) / 11 == k);
                    assert((11 * k + o) % 11 == o);
                }
                assert(probes@ =~= plan.take(1 + 12 * n + 11 * (k + 1)));
            }
            k = k + 1;
        }
        proof {
            assert(plan.take(plan.len() as int) =~= plan);
        }
        probes
    }

    fn read(num_slr: u8, replies: &[Vec<u8>]) -> (r: Option<Self>) {
        let n = num_slr as usize;
        let total = 1 + 12 * n + 11 * n;
        if replies.len() != total {
            return None;
        }
        let mut i: usize = 0;
        while i < total
            invariant
                i <= total,
                n <= 255,
                n == (num_slr as int),
                total == 1 + 12 * n + 11 * n,
                replies@.len() == total,
                forall|j: int|
                    0 <= j < i ==> (#[trigger] replies@[j])@.len() == Self::probe_at(
                        n as int,
                        j,
                    ).spec_reply_len(),
            decreases total - i,
        {
            if replies[i].len() != Self::expected_len(n, i) {
                return None;
            }
            i = i + 1;
        }
        let cntl = to_array(replies[0].as_slice());
        let mut jtag: Vec<USJtagPerSlr> = Vec::new();
        let mut k: usize = 0;
        while k < n
            invariant
                k <= n <= 255,
                replies@.len() == 1 + 12 * n + 11 * n,
                forall|j: int|
                    0 <= j < replies@.len() ==> (#[trigger] replies@[j])@.len() == Self::probe_at(
                        n as int,
                        j,
                    ).spec_reply_len(),
                jtag@.len() == k,
                forall|j: int|
                    0 <= j < k ==> (#[trigger] jtag@[j]).holds(replies@, 1 + 12 * j),
            decreases n - k,
        {
            let at = 1 + 12 * k;
            proof {
                assert forall|o: int| 0 <= o < 12 implies (#[trigger] replies@[at + o])@.len()
                    == USJtagPerSlr::spec_len_at(o) by {
                    assert((12 * k + o) % 12 == o);
                }
            }
            jtag.push(USJtagPerSlr::take(replies, at));
            k = k + 1;
        }
        let mut registers: Vec<RegistersPerSlr> = Vec::new();
        let base = 1 + 12 * n;
        let mut k: usize = 0;
        while k < n
            invariant
                k <= n <= 255,
                base == 1 + 12 * n,
                replies@.len() == 1 + 12 * n + 11 * n,
                forall|j: int|
                    0 <= j < replies@.len() ==> (#[trigger] replies@[j])@.len() == Self::probe_at(
                        n as int,
                        j,
                    ).spec_reply_len(),
                registers@.len() == k,
                forall|j: int|
                    0 <= j < k ==> (#[trigger] registers@[j]).holds(replies@, base + 11 * j),
            decreases n - k,
        {
            let at = base + 11 * k;
            proof {
                assert forall|o: int| 0 <= o < 11 implies (#[trigger] replies@[at + o])@.len()
                    == RegistersPerSlr::spec_len_at(o) by {
                    assert((11 * k + o) % 11 == o);
                }
            }
            registers.push(RegistersPerSlr::take(replies, at));
            k = k + 1;
        }
        Some(
            UP {
                jtag: UPJtag { device: UPJtagPerDevice { cntl }, slrs: jtag },
                registers: Registers { slrs: registers },
            },
        )
    }
}

} // verus!
