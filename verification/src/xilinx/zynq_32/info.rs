//! Snapshots of Zynq UltraScale+ devices.

use crate::xilinx::_32bit::commands;
use crate::xilinx::_32bit::info::{
    to_array, Probe, Read, Registers, RegistersPerSlr, UPJtag, UPJtagPerDevice, USJtagPerSlr,
};
use vstd::prelude::*;

verus! {

/// A snapshot of a Zynq UltraScale+ device.
#[derive(Clone, Debug)]
pub struct ZP {
    pub jtag: UPJtag,
    pub registers: Registers,
}

impl ZP {
    /// Probe `i` of a snapshot of a device with `n` super logic regions: the
    /// device-wide register, then the identification registers region by
    /// region, then the configuration registers region by region.
    pub open spec fn probe_at(n: int, i: int) -> Probe {
        if i == 0 {
            Probe::Jtag { inst: commands::FUSE_CNTL, len: 4, slr: None }
        } else if i < 1 + 12 * n {
            USJtagPerSlr::probe((i - 1) % 12, None)
        } else {
            RegistersPerSlr::probe((i - 1 - 12 * n) % 11, None)
        }
    }

    /// The number of bytes of reply `i`.
    fn expected_len(n: usize, i: usize) -> (r: usize)
        requires
            n <= 255,
            i < 1 + 12 * n + 11 * n,
        ensures
            r == Self::probe_at(n as int, i as int).spec_reply_len(),
    {
        if i == 0 {
            4
        } else if i < 1 + 12 * n {
            let o = (i - 1) % 12;
            USJtagPerSlr::len_at(o)
        } else {
            4
        }
    }
}

impl Read for ZP {
    open spec fn plan_spec(num_slr: u8) -> Seq<Probe> {
        let n = 1int;
        Seq::new((1 + 12 * n + 11 * n) as nat, |i: int| Self::probe_at(n, i))
    }

    open spec fn holds(&self, num_slr: u8, replies: Seq<Vec<u8>>) -> bool {
        let n = 1int;
        &&& self.jtag.device.cntl@ == replies[0]@
        &&& self.jtag.slrs@.len() == n
        &&& self.registers.slrs@.len() == n
        &&& forall|k: int|
            0 <= k < n ==> (#[trigger] self.jtag.slrs@[k]).holds(replies, 1 + 12 * k)
        &&& forall|k: int|
            0 <= k < n ==> (#[trigger] self.registers.slrs@[k]).holds(
                replies,
                1 + 12 * n + 11 * k,
            )
    }

    fn plan(num_slr: u8) -> (r: Vec<Probe>) {
        let n = 1u8 as usize;
        let ghost plan = Self::plan_spec(num_slr);
        let mut probes: Vec<Probe> = Vec::new();
        probes.push(Probe::Jtag { inst: commands::FUSE_CNTL, len: 4, slr: None });
        proof {
            assert(probes@ =~= plan.take(1));
        }
        let mut k: usize = 0;
        while k < n
            invariant
                k <= n <= 255,
                n == 1int,
                plan == Self::plan_spec(num_slr),
                probes@ == plan.take(1 + 12 * k),
            decreases n - k,
        {
            USJtagPerSlr::plan(&mut probes, None);
            proof {
                let block = USJtagPerSlr::plan_spec(None::<u8>);
                assert forall|o: int| 0 <= o < 12 implies plan[1 + 12 * k + o]
                    == block[o] by {
                    assert((12 * k + o) / 12 == k);
                    assert((12 * k + o) % 12 == o);
                }
                assert(probes@ =~= plan.take(1 + 12 * (k + 1)));
            }
            k = k + 1;
        }
        let mut k: usize = 0;
        while k < n
            invariant
                k <= n <= 255,
                n == 1int,
                plan == Self::plan_spec(num_slr),
                probes@ == plan.take(1 + 12 * n + 11 * k),
            decreases n - k,
        {
            RegistersPerSlr::plan(&mut probes, None);
            proof {
                let block = RegistersPerSlr::plan_spec(None::<u8>);
                assert forall|o: int| 0 <= o < 11 implies plan[1 + 12 * n + 11 * k + o]
                    == block[o] by {
                    assert((11 * k + o) / 11 == k);
                    assert((11 * k + o) % 11 == o);
                }
                assert(probes@ =~= plan.take(1 + 12 * n + 11 * (k + 1)));
            }
            k = k + 1;
        }
        proof {
            assert(plan.take(plan.len() as int) =~= plan);
        }
        probes
    }

    fn read(num_slr: u8, replies: &[Vec<u8>]) -> (r: Option<Self>) {
        let n = 1u8 as usize;
        let total = 1 + 12 * n + 11 * n;
        if replies.len() != total {
            return None;
        }
        let mut i: usize = 0;
        while i < total
            invariant
                i <= total,
                n <= 255,
                n == 1int,
                total == 1 + 12 * n + 11 * n,
                replies@.len() == total,
                forall|j: int|
                    0 <= j < i ==> (#[trigger] replies@[j])@.len() == Self::probe_at(
                        n as int,
                        j,
                    ).spec_reply_len(),
            decreases total - i,
        {
            if replies[i].len() != Self::expected_len(n, i) {
                return None;
            }
            i = i + 1;
        }
        let cntl = to_array(replies[0].as_slice());
        let mut jtag: Vec<USJtagPerSlr> = Vec::new();
        let mut k: usize = 0;
        while k < n
            invariant
                k <= n <= 255,
                replies@.len() == 1 + 12 * n + 11 * n,
                forall|j: int|
                    0 <= j < replies@.len() ==> (#[trigger] replies@[j])@.len() == Self::probe_at(
                        n as int,
                        j,
                    ).spec_reply_len(),
                jtag@.len() == k,
                forall|j: int|
                    0 <= j < k ==> (#[trigger] jtag@[j]).holds(replies@, 1 + 12 * j),
            decreases n - k,
        {
            let at = 1 + 12 * k;
            proof {
                assert forall|o: int| 0 <= o < 12 implies (#[trigger] replies@[at + o])@.len()
                    == USJtagPerSlr::spec_len_at(o) by {
                    assert((12 * k + o) % 12 == o);
                }
            }
            jtag.push(USJtagPerSlr::take(replies, at));
            k = k + 1;
        }
        let mut registers: Vec<RegistersPerSlr> = Vec::new();
        let base = 1 + 12 * n;
        let mut k: usize = 0;
        while k < n
            invariant
                k <= n <= 255,
                base == 1 + 12 * n,
                replies@.len() == 1 + 12 * n + 11 * n,
                forall|j: int|
                    0 <= j < replies@.len() ==> (#[trigger] replies@[j])@.len() == Self::probe_at(
                        n as int,
                        j,
                    ).spec_reply_len(),
                registers@.len() == k,
                forall|j: int|
                    0 <= j < k ==> (#[trigger] registers@[j]).holds(replies@, base + 11 * j),
            decreases n - k,
        {
            let at = base + 11 * k;
            proof {
                assert forall|o: int| 0 <= o < 11 implies (#[trigger] replies@[at + o])@.len()
                    == RegistersPerSlr::spec_len_at(o) by {
                    assert((11 * k + o) % 11 == o);
                }
            }
            registers.push(RegistersPerSlr::take(replies, at));
            k = k + 1;
        }
        Some(
            ZP {
                jtag: UPJtag { device: UPJtagPerDevice { cntl }, slrs: jtag },
                registers: Registers { slrs: registers },
            },
        )
    }
}

} // verus!
