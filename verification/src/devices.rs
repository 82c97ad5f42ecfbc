//! Device descriptors and the built-in table of known devices.

use crate::units::{Bits, Words32};
use std::collections::HashMap;
use vstd::prelude::*;

verus! {

broadcast use vstd::std_specs::hash::group_hash_axioms;

/// A device identification code with the four version bits masked to zero.
#[derive(Clone, Copy, Debug, PartialEq, Eq, Structural, PartialOrd, Ord, Hash)]
pub struct IdCode(u32);

/// What the chain logic and the protocol layers need to know of a device.
#[derive(Clone, Copy, Debug)]
pub struct DeviceInfo {
    /// Length of the instruction register.
    pub irlen: Bits<u8>,
    pub name: &'static str,
    pub specific: Specific,
}

/// What is known of a device beyond its instruction register.
#[derive(Clone, Copy, Debug)]
pub enum Specific {
    Unknown,
    Xilinx32(Xilinx32Info),
}

/// A Xilinx device configured through 32-bit packets.
#[derive(Clone, Copy, Debug)]
pub struct Xilinx32Info {
    pub family: Xilinx32Family,
    /// Number of super logic regions.
    pub slr: u8,
    /// Size of a full configuration readback.
    pub readback: Words32<usize>,
}

#[derive(Clone, Copy, Debug, PartialEq, Eq, Structural)]
pub enum Xilinx32Family {
    /// 7-series
    S7,
    /// UltraScale
    US,
    /// UltraScale+
    UP,
    /// Zynq 7000
    Z7,
    /// Zynq UltraScale+
    ZP,
    Versal,
}

/// IEEE 1149.1-2013, figure 12-1: the version field of an identification code.
pub const VERSION: u32 = 0xf000_0000;

impl View for IdCode {
    type V = u32;

    closed spec fn view(&self) -> u32 {
        self.0 & 0x0fff_ffff
    }
}

proof fn lemma_mask_version(code: u32)
    by (bit_vector)
    ensures
        code & !0xf000_0000u32 == code & 0x0fff_ffffu32,
        (code & 0x0fff_ffffu32) & 0xf000_0000u32 == 0,
        (code & 0x0fff_ffffu32) & 0x0fff_ffffu32 == code & 0x0fff_ffffu32,
        (code & !0xf000_0000u32) & 0x0fff_ffffu32 == code & 0x0fff_ffffu32,
        code & 0x0fff_ffffu32 == code % 0x1000_0000u32,
{
}

impl IdCode {
    /// The identifier of `code`: its low 28 bits.
    pub fn new(code: u32) -> (r: Self)
        ensures
            r@ == code & 0x0fff_ffff,
    {
        proof {
            lemma_mask_version(code);
        }
        IdCode(code & !VERSION)
    }

    /// The 28-bit identifier.
    pub fn code(self) -> (r: u32)
        ensures
            r == self@,
            r & 0xf000_0000 == 0,
    {
        proof {
            lemma_mask_version(self.0);
        }
        self.0 & 0x0fff_ffff
    }

    /// The version bits of every identifier are zero, and masking a code
    /// twice changes nothing more.
    pub proof fn lemma_masked(self)
        ensures
            self@ & 0xf000_0000 == 0,
            self@ & 0x0fff_ffff == self@,
    {
        lemma_mask_version(self.0);
    }
}

impl DeviceInfo {
    /// The instruction register holds 1 to 32 bits; a Xilinx device has one
    /// to five super logic regions and a readback that fits 28 bits of
    /// words.
    pub open spec fn wf(self) -> bool {
        &&& 1 <= self.irlen.0 <= 32
        &&& match self.specific {
            Specific::Unknown => true,
            Specific::Xilinx32(x) => 1 <= x.slr <= 5 && x.readback.0 <= 0x0fff_ffff,
        }
    }
}

/// Every descriptor of the table is well formed.
pub open spec fn table_wf(table: Seq<(IdCode, DeviceInfo)>) -> bool {
    forall|i: int| 0 <= i < table.len() ==> (#[trigger] table[i]).1.wf()
}

/// The mapping that rows stand for: from each identifier to the descriptor
/// of the last row that carries it.
pub open spec fn rows_map(rows: Seq<(u32, DeviceInfo)>) -> Map<u32, DeviceInfo>
    decreases rows.len(),
{
    if rows.len() == 0 {
        Map::empty()
    } else {
        rows_map(rows.drop_last()).insert(rows.last().0, rows.last().1)
    }
}

/// The mapping that a table stands for.
pub open spec fn table_map(table: Seq<(IdCode, DeviceInfo)>) -> Map<u32, DeviceInfo> {
    rows_map(rows(table))
}

/// The devices this crate knows, as `(idcode, info)` pairs.
pub fn builtin() -> (r: Vec<(IdCode, DeviceInfo)>)
    ensures
        rows(r@) == xilinx_rows(),
        table_wf(r@),
        r@.len() == BUILTIN_LEN,
{
    xilinx()
}

/// The mapping from identification code to descriptor that `table` stands for.
pub fn collect(table: &Vec<(IdCode, DeviceInfo)>) -> (r: HashMap<u32, DeviceInfo>)
    ensures
        r@ == table_map(table@),
{
    let mut map: HashMap<u32, DeviceInfo> = HashMap::new();
    let mut i: usize = 0;
    proof {
        assert(rows(table@.take(0)) =~= Seq::empty());
    }
    while i < table.len()
        invariant
            i <= table.len(),
            map@ == table_map(table@.take(i as int)),
        decreases table.len() - i,
    {
        let (id, info) = table[i];
        proof {
            let next = rows(table@.take(i + 1));
            assert(next.drop_last() =~= rows(table@.take(i as int)));
            assert(next.last() == (table@[i as int].0@, table@[i as int].1));
        }
        map.insert(id.code(), info);
        i = i + 1;
    }
    proof {
        assert(table@.take(table@.len() as int) =~= table@);
    }
    map
}

/// Every descriptor in a mapping built from a well-formed table is well formed.
pub proof fn lemma_table_map_wf(table: Seq<(IdCode, DeviceInfo)>)
    requires
        table_wf(table),
    ensures
        forall|k: u32| #[trigger]
            table_map(table).dom().contains(k) ==> table_map(table)[k].wf() && k & 0xf000_0000
                == 0,
    decreases table.len(),
{
    if table.len() > 0 {
        let rest = table.drop_last();
        assert forall|i: int| 0 <= i < rest.len() implies (#[trigger] rest[i]).1.wf() by {
            assert(rest[i] == table[i]);
        }
        lemma_table_map_wf(rest);
        table.last().0.lemma_masked();
        assert(table.last().1.wf());
        assert(rows(table).drop_last() =~= rows(rest));
        let m = table_map(table);
        assert forall|k: u32| #[trigger] m.dom().contains(k) implies m[k].wf() && k & 0xf000_0000
            == 0 by {
            if k != table.last().0@ {
                assert(table_map(rest).dom().contains(k));
            }
        }
    } else {
        assert(rows(table) =~= Seq::empty());
    }
}

/// The built-in devices as a mapping from identification code to descriptor.
pub fn get_devices() -> (r: HashMap<u32, DeviceInfo>)
    ensures
        r@ == rows_map(xilinx_rows()),
        forall|k: u32| #[trigger] r@.dom().contains(k) ==> r@[k].wf() && k & 0xf000_0000 == 0,
{
    let table = builtin();
    proof {
        lemma_table_map_wf(table@);
    }
    collect(&table)
}

/// The descriptor that `devices` holds for `idcode`, whatever its version bits.
pub fn find(devices: &HashMap<u32, DeviceInfo>, idcode: u32) -> (r: Option<DeviceInfo>)
    ensures
        r == lookup(devices@, idcode),
{
    match devices.get(&IdCode::new(idcode).code()) {
        Some(info) => Some(*info),
        None => None,
    }
}

/// The descriptor that `devices` maps the identifier of `idcode` to.
pub open spec fn lookup(devices: Map<u32, DeviceInfo>, idcode: u32) -> Option<DeviceInfo> {
    let key = idcode & 0x0fff_ffff;
    if devices.dom().contains(key) {
        Some(devices[key])
    } else {
        None
    }
}

/// What is known of a Xilinx device of the given family.
pub open spec fn spec_x32(family: Xilinx32Family, slr: u8, readback: usize) -> Specific {
    Specific::Xilinx32(Xilinx32Info { family, slr, readback: Words32(readback) })
}

#[verifier::when_used_as_spec(spec_x32)]
fn x32(family: Xilinx32Family, slr: u8, readback: usize) -> (r: Specific)
    ensures
        r == spec_x32(family, slr, readback),
{
    Specific::Xilinx32(Xilinx32Info { family, slr, readback: Words32(readback) })
}

/// A row of the table: the identifier of `code`, its low 28 bits, and the
/// descriptor of the device.
pub open spec fn row(code: u32, irlen: u8, name: &'static str, specific: Specific) -> (
    u32,
    DeviceInfo,
) {
    ((code % 0x1000_0000) as u32, DeviceInfo { irlen: Bits(irlen), name, specific })
}

/// The rows of a table: every identifier with its descriptor.
pub open spec fn rows(table: Seq<(IdCode, DeviceInfo)>) -> Seq<(u32, DeviceInfo)> {
    Seq::new(table.len(), |i: int| (table[i].0@, table[i].1))
}

fn entry(
    table: &mut Vec<(IdCode, DeviceInfo)>,
    code: u32,
    irlen: u8,
    name: &'static str,
    specific: Specific,
)
    requires
        table_wf(old(table)@),
        (DeviceInfo { irlen: Bits(irlen), name, specific }).wf(),
    ensures
        table_wf(final(table)@),
        rows(final(table)@) == rows(old(table)@).push(row(code, irlen, name, specific)),
{
    let ghost before = table@;
    table.push((IdCode::new(code), DeviceInfo { irlen: Bits(irlen), name, specific }));
    proof {
        assert(table@.drop_last() =~= before);
        assert forall|i: int| 0 <= i < table@.len() implies (#[trigger] table@[i]).1.wf() by {
            if i < before.len() {
                assert(table@[i] == before[i]);
            }
        }
        lemma_mask_version(code);
        assert(rows(table@) =~= rows(before).push(row(code, irlen, name, specific)));
    }
}

/// Number of entries in the built-in table.
pub const BUILTIN_LEN: usize = 288;

proof fn lemma_rows_len()
    ensures
        xilinx_rows().len() == BUILTIN_LEN,
{
}

/// The rows of the table of Xilinx devices.
pub open spec fn xilinx_rows() -> Seq<(u32, DeviceInfo)> {
    kintex_us_rows() + virtex_us_rows() + spartan_up_rows() + artix_up_rows()
        + kintex_up_rows() + virtex_up_1_rows() + virtex_up_2_rows() + zynq_up_1_rows()
        + zynq_up_2_rows() + zynq_up_3_rows() + versal_rows() + spartan7_rows() + artix7_rows()
        + kintex7_rows() + virtex7_rows() + zynq7_rows() + spartan6_1_rows()
        + spartan6_2_rows() + virtex6_1_rows() + virtex6_2_rows() + virtex5_1_rows()
        + virtex5_2_rows() + virtex5_3_rows() + virtex4_1_rows() + virtex4_2_rows()
        + spartan3_1_rows() + spartan3_2_rows() + spartan3_3_rows() + virtex2_1_rows()
        + virtex2_2_rows() + xc95xl_rows() + xc95xv_rows() + xc2c_1_rows() + xc2c_2_rows()
        + xc2c_3_rows() + xc95_rows() + xc18_rows() + arm_dap_on_zynq_rows()
}

/// The Xilinx devices this crate knows.
pub fn xilinx() -> (r: Vec<(IdCode, DeviceInfo)>)
    ensures
        rows(r@) == xilinx_rows(),
        table_wf(r@),
        r@.len() == BUILTIN_LEN,
{
    let mut t: Vec<(IdCode, DeviceInfo)> = Vec::new();
    proof {
        assert(rows(t@) =~= Seq::<(u32, DeviceInfo)>::empty());
    }
    kintex_us(&mut t);
    virtex_us(&mut t);
    spartan_up(&mut t);
    artix_up(&mut t);
    kintex_up(&mut t);
    virtex_up_1(&mut t);
    virtex_up_2(&mut t);
    zynq_up_1(&mut t);
    zynq_up_2(&mut t);
    zynq_up_3(&mut t);
    versal(&mut t);
    spartan7(&mut t);
    artix7(&mut t);
    kintex7(&mut t);
    virtex7(&mut t);
    zynq7(&mut t);
    spartan6_1(&mut t);
    spartan6_2(&mut t);
    virtex6_1(&mut t);
    virtex6_2(&mut t);
    virtex5_1(&mut t);
    virtex5_2(&mut t);
    virtex5_3(&mut t);
    virtex4_1(&mut t);
    virtex4_2(&mut t);
    spartan3_1(&mut t);
    spartan3_2(&mut t);
    spartan3_3(&mut t);
    virtex2_1(&mut t);
    virtex2_2(&mut t);
    xc95xl(&mut t);
    xc95xv(&mut t);
    xc2c_1(&mut t);
    xc2c_2(&mut t);
    xc2c_3(&mut t);
    xc95(&mut t);
    xc18(&mut t);
    arm_dap_on_zynq(&mut t);
    proof {
        assert(rows(t@) =~= xilinx_rows());
        lemma_rows_len();
    }
    t
}

/// No row carries the identifier `k`.
pub open spec fn absent(rows: Seq<(u32, DeviceInfo)>, k: u32) -> bool {
    forall|i: int| 0 <= i < rows.len() ==> (#[trigger] rows[i]).0 != k
}

/// Rows that do not carry an identifier leave what the rows before them map
/// it to.
pub proof fn lemma_map_skip(a: Seq<(u32, DeviceInfo)>, b: Seq<(u32, DeviceInfo)>, k: u32)
    requires
        absent(b, k),
    ensures
        rows_map(a + b).dom().contains(k) == rows_map(a).dom().contains(k),
        rows_map(a).dom().contains(k) ==> rows_map(a + b)[k] == rows_map(a)[k],
    decreases b.len(),
{
    if b.len() == 0 {
        assert(a + b =~= a);
    } else {
        assert((a + b).drop_last() =~= a + b.drop_last());
        assert((a + b).last() == b.last());
        assert(b.last() == b[b.len() - 1]);
        assert forall|i: int| 0 <= i < b.drop_last().len() implies (#[trigger] b.drop_last()[i]).0
            != k by {
            assert(b.drop_last()[i] == b[i]);
        }
        lemma_map_skip(a, b.drop_last(), k);
    }
}

/// The last row that carries an identifier is what the rows map it to.
pub proof fn lemma_map_hit(
    a: Seq<(u32, DeviceInfo)>,
    g: Seq<(u32, DeviceInfo)>,
    i: int,
    k: u32,
)
    requires
        0 <= i < g.len(),
        g[i].0 == k,
        forall|j: int| i < j < g.len() ==> (#[trigger] g[j]).0 != k,
    ensures
        rows_map(a + g).dom().contains(k),
        rows_map(a + g)[k] == g[i].1,
    decreases g.len(),
{
    assert((a + g).drop_last() =~= a + g.drop_last());
    assert((a + g).last() == g[g.len() - 1]);
    if i < g.len() - 1 {
        assert forall|j: int| i < j < g.drop_last().len() implies (#[trigger] g.drop_last()[j]).0
            != k by {
            assert(g.drop_last()[j] == g[j]);
        }
        assert(g.drop_last()[i] == g[i]);
        lemma_map_hit(a, g.drop_last(), i, k);
    }
}

/// The table maps the identifier of the XC7A35T to its descriptor.
pub proof fn lemma_knows_xc7a35t()
    ensures
        lookup(rows_map(xilinx_rows()), 0x0362D093) == Some(
            row(0x0362D093, 6, "XC7A35T", spec_x32(Xilinx32Family::S7, 1, 548003)).1,
        ),
{
    let k: u32 = 0x0362D093;
    lemma_mask_version(0x0362D093);
    let x0 = kintex_us_rows();
    let x1 = x0 + virtex_us_rows();
    let x2 = x1 + spartan_up_rows();
    let x3 = x2 + artix_up_rows();
    let x4 = x3 + kintex_up_rows();
    let x5 = x4 + virtex_up_1_rows();
    let x6 = x5 + virtex_up_2_rows();
    let x7 = x6 + zynq_up_1_rows();
    let x8 = x7 + zynq_up_2_rows();
    let x9 = x8 + zynq_up_3_rows();
    let x10 = x9 + versal_rows();
    let x11 = x10 + spartan7_rows();
    let x12 = x11 + artix7_rows();
    let x13 = x12 + kintex7_rows();
    let x14 = x13 + virtex7_rows();
    let x15 = x14 + zynq7_rows();
    let x16 = x15 + spartan6_1_rows();
    let x17 = x16 + spartan6_2_rows();
    let x18 = x17 + virtex6_1_rows();
    let x19 = x18 + virtex6_2_rows();
    let x20 = x19 + virtex5_1_rows();
    let x21 = x20 + virtex5_2_rows();
    let x22 = x21 + virtex5_3_rows();
    let x23 = x22 + virtex4_1_rows();
    let x24 = x23 + virtex4_2_rows();
    let x25 = x24 + spartan3_1_rows();
    let x26 = x25 + spartan3_2_rows();
    let x27 = x26 + spartan3_3_rows();
    let x28 = x27 + virtex2_1_rows();
    let x29 = x28 + virtex2_2_rows();
    let x30 = x29 + xc95xl_rows();
    let x31 = x30 + xc95xv_rows();
    let x32 = x31 + xc2c_1_rows();
    let x33 = x32 + xc2c_2_rows();
    let x34 = x33 + xc2c_3_rows();
    let x35 = x34 + xc95_rows();
    let x36 = x35 + xc18_rows();
    let x37 = x36 + arm_dap_on_zynq_rows();
    assert(x37 == xilinx_rows());
    assert(absent(arm_dap_on_zynq_rows(), k));
    lemma_map_skip(x36, arm_dap_on_zynq_rows(), k);
    assert(absent(xc18_rows(), k));
    lemma_map_skip(x35, xc18_rows(), k);
    assert(absent(xc95_rows(), k));
    lemma_map_skip(x34, xc95_rows(), k);
    assert(absent(xc2c_3_rows(), k));
    lemma_map_skip(x33, xc2c_3_rows(), k);
    assert(absent(xc2c_2_rows(), k));
    lemma_map_skip(x32, xc2c_2_rows(), k);
    assert(absent(xc2c_1_rows(), k));
    lemma_map_skip(x31, xc2c_1_rows(), k);
    assert(absent(xc95xv_rows(), k));
    lemma_map_skip(x30, xc95xv_rows(), k);
    assert(absent(xc95xl_rows(), k));
    lemma_map_skip(x29, xc95xl_rows(), k);
    assert(absent(virtex2_2_rows(), k));
    lemma_map_skip(x28, virtex2_2_rows(), k);
    assert(absent(virtex2_1_rows(), k));
    lemma_map_skip(x27, virtex2_1_rows(), k);
    assert(absent(spartan3_3_rows(), k));
    lemma_map_skip(x26, spartan3_3_rows(), k);
    assert(absent(spartan3_2_rows(), k));
    lemma_map_skip(x25, spartan3_2_rows(), k);
    assert(absent(spartan3_1_rows(), k));
    lemma_map_skip(x24, spartan3_1_rows(), k);
    assert(absent(virtex4_2_rows(), k));
    lemma_map_skip(x23, virtex4_2_rows(), k);
    assert(absent(virtex4_1_rows(), k));
    lemma_map_skip(x22, virtex4_1_rows(), k);
    assert(absent(virtex5_3_rows(), k));
    lemma_map_skip(x21, virtex5_3_rows(), k);
    assert(absent(virtex5_2_rows(), k));
    lemma_map_skip(x20, virtex5_2_rows(), k);
    assert(absent(virtex5_1_rows(), k));
    lemma_map_skip(x19, virtex5_1_rows(), k);
    assert(absent(virtex6_2_rows(), k));
    lemma_map_skip(x18, virtex6_2_rows(), k);
    assert(absent(virtex6_1_rows(), k));
    lemma_map_skip(x17, virtex6_1_rows(), k);
    assert(absent(spartan6_2_rows(), k));
    lemma_map_skip(x16, spartan6_2_rows(), k);
    assert(absent(spartan6_1_rows(), k));
    lemma_map_skip(x15, spartan6_1_rows(), k);
    assert(absent(zynq7_rows(), k));
    lemma_map_skip(x14, zynq7_rows(), k);
    assert(absent(virtex7_rows(), k));
    lemma_map_skip(x13, virtex7_rows(), k);
    assert(absent(kintex7_rows(), k));
    lemma_map_skip(x12, kintex7_rows(), k);
    lemma_map_hit(x11, artix7_rows(), 3, k);
}

/// The table maps the identifier of the XCKU3P to its descriptor.
pub proof fn lemma_knows_xcku3p()
    ensures
        lookup(rows_map(xilinx_rows()), 0x04A63093) == Some(
            row(0x04A63093, 6, "XCKU3P", spec_x32(Xilinx32Family::UP, 1, 3857268)).1,
        ),
{
    let k: u32 = 0x04A63093;
    lemma_mask_version(0x04A63093);
    let x0 = kintex_us_rows();
    let x1 = x0 + virtex_us_rows();
    let x2 = x1 + spartan_up_rows();
    let x3 = x2 + artix_up_rows();
    let x4 = x3 + kintex_up_rows();
    let x5 = x4 + virtex_up_1_rows();
    let x6 = x5 + virtex_up_2_rows();
    let x7 = x6 + zynq_up_1_rows();
    let x8 = x7 + zynq_up_2_rows();
    let x9 = x8 + zynq_up_3_rows();
    let x10 = x9 + versal_rows();
    let x11 = x10 + spartan7_rows();
    let x12 = x11 + artix7_rows();
    let x13 = x12 + kintex7_rows();
    let x14 = x13 + virtex7_rows();
    let x15 = x14 + zynq7_rows();
    let x16 = x15 + spartan6_1_rows();
    let x17 = x16 + spartan6_2_rows();
    let x18 = x17 + virtex6_1_rows();
    let x19 = x18 + virtex6_2_rows();
    let x20 = x19 + virtex5_1_rows();
    let x21 = x20 + virtex5_2_rows();
    let x22 = x21 + virtex5_3_rows();
    let x23 = x22 + virtex4_1_rows();
    let x24 = x23 + virtex4_2_rows();
    let x25 = x24 + spartan3_1_rows();
    let x26 = x25 + spartan3_2_rows();
    let x27 = x26 + spartan3_3_rows();
    let x28 = x27 + virtex2_1_rows();
    let x29 = x28 + virtex2_2_rows();
    let x30 = x29 + xc95xl_rows();
    let x31 = x30 + xc95xv_rows();
    let x32 = x31 + xc2c_1_rows();
    let x33 = x32 + xc2c_2_rows();
    let x34 = x33 + xc2c_3_rows();
    let x35 = x34 + xc95_rows();
    let x36 = x35 + xc18_rows();
    let x37 = x36 + arm_dap_on_zynq_rows();
    assert(x37 == xilinx_rows());
    assert(absent(arm_dap_on_zynq_rows(), k));
    lemma_map_skip(x36, arm_dap_on_zynq_rows(), k);
    assert(absent(xc18_rows(), k));
    lemma_map_skip(x35, xc18_rows(), k);
    assert(absent(xc95_rows(), k));
    lemma_map_skip(x34, xc95_rows(), k);
    assert(absent(xc2c_3_rows(), k));
    lemma_map_skip(x33, xc2c_3_rows(), k);
    assert(absent(xc2c_2_rows(), k));
    lemma_map_skip(x32, xc2c_2_rows(), k);
    assert(absent(xc2c_1_rows(), k));
    lemma_map_skip(x31, xc2c_1_rows(), k);
    assert(absent(xc95xv_rows(), k));
    lemma_map_skip(x30, xc95xv_rows(), k);
    assert(absent(xc95xl_rows(), k));
    lemma_map_skip(x29, xc95xl_rows(), k);
    assert(absent(virtex2_2_rows(), k));
    lemma_map_skip(x28, virtex2_2_rows(), k);
    assert(absent(virtex2_1_rows(), k));
    lemma_map_skip(x27, virtex2_1_rows(), k);
    assert(absent(spartan3_3_rows(), k));
    lemma_map_skip(x26, spartan3_3_rows(), k);
    assert(absent(spartan3_2_rows(), k));
    lemma_map_skip(x25, spartan3_2_rows(), k);
    assert(absent(spartan3_1_rows(), k));
    lemma_map_skip(x24, spartan3_1_rows(), k);
    assert(absent(virtex4_2_rows(), k));
    lemma_map_skip(x23, virtex4_2_rows(), k);
    assert(absent(virtex4_1_rows(), k));
    lemma_map_skip(x22, virtex4_1_rows(), k);
    assert(absent(virtex5_3_rows(), k));
    lemma_map_skip(x21, virtex5_3_rows(), k);
    assert(absent(virtex5_2_rows(), k));
    lemma_map_skip(x20, virtex5_2_rows(), k);
    assert(absent(virtex5_1_rows(), k));
    lemma_map_skip(x19, virtex5_1_rows(), k);
    assert(absent(virtex6_2_rows(), k));
    lemma_map_skip(x18, virtex6_2_rows(), k);
    assert(absent(virtex6_1_rows(), k));
    lemma_map_skip(x17, virtex6_1_rows(), k);
    assert(absent(spartan6_2_rows(), k));
    lemma_map_skip(x16, spartan6_2_rows(), k);
    assert(absent(spartan6_1_rows(), k));
    lemma_map_skip(x15, spartan6_1_rows(), k);
    assert(absent(zynq7_rows(), k));
    lemma_map_skip(x14, zynq7_rows(), k);
    assert(absent(virtex7_rows(), k));
    lemma_map_skip(x13, virtex7_rows(), k);
    assert(absent(kintex7_rows(), k));
    lemma_map_skip(x12, kintex7_rows(), k);
    assert(absent(artix7_rows(), k));
    lemma_map_skip(x11, artix7_rows(), k);
    assert(absent(spartan7_rows(), k));
    lemma_map_skip(x10, spartan7_rows(), k);
    assert(absent(versal_rows(), k));
    lemma_map_skip(x9, versal_rows(), k);
    assert(absent(zynq_up_3_rows(), k));
    lemma_map_skip(x8, zynq_up_3_rows(), k);
    assert(absent(zynq_up_2_rows(), k));
    lemma_map_skip(x7, zynq_up_2_rows(), k);
    assert(absent(zynq_up_1_rows(), k));
    lemma_map_skip(x6, zynq_up_1_rows(), k);
    assert(absent(virtex_up_2_rows(), k));
    lemma_map_skip(x5, virtex_up_2_rows(), k);
    assert(absent(virtex_up_1_rows(), k));
    lemma_map_skip(x4, virtex_up_1_rows(), k);
    lemma_map_hit(x3, kintex_up_rows(), 0, k);
}

/// The table maps the identifier of the XCZU3EG to its descriptor.
pub proof fn lemma_knows_xczu3eg()
    ensures
        lookup(rows_map(xilinx_rows()), 0x14710093) == Some(
            row(0x14710093, 12, "XCZU3EG", spec_x32(Xilinx32Family::ZP, 1, 1391652)).1,
        ),
{
    let k: u32 = 0x04710093;
    lemma_mask_version(0x14710093);
    let x0 = kintex_us_rows();
    let x1 = x0 + virtex_us_rows();
    let x2 = x1 + spartan_up_rows();
    let x3 = x2 + artix_up_rows();
    let x4 = x3 + kintex_up_rows();
    let x5 = x4 + virtex_up_1_rows();
    let x6 = x5 + virtex_up_2_rows();
    let x7 = x6 + zynq_up_1_rows();
    let x8 = x7 + zynq_up_2_rows();
    let x9 = x8 + zynq_up_3_rows();
    let x10 = x9 + versal_rows();
    let x11 = x10 + spartan7_rows();
    let x12 = x11 + artix7_rows();
    let x13 = x12 + kintex7_rows();
    let x14 = x13 + virtex7_rows();
    let x15 = x14 + zynq7_rows();
    let x16 = x15 + spartan6_1_rows();
    let x17 = x16 + spartan6_2_rows();
    let x18 = x17 + virtex6_1_rows();
    let x19 = x18 + virtex6_2_rows();
    let x20 = x19 + virtex5_1_rows();
    let x21 = x20 + virtex5_2_rows();
    let x22 = x21 + virtex5_3_rows();
    let x23 = x22 + virtex4_1_rows();
    let x24 = x23 + virtex4_2_rows();
    let x25 = x24 + spartan3_1_rows();
    let x26 = x25 + spartan3_2_rows();
    let x27 = x26 + spartan3_3_rows();
    let x28 = x27 + virtex2_1_rows();
    let x29 = x28 + virtex2_2_rows();
    let x30 = x29 + xc95xl_rows();
    let x31 = x30 + xc95xv_rows();
    let x32 = x31 + xc2c_1_rows();
    let x33 = x32 + xc2c_2_rows();
    let x34 = x33 + xc2c_3_rows();
    let x35 = x34 + xc95_rows();
    let x36 = x35 + xc18_rows();
    let x37 = x36 + arm_dap_on_zynq_rows();
    assert(x37 == xilinx_rows());
    assert(absent(arm_dap_on_zynq_rows(), k));
    lemma_map_skip(x36, arm_dap_on_zynq_rows(), k);
    assert(absent(xc18_rows(), k));
    lemma_map_skip(x35, xc18_rows(), k);
    assert(absent(xc95_rows(), k));
    lemma_map_skip(x34, xc95_rows(), k);
    assert(absent(xc2c_3_rows(), k));
    lemma_map_skip(x33, xc2c_3_rows(), k);
    assert(absent(xc2c_2_rows(), k));
    lemma_map_skip(x32, xc2c_2_rows(), k);
    assert(absent(xc2c_1_rows(), k));
    lemma_map_skip(x31, xc2c_1_rows(), k);
    assert(absent(xc95xv_rows(), k));
    lemma_map_skip(x30, xc95xv_rows(), k);
    assert(absent(xc95xl_rows(), k));
    lemma_map_skip(x29, xc95xl_rows(), k);
    assert(absent(virtex2_2_rows(), k));
    lemma_map_skip(x28, virtex2_2_rows(), k);
    assert(absent(virtex2_1_rows(), k));
    lemma_map_skip(x27, virtex2_1_rows(), k);
    assert(absent(spartan3_3_rows(), k));
    lemma_map_skip(x26, spartan3_3_rows(), k);
    assert(absent(spartan3_2_rows(), k));
    lemma_map_skip(x25, spartan3_2_rows(), k);
    assert(absent(spartan3_1_rows(), k));
    lemma_map_skip(x24, spartan3_1_rows(), k);
    assert(absent(virtex4_2_rows(), k));
    lemma_map_skip(x23, virtex4_2_rows(), k);
    assert(absent(virtex4_1_rows(), k));
    lemma_map_skip(x22, virtex4_1_rows(), k);
    assert(absent(virtex5_3_rows(), k));
    lemma_map_skip(x21, virtex5_3_rows(), k);
    assert(absent(virtex5_2_rows(), k));
    lemma_map_skip(x20, virtex5_2_rows(), k);
    assert(absent(virtex5_1_rows(), k));
    lemma_map_skip(x19, virtex5_1_rows(), k);
    assert(absent(virtex6_2_rows(), k));
    lemma_map_skip(x18, virtex6_2_rows(), k);
    assert(absent(virtex6_1_rows(), k));
    lemma_map_skip(x17, virtex6_1_rows(), k);
    assert(absent(spartan6_2_rows(), k));
    lemma_map_skip(x16, spartan6_2_rows(), k);
    assert(absent(spartan6_1_rows(), k));
    lemma_map_skip(x15, spartan6_1_rows(), k);
    assert(absent(zynq7_rows(), k));
    lemma_map_skip(x14, zynq7_rows(), k);
    assert(absent(virtex7_rows(), k));
    lemma_map_skip(x13, virtex7_rows(), k);
    assert(absent(kintex7_rows(), k));
    lemma_map_skip(x12, kintex7_rows(), k);
    assert(absent(artix7_rows(), k));
    lemma_map_skip(x11, artix7_rows(), k);
    assert(absent(spartan7_rows(), k));
    lemma_map_skip(x10, spartan7_rows(), k);
    assert(absent(versal_rows(), k));
    lemma_map_skip(x9, versal_rows(), k);
    assert(absent(zynq_up_3_rows(), k));
    lemma_map_skip(x8, zynq_up_3_rows(), k);
    assert(absent(zynq_up_2_rows(), k));
    lemma_map_skip(x7, zynq_up_2_rows(), k);
    lemma_map_hit(x6, zynq_up_1_rows(), 2, k);
}

/// The rows of Kintex UltraScale.
pub open spec fn kintex_us_rows() -> Seq<(u32, DeviceInfo)> {
    seq![
        // Kintex US (6 IR_Len)
        row(0x03824093,  6, "XCKU025",       spec_x32(Xilinx32Family::US, 1,   4001190)),
        row(0x03823093,  6, "XCKU035",       spec_x32(Xilinx32Family::US, 1,   4001190)),
        row(0x03822093,  6, "XCKU040",       spec_x32(Xilinx32Family::US, 1,   4001190)),
        row(0x03919093,  6, "XCKU060",       spec_x32(Xilinx32Family::US, 1,   6030690)),
        row(0x03844093,  6, "XCKU095",       spec_x32(Xilinx32Family::US, 1,   8960304)),
        // Kintex US (12 IR_Len)
        row(0x0380F093, 12, "XCKU085",       spec_x32(Xilinx32Family::US, 2,  12061380)),
        row(0x0390D093, 12, "XCKU115",       spec_x32(Xilinx32Family::US, 2,  12061380)),
    ]
}

fn kintex_us(t: &mut Vec<(IdCode, DeviceInfo)>)
    requires
        table_wf(old(t)@),
    ensures
        table_wf(final(t)@),
        rows(final(t)@) == rows(old(t)@) + kintex_us_rows(),
{
    // Kintex US (6 IR_Len)
    entry(t, 0x03824093,  6, "XCKU025",       x32(Xilinx32Family::US, 1,   4001190));
    entry(t, 0x03823093,  6, "XCKU035",       x32(Xilinx32Family::US, 1,   4001190));
    entry(t, 0x03822093,  6, "XCKU040",       x32(Xilinx32Family::US, 1,   4001190));
    entry(t, 0x03919093,  6, "XCKU060",       x32(Xilinx32Family::US, 1,   6030690));
    entry(t, 0x03844093,  6, "XCKU095",       x32(Xilinx32Family::US, 1,   8960304));
    // Kintex US (12 IR_Len)
    entry(t, 0x0380F093, 12, "XCKU085",       x32(Xilinx32Family::US, 2,  12061380));
    entry(t, 0x0390D093, 12, "XCKU115",       x32(Xilinx32Family::US, 2,  12061380));
    proof {
        assert(rows(t@) =~= rows(old(t)@) + kintex_us_rows());
    }
}

/// The rows of Virtex UltraScale.
pub open spec fn virtex_us_rows() -> Seq<(u32, DeviceInfo)> {
    seq![
        // Virtex US (6 IR_Len)
        row(0x03939093,  6, "XCVU065",       spec_x32(Xilinx32Family::US, 1,   6271770)),
        row(0x03843093,  6, "XCVU080",       spec_x32(Xilinx32Family::US, 1,   8960304)),
        row(0x03842093,  6, "XCVU095",       spec_x32(Xilinx32Family::US, 1,   8960304)),
        // Virtex US (12 IR_Len)
        row(0x0392D093, 12, "XCVU125",       spec_x32(Xilinx32Family::US, 2,  12543540)),
        // Virtex US (18 IR_Len)
        row(0x03933093, 18, "XCVU160",       spec_x32(Xilinx32Family::US, 3,  18815310)),
        row(0x03931093, 18, "XCVU190",       spec_x32(Xilinx32Family::US, 3,  18815310)),
        row(0x0396D093, 18, "XCVU440",       spec_x32(Xilinx32Family::US, 3,  32239530)),
    ]
}

fn virtex_us(t: &mut Vec<(IdCode, DeviceInfo)>)
    requires
        table_wf(old(t)@),
    ensures
        table_wf(final(t)@),
        rows(final(t)@) == rows(old(t)@) + virtex_us_rows(),
{
    // Virtex US (6 IR_Len)
    entry(t, 0x03939093,  6, "XCVU065",       x32(Xilinx32Family::US, 1,   6271770));
    entry(t, 0x03843093,  6, "XCVU080",       x32(Xilinx32Family::US, 1,   8960304));
    entry(t, 0x03842093,  6, "XCVU095",       x32(Xilinx32Family::US, 1,   8960304));
    // Virtex US (12 IR_Len)
    entry(t, 0x0392D093, 12, "XCVU125",       x32(Xilinx32Family::US, 2,  12543540));
    // Virtex US (18 IR_Len)
    entry(t, 0x03933093, 18, "XCVU160",       x32(Xilinx32Family::US, 3,  18815310));
    entry(t, 0x03931093, 18, "XCVU190",       x32(Xilinx32Family::US, 3,  18815310));
    entry(t, 0x0396D093, 18, "XCVU440",       x32(Xilinx32Family::US, 3,  32239530));
    proof {
        assert(rows(t@) =~= rows(old(t)@) + virtex_us_rows());
    }
}

/// The rows of Spartan UltraScale+.
pub open spec fn spartan_up_rows() -> Seq<(u32, DeviceInfo)> {
    seq![
        // Spartan US+ (6 IR_Len)
        row(0x04E81093,  6, "SU10P",         spec_x32(Xilinx32Family::UP, 1,  10606464)),
        row(0x04E82093,  6, "SU25P",         spec_x32(Xilinx32Family::UP, 1,  10606464)),
        row(0x04E80093,  6, "SU35P",         spec_x32(Xilinx32Family::UP, 1,  10606464)),
        row(0x04E88093,  6, "SU50P",         spec_x32(Xilinx32Family::UP, 1,  15728640)),
        row(0x04E90093,  6, "SU55P",         spec_x32(Xilinx32Family::UP, 1,  15728640)),
        row(0x04E99093,  6, "SU65P",         spec_x32(Xilinx32Family::UP, 1,         0)),
        row(0x04E98093,  6, "SU100P",        spec_x32(Xilinx32Family::UP, 1,  29360128)),
        row(0x04EA1093,  6, "SU150P",        spec_x32(Xilinx32Family::UP, 1,  57817728)),
        row(0x04EA0093,  6, "SU200P",        spec_x32(Xilinx32Family::UP, 1,  57817728)),
    ]
}

fn spartan_up(t: &mut Vec<(IdCode, DeviceInfo)>)
    requires
        table_wf(old(t)@),
    ensures
        table_wf(final(t)@),
        rows(final(t)@) == rows(old(t)@) + spartan_up_rows(),
{
    // Spartan US+ (6 IR_Len)
    entry(t, 0x04E81093,  6, "SU10P",         x32(Xilinx32Family::UP, 1,  10606464));
    entry(t, 0x04E82093,  6, "SU25P",         x32(Xilinx32Family::UP, 1,  10606464));
    entry(t, 0x04E80093,  6, "SU35P",         x32(Xilinx32Family::UP, 1,  10606464));
    entry(t, 0x04E88093,  6, "SU50P",         x32(Xilinx32Family::UP, 1,  15728640));
    entry(t, 0x04E90093,  6, "SU55P",         x32(Xilinx32Family::UP, 1,  15728640));
    entry(t, 0x04E99093,  6, "SU65P",         x32(Xilinx32Family::UP, 1,         0));
    entry(t, 0x04E98093,  6, "SU100P",        x32(Xilinx32Family::UP, 1,  29360128));
    entry(t, 0x04EA1093,  6, "SU150P",        x32(Xilinx32Family::UP, 1,  57817728));
    entry(t, 0x04EA0093,  6, "SU200P",        x32(Xilinx32Family::UP, 1,  57817728));
    proof {
        assert(rows(t@) =~= rows(old(t)@) + spartan_up_rows());
    }
}

/// The rows of Artix UltraScale+.
pub open spec fn artix_up_rows() -> Seq<(u32, DeviceInfo)> {
    seq![
        // Artix US+
        row(0x04AF6093,  6, "XCAU7P",        spec_x32(Xilinx32Family::UP, 1,    767808)),
        row(0x04AC4093,  6, "XCAU10P",       spec_x32(Xilinx32Family::UP, 1,   1336968)),
        row(0x04AC2093,  6, "XCAU15P",       spec_x32(Xilinx32Family::UP, 1,   1336968)),
        row(0x04A65093,  6, "XCAU20P",       spec_x32(Xilinx32Family::UP, 1,   3857268)),
        row(0x04A64093,  6, "XCAU25P",       spec_x32(Xilinx32Family::UP, 1,   3857268)),
    ]
}

fn artix_up(t: &mut Vec<(IdCode, DeviceInfo)>)
    requires
        table_wf(old(t)@),
    ensures
        table_wf(final(t)@),
        rows(final(t)@) == rows(old(t)@) + artix_up_rows(),
{
    // Artix US+
    entry(t, 0x04AF6093,  6, "XCAU7P",        x32(Xilinx32Family::UP, 1,    767808));
    entry(t, 0x04AC4093,  6, "XCAU10P",       x32(Xilinx32Family::UP, 1,   1336968));
    entry(t, 0x04AC2093,  6, "XCAU15P",       x32(Xilinx32Family::UP, 1,   1336968));
    entry(t, 0x04A65093,  6, "XCAU20P",       x32(Xilinx32Family::UP, 1,   3857268));
    entry(t, 0x04A64093,  6, "XCAU25P",       x32(Xilinx32Family::UP, 1,   3857268));
    proof {
        assert(rows(t@) =~= rows(old(t)@) + artix_up_rows());
    }
}

/// The rows of Kintex UltraScale+.
pub open spec fn kintex_up_rows() -> Seq<(u32, DeviceInfo)> {
    seq![
        // Kintex US+
        row(0x04A63093,  6, "XCKU3P",        spec_x32(Xilinx32Family::UP, 1,   3857268)),
        row(0x04A62093,  6, "XCKU5P",        spec_x32(Xilinx32Family::UP, 1,   3857268)),
        row(0x0484A093,  6, "XCKU9P",        spec_x32(Xilinx32Family::UP, 1,   6627180)),
        row(0x04A4E093,  6, "XCKU11P",       spec_x32(Xilinx32Family::UP, 1,   5894712)),
        row(0x04A52093,  6, "XCKU13P",       spec_x32(Xilinx32Family::UP, 1,   7174671)),
        row(0x04A56093,  6, "XCKU15P",       spec_x32(Xilinx32Family::UP, 1,   9085263)),
        row(0x04ACF093,  6, "XCKU19P",       spec_x32(Xilinx32Family::UP, 1,  16310712)),
    ]
}

fn kintex_up(t: &mut Vec<(IdCode, DeviceInfo)>)
    requires
        table_wf(old(t)@),
    ensures
        table_wf(final(t)@),
        rows(final(t)@) == rows(old(t)@) + kintex_up_rows(),
{
    // Kintex US+
    entry(t, 0x04A63093,  6, "XCKU3P",        x32(Xilinx32Family::UP, 1,   3857268));
    entry(t, 0x04A62093,  6, "XCKU5P",        x32(Xilinx32Family::UP, 1,   3857268));
    entry(t, 0x0484A093,  6, "XCKU9P",        x32(Xilinx32Family::UP, 1,   6627180));
    entry(t, 0x04A4E093,  6, "XCKU11P",       x32(Xilinx32Family::UP, 1,   5894712));
    entry(t, 0x04A52093,  6, "XCKU13P",       x32(Xilinx32Family::UP, 1,   7174671));
    entry(t, 0x04A56093,  6, "XCKU15P",       x32(Xilinx32Family::UP, 1,   9085263));
    entry(t, 0x04ACF093,  6, "XCKU19P",       x32(Xilinx32Family::UP, 1,  16310712));
    proof {
        assert(rows(t@) =~= rows(old(t)@) + kintex_up_rows());
    }
}

/// The rows of Virtex UltraScale+, part 1.
pub open spec fn virtex_up_1_rows() -> Seq<(u32, DeviceInfo)> {
    seq![
        // Virtex US+ (6 IR_len)
        row(0x04B39093,  6, "XCVU3P",        spec_x32(Xilinx32Family::UP, 1,   6679260)),
        row(0x04ACE093,  6, "XCVU23P",       spec_x32(Xilinx32Family::UP, 1,  16310712)),
        row(0x04B6B093,  6, "XCVU31P",       spec_x32(Xilinx32Family::UP, 1,   7081764)),
        row(0x04B69093,  6, "XCVU33P",       spec_x32(Xilinx32Family::UP, 1,   7081764)),
        // Virtex US+ (12 IR_len)
        row(0x04B2B093, 12, "XCVU5P",        spec_x32(Xilinx32Family::UP, 2,  13358520)),
        row(0x04B29093, 12, "XCVU7P",        spec_x32(Xilinx32Family::UP, 2,  13358520)),
        row(0x04B71093, 12, "XCVU35P",       spec_x32(Xilinx32Family::UP, 2,  14163528)),
        row(0x04B73093, 12, "XCVU45P",       spec_x32(Xilinx32Family::UP, 2,  14163528)),
        // Virtex US+ (18 IR_len)
        row(0x14B31093, 18, "XCVU9P",        spec_x32(Xilinx32Family::UP, 3,  20035783)),
        row(0x14B49093, 18, "XCVU11P",       spec_x32(Xilinx32Family::UP, 3,  21245292)),
        row(0x04B79093, 18, "XCVU37P",       spec_x32(Xilinx32Family::UP, 3,  21245292)),
        row(0x04B7B093, 18, "XCVU47P",       spec_x32(Xilinx32Family::UP, 3,  21245292)),
    ]
}

fn virtex_up_1(t: &mut Vec<(IdCode, DeviceInfo)>)
    requires
        table_wf(old(t)@),
    ensures
        table_wf(final(t)@),
        rows(final(t)@) == rows(old(t)@) + virtex_up_1_rows(),
{
    // Virtex US+ (6 IR_len)
    entry(t, 0x04B39093,  6, "XCVU3P",        x32(Xilinx32Family::UP, 1,   6679260));
    entry(t, 0x04ACE093,  6, "XCVU23P",       x32(Xilinx32Family::UP, 1,  16310712));
    entry(t, 0x04B6B093,  6, "XCVU31P",       x32(Xilinx32Family::UP, 1,   7081764));
    entry(t, 0x04B69093,  6, "XCVU33P",       x32(Xilinx32Family::UP, 1,   7081764));
    // Virtex US+ (12 IR_len)
    entry(t, 0x04B2B093, 12, "XCVU5P",        x32(Xilinx32Family::UP, 2,  13358520));
    entry(t, 0x04B29093, 12, "XCVU7P",        x32(Xilinx32Family::UP, 2,  13358520));
    entry(t, 0x04B71093, 12, "XCVU35P",       x32(Xilinx32Family::UP, 2,  14163528));
    entry(t, 0x04B73093, 12, "XCVU45P",       x32(Xilinx32Family::UP, 2,  14163528));
    // Virtex US+ (18 IR_len)
    entry(t, 0x14B31093, 18, "XCVU9P",        x32(Xilinx32Family::UP, 3,  20035783));
    entry(t, 0x14B49093, 18, "XCVU11P",       x32(Xilinx32Family::UP, 3,  21245292));
    entry(t, 0x04B79093, 18, "XCVU37P",       x32(Xilinx32Family::UP, 3,  21245292));
    entry(t, 0x04B7B093, 18, "XCVU47P",       x32(Xilinx32Family::UP, 3,  21245292));
    proof {
        assert(rows(t@) =~= rows(old(t)@) + virtex_up_1_rows());
    }
}

/// The rows of Virtex UltraScale+, part 2.
pub open spec fn virtex_up_2_rows() -> Seq<(u32, DeviceInfo)> {
    seq![
        row(0x04B61093, 18, "XCVU57P",       spec_x32(Xilinx32Family::UP, 3,  21245292)),
        // Virtex US+ (24 IR_len)
        row(0x04B51093, 24, "XCVU13P",       spec_x32(Xilinx32Family::UP, 4,  28327056)),
        row(0x04BA1093, 24, "XCVU19P",       spec_x32(Xilinx32Family::UP, 4,  49775460)),
        row(0x04B43093, 24, "XCVU27P",       spec_x32(Xilinx32Family::UP, 4,  28327056)),
        row(0x04B41093, 24, "XCVU29P",       spec_x32(Xilinx32Family::UP, 4,  28327056)),
    ]
}

fn virtex_up_2(t: &mut Vec<(IdCode, DeviceInfo)>)
    requires
        table_wf(old(t)@),
    ensures
        table_wf(final(t)@),
        rows(final(t)@) == rows(old(t)@) + virtex_up_2_rows(),
{
    entry(t, 0x04B61093, 18, "XCVU57P",       x32(Xilinx32Family::UP, 3,  21245292));
    // Virtex US+ (24 IR_len)
    entry(t, 0x04B51093, 24, "XCVU13P",       x32(Xilinx32Family::UP, 4,  28327056));
    entry(t, 0x04BA1093, 24, "XCVU19P",       x32(Xilinx32Family::UP, 4,  49775460));
    entry(t, 0x04B43093, 24, "XCVU27P",       x32(Xilinx32Family::UP, 4,  28327056));
    entry(t, 0x04B41093, 24, "XCVU29P",       x32(Xilinx32Family::UP, 4,  28327056));
    proof {
        assert(rows(t@) =~= rows(old(t)@) + virtex_up_2_rows());
    }
}

/// The rows of Zynq UltraScale+, part 1.
pub open spec fn zynq_up_1_rows() -> Seq<(u32, DeviceInfo)> {
    seq![
        // Zynq US+
        row(0x04688093, 12, "XCZU1EG",       spec_x32(Xilinx32Family::ZP, 1,    742140)),
        row(0x14711093, 12, "XCZU2EG",       spec_x32(Xilinx32Family::ZP, 1,   1391652)),
        row(0x14710093, 12, "XCZU3EG",       spec_x32(Xilinx32Family::ZP, 1,   1391652)),
        row(0x04721093, 12, "XCZU4EG",       spec_x32(Xilinx32Family::ZP, 1,   1948939)),
        row(0x04720093, 12, "XCZU5EG",       spec_x32(Xilinx32Family::ZP, 1,   1948939)),
        row(0x24739093, 12, "XCZU6EG",       spec_x32(Xilinx32Family::ZP, 1,   6627180)),
        row(0x14730093, 12, "XCZU7EG",       spec_x32(Xilinx32Family::ZP, 1,   4827258)),
        row(0x24738093, 12, "XCZU9EG",       spec_x32(Xilinx32Family::ZP, 1,   6627180)),
        row(0x04740093, 12, "XCZU11EG",      spec_x32(Xilinx32Family::ZP, 1,   5894712)),
        row(0x14750093, 12, "XCZU15EG",      spec_x32(Xilinx32Family::ZP, 1,   7174671)),
        row(0x14759093, 12, "XCZU17EG",      spec_x32(Xilinx32Family::ZP, 1,   9085263)),
        row(0x14758093, 12, "XCZU19EG",      spec_x32(Xilinx32Family::ZP, 1,   9085263)),
    ]
}

fn zynq_up_1(t: &mut Vec<(IdCode, DeviceInfo)>)
    requires
        table_wf(old(t)@),
    ensures
        table_wf(final(t)@),
        rows(final(t)@) == rows(old(t)@) + zynq_up_1_rows(),
{
    // Zynq US+
    entry(t, 0x04688093, 12, "XCZU1EG",       x32(Xilinx32Family::ZP, 1,    742140));
    entry(t, 0x14711093, 12, "XCZU2EG",       x32(Xilinx32Family::ZP, 1,   1391652));
    entry(t, 0x14710093, 12, "XCZU3EG",       x32(Xilinx32Family::ZP, 1,   1391652));
    entry(t, 0x04721093, 12, "XCZU4EG",       x32(Xilinx32Family::ZP, 1,   1948939));
    entry(t, 0x04720093, 12, "XCZU5EG",       x32(Xilinx32Family::ZP, 1,   1948939));
    entry(t, 0x24739093, 12, "XCZU6EG",       x32(Xilinx32Family::ZP, 1,   6627180));
    entry(t, 0x14730093, 12, "XCZU7EG",       x32(Xilinx32Family::ZP, 1,   4827258));
    entry(t, 0x24738093, 12, "XCZU9EG",       x32(Xilinx32Family::ZP, 1,   6627180));
    entry(t, 0x04740093, 12, "XCZU11EG",      x32(Xilinx32Family::ZP, 1,   5894712));
    entry(t, 0x14750093, 12, "XCZU15EG",      x32(Xilinx32Family::ZP, 1,   7174671));
    entry(t, 0x14759093, 12, "XCZU17EG",      x32(Xilinx32Family::ZP, 1,   9085263));
    entry(t, 0x14758093, 12, "XCZU19EG",      x32(Xilinx32Family::ZP, 1,   9085263));
    proof {
        assert(rows(t@) =~= rows(old(t)@) + zynq_up_1_rows());
    }
}

/// The rows of Zynq UltraScale+, part 2.
pub open spec fn zynq_up_2_rows() -> Seq<(u32, DeviceInfo)> {
    seq![
        row(0x147E1093, 12, "XCZU21DR",      spec_x32(Xilinx32Family::ZP, 1,   8608824)),
        row(0x147E5093, 12, "XCZU25DR",      spec_x32(Xilinx32Family::ZP, 1,   8608824)),
        row(0x147E4093, 12, "XCZU27DR",      spec_x32(Xilinx32Family::ZP, 1,   8608824)),
        row(0x147E0093, 12, "XCZU28DR",      spec_x32(Xilinx32Family::ZP, 1,   8608824)),
        row(0x147E2093, 12, "XCZU29DR",      spec_x32(Xilinx32Family::ZP, 1,   8608824)),
        row(0x147E6093, 12, "XCZU39DR",      spec_x32(Xilinx32Family::ZP, 1,   8608824)),
        row(0x046D4093, 12, "XCZU42DR",      spec_x32(Xilinx32Family::ZP, 1,   5214510)),
        row(0x147FD093, 12, "XCZU43DR",      spec_x32(Xilinx32Family::ZP, 1,   8608824)),
        row(0x147F8093, 12, "XCZU46DR",      spec_x32(Xilinx32Family::ZP, 1,   8608824)),
        row(0x147FF093, 12, "XCZU47DR",      spec_x32(Xilinx32Family::ZP, 1,   8608824)),
        row(0x147FB093, 12, "XCZU48DR",      spec_x32(Xilinx32Family::ZP, 1,   8608824)),
        row(0x147FE093, 12, "XCZU49DR",      spec_x32(Xilinx32Family::ZP, 1,   8608824)),
    ]
}

fn zynq_up_2(t: &mut Vec<(IdCode, DeviceInfo)>)
    requires
        table_wf(old(t)@),
    ensures
        table_wf(final(t)@),
        rows(final(t)@) == rows(old(t)@) + zynq_up_2_rows(),
{
    entry(t, 0x147E1093, 12, "XCZU21DR",      x32(Xilinx32Family::ZP, 1,   8608824));
    entry(t, 0x147E5093, 12, "XCZU25DR",      x32(Xilinx32Family::ZP, 1,   8608824));
    entry(t, 0x147E4093, 12, "XCZU27DR",      x32(Xilinx32Family::ZP, 1,   8608824));
    entry(t, 0x147E0093, 12, "XCZU28DR",      x32(Xilinx32Family::ZP, 1,   8608824));
    entry(t, 0x147E2093, 12, "XCZU29DR",      x32(Xilinx32Family::ZP, 1,   8608824));
    entry(t, 0x147E6093, 12, "XCZU39DR",      x32(Xilinx32Family::ZP, 1,   8608824));
    entry(t, 0x046D4093, 12, "XCZU42DR",      x32(Xilinx32Family::ZP, 1,   5214510));
    entry(t, 0x147FD093, 12, "XCZU43DR",      x32(Xilinx32Family::ZP, 1,   8608824));
    entry(t, 0x147F8093, 12, "XCZU46DR",      x32(Xilinx32Family::ZP, 1,   8608824));
    entry(t, 0x147FF093, 12, "XCZU47DR",      x32(Xilinx32Family::ZP, 1,   8608824));
    entry(t, 0x147FB093, 12, "XCZU48DR",      x32(Xilinx32Family::ZP, 1,   8608824));
    entry(t, 0x147FE093, 12, "XCZU49DR",      x32(Xilinx32Family::ZP, 1,   8608824));
    proof {
        assert(rows(t@) =~= rows(old(t)@) + zynq_up_2_rows());
    }
}

/// The rows of Zynq UltraScale+, part 3.
pub open spec fn zynq_up_3_rows() -> Seq<(u32, DeviceInfo)> {
    seq![
        row(0x046D5093, 12, "XCZU63DR",      spec_x32(Xilinx32Family::ZP, 1,   5214510)),
        row(0x046D6093, 12, "XCZU64DR",      spec_x32(Xilinx32Family::ZP, 1,   5214510)),
        row(0x046D1093, 12, "XCZU65DR",      spec_x32(Xilinx32Family::ZP, 1,   5214510)),
        row(0x046D0093, 12, "XCZU67DR",      spec_x32(Xilinx32Family::ZP, 1,   5214510)),
        row(0x04718093, 12, "XCZU3TEG",      spec_x32(Xilinx32Family::ZP, 1,   1301535)),
    ]
}

fn zynq_up_3(t: &mut Vec<(IdCode, DeviceInfo)>)
    requires
        table_wf(old(t)@),
    ensures
        table_wf(final(t)@),
        rows(final(t)@) == rows(old(t)@) + zynq_up_3_rows(),
{
    entry(t, 0x046D5093, 12, "XCZU63DR",      x32(Xilinx32Family::ZP, 1,   5214510));
    entry(t, 0x046D6093, 12, "XCZU64DR",      x32(Xilinx32Family::ZP, 1,   5214510));
    entry(t, 0x046D1093, 12, "XCZU65DR",      x32(Xilinx32Family::ZP, 1,   5214510));
    entry(t, 0x046D0093, 12, "XCZU67DR",      x32(Xilinx32Family::ZP, 1,   5214510));
    entry(t, 0x04718093, 12, "XCZU3TEG",      x32(Xilinx32Family::ZP, 1,   1301535));
    proof {
        assert(rows(t@) =~= rows(old(t)@) + zynq_up_3_rows());
    }
}

/// The rows of Versal.
pub open spec fn versal_rows() -> Seq<(u32, DeviceInfo)> {
    seq![
        // Versal
        row(0x14D00093,  6, "XCVP1202",      spec_x32(Xilinx32Family::Versal, 1,         0)),
    ]
}

fn versal(t: &mut Vec<(IdCode, DeviceInfo)>)
    requires
        table_wf(old(t)@),
    ensures
        table_wf(final(t)@),
        rows(final(t)@) == rows(old(t)@) + versal_rows(),
{
    // Versal
    entry(t, 0x14D00093,  6, "XCVP1202",      x32(Xilinx32Family::Versal, 1,         0));
    proof {
        assert(rows(t@) =~= rows(old(t)@) + versal_rows());
    }
}

/// The rows of Spartan-7.
pub open spec fn spartan7_rows() -> Seq<(u32, DeviceInfo)> {
    seq![
        // Spartan-7
        row(0x03622093,  6, "XC7S6",         spec_x32(Xilinx32Family::S7, 1,    134711)),
        row(0x03620093,  6, "XC7S15",        spec_x32(Xilinx32Family::S7, 1,    134711)),
        row(0x037C4093,  6, "XC7S25",        spec_x32(Xilinx32Family::S7, 1,    310451)),
        row(0x0362F093,  6, "XC7S50",        spec_x32(Xilinx32Family::S7, 1,    548003)),
        row(0x037C8093,  6, "XC7S75",        spec_x32(Xilinx32Family::S7, 1,    921703)),
        row(0x037C7093,  6, "XC7S100",       spec_x32(Xilinx32Family::S7, 1,    921703)),
    ]
}

fn spartan7(t: &mut Vec<(IdCode, DeviceInfo)>)
    requires
        table_wf(old(t)@),
    ensures
        table_wf(final(t)@),
        rows(final(t)@) == rows(old(t)@) + spartan7_rows(),
{
    // Spartan-7
    entry(t, 0x03622093,  6, "XC7S6",         x32(Xilinx32Family::S7, 1,    134711));
    entry(t, 0x03620093,  6, "XC7S15",        x32(Xilinx32Family::S7, 1,    134711));
    entry(t, 0x037C4093,  6, "XC7S25",        x32(Xilinx32Family::S7, 1,    310451));
    entry(t, 0x0362F093,  6, "XC7S50",        x32(Xilinx32Family::S7, 1,    548003));
    entry(t, 0x037C8093,  6, "XC7S75",        x32(Xilinx32Family::S7, 1,    921703));
    entry(t, 0x037C7093,  6, "XC7S100",       x32(Xilinx32Family::S7, 1,    921703));
    proof {
        assert(rows(t@) =~= rows(old(t)@) + spartan7_rows());
    }
}

/// The rows of Artix-7.
pub open spec fn artix7_rows() -> Seq<(u32, DeviceInfo)> {
    seq![
        // Artix-7
        row(0x037C3093,  6, "XC7A12T",       spec_x32(Xilinx32Family::S7, 1,    310451)),
        row(0x0362E093,  6, "XC7A15T",       spec_x32(Xilinx32Family::S7, 1,    548003)),
        row(0x037C2093,  6, "XC7A25T",       spec_x32(Xilinx32Family::S7, 1,    310451)),
        row(0x0362D093,  6, "XC7A35T",       spec_x32(Xilinx32Family::S7, 1,    548003)),
        row(0x0362C093,  6, "XC7A50T",       spec_x32(Xilinx32Family::S7, 1,    548003)),
        row(0x03632093,  6, "XC7A75T",       spec_x32(Xilinx32Family::S7, 1,    956447)),
        row(0x03631093,  6, "XC7A100T",      spec_x32(Xilinx32Family::S7, 1,    956447)),
        row(0x03636093,  6, "XC7A200T",      spec_x32(Xilinx32Family::S7, 1,   2432663)),
    ]
}

fn artix7(t: &mut Vec<(IdCode, DeviceInfo)>)
    requires
        table_wf(old(t)@),
    ensures
        table_wf(final(t)@),
        rows(final(t)@) == rows(old(t)@) + artix7_rows(),
{
    // Artix-7
    entry(t, 0x037C3093,  6, "XC7A12T",       x32(Xilinx32Family::S7, 1,    310451));
    entry(t, 0x0362E093,  6, "XC7A15T",       x32(Xilinx32Family::S7, 1,    548003));
    entry(t, 0x037C2093,  6, "XC7A25T",       x32(Xilinx32Family::S7, 1,    310451));
    entry(t, 0x0362D093,  6, "XC7A35T",       x32(Xilinx32Family::S7, 1,    548003));
    entry(t, 0x0362C093,  6, "XC7A50T",       x32(Xilinx32Family::S7, 1,    548003));
    entry(t, 0x03632093,  6, "XC7A75T",       x32(Xilinx32Family::S7, 1,    956447));
    entry(t, 0x03631093,  6, "XC7A100T",      x32(Xilinx32Family::S7, 1,    956447));
    entry(t, 0x03636093,  6, "XC7A200T",      x32(Xilinx32Family::S7, 1,   2432663));
    proof {
        assert(rows(t@) =~= rows(old(t)@) + artix7_rows());
    }
}

/// The rows of Kintex-7.
pub open spec fn kintex7_rows() -> Seq<(u32, DeviceInfo)> {
    seq![
        // Kintex-7
        row(0x03642093,  6, "XC7K30T",       spec_x32(Xilinx32Family::S7, 1,         0)),
        row(0x03647093,  6, "XC7K70T",       spec_x32(Xilinx32Family::S7, 1,    752831)),
        row(0x0364C093,  6, "XC7K160T",      spec_x32(Xilinx32Family::S7, 1,   1673143)),
        row(0x03651093,  6, "XC7K325T",      spec_x32(Xilinx32Family::S7, 1,   2860903)),
        row(0x03747093,  6, "XC7K355T",      spec_x32(Xilinx32Family::S7, 1,   3512959)),
        row(0x03656093,  6, "XC7K410T",      spec_x32(Xilinx32Family::S7, 1,   3969479)),
        row(0x03752093,  6, "XC7K420T",      spec_x32(Xilinx32Family::S7, 1,   4683751)),
        row(0x03751093,  6, "XC7K480T",      spec_x32(Xilinx32Family::S7, 1,   4683751)),
    ]
}

fn kintex7(t: &mut Vec<(IdCode, DeviceInfo)>)
    requires
        table_wf(old(t)@),
    ensures
        table_wf(final(t)@),
        rows(final(t)@) == rows(old(t)@) + kintex7_rows(),
{
    // Kintex-7
    entry(t, 0x03642093,  6, "XC7K30T",       x32(Xilinx32Family::S7, 1,         0));
    entry(t, 0x03647093,  6, "XC7K70T",       x32(Xilinx32Family::S7, 1,    752831));
    entry(t, 0x0364C093,  6, "XC7K160T",      x32(Xilinx32Family::S7, 1,   1673143));
    entry(t, 0x03651093,  6, "XC7K325T",      x32(Xilinx32Family::S7, 1,   2860903));
    entry(t, 0x03747093,  6, "XC7K355T",      x32(Xilinx32Family::S7, 1,   3512959));
    entry(t, 0x03656093,  6, "XC7K410T",      x32(Xilinx32Family::S7, 1,   3969479));
    entry(t, 0x03752093,  6, "XC7K420T",      x32(Xilinx32Family::S7, 1,   4683751));
    entry(t, 0x03751093,  6, "XC7K480T",      x32(Xilinx32Family::S7, 1,   4683751));
    proof {
        assert(rows(t@) =~= rows(old(t)@) + kintex7_rows());
    }
}

/// The rows of Virtex-7.
pub open spec fn virtex7_rows() -> Seq<(u32, DeviceInfo)> {
    seq![
        // Virtex-7
        row(0x03671093,  6, "XC7V585T",      spec_x32(Xilinx32Family::S7, 1,   5043715)),
        row(0x036B3093, 24, "XC7V2000T",     spec_x32(Xilinx32Family::S7, 4,  13979288)),
        row(0x03667093,  6, "XC7VX330T",     spec_x32(Xilinx32Family::S7, 1,   3476195)),
        row(0x03682093,  6, "XC7VX415T",     spec_x32(Xilinx32Family::S7, 1,   4310455)),
        row(0x03687093,  6, "XC7VX485T",     spec_x32(Xilinx32Family::S7, 1,   5068359)),
        row(0x03692093,  6, "XC7VX550T",     spec_x32(Xilinx32Family::S7, 1,   7183703)),
        row(0x03691093,  6, "XC7VX690T",     spec_x32(Xilinx32Family::S7, 1,   7183703)),
        row(0x03696093,  6, "XC7VX980T",     spec_x32(Xilinx32Family::S7, 1,   8828791)),
        row(0x036D5093, 24, "XC7VX1140T",    spec_x32(Xilinx32Family::S7, 4,  12035240)),
        row(0x036D9093, 22, "XC7VH580T",     spec_x32(Xilinx32Family::S7, 3,   6114469)),
    ]
}

fn virtex7(t: &mut Vec<(IdCode, DeviceInfo)>)
    requires
        table_wf(old(t)@),
    ensures
        table_wf(final(t)@),
        rows(final(t)@) == rows(old(t)@) + virtex7_rows(),
{
    // Virtex-7
    entry(t, 0x03671093,  6, "XC7V585T",      x32(Xilinx32Family::S7, 1,   5043715));
    entry(t, 0x036B3093, 24, "XC7V2000T",     x32(Xilinx32Family::S7, 4,  13979288));
    entry(t, 0x03667093,  6, "XC7VX330T",     x32(Xilinx32Family::S7, 1,   3476195));
    entry(t, 0x03682093,  6, "XC7VX415T",     x32(Xilinx32Family::S7, 1,   4310455));
    entry(t, 0x03687093,  6, "XC7VX485T",     x32(Xilinx32Family::S7, 1,   5068359));
    entry(t, 0x03692093,  6, "XC7VX550T",     x32(Xilinx32Family::S7, 1,   7183703));
    entry(t, 0x03691093,  6, "XC7VX690T",     x32(Xilinx32Family::S7, 1,   7183703));
    entry(t, 0x03696093,  6, "XC7VX980T",     x32(Xilinx32Family::S7, 1,   8828791));
    entry(t, 0x036D5093, 24, "XC7VX1140T",    x32(Xilinx32Family::S7, 4,  12035240));
    entry(t, 0x036D9093, 22, "XC7VH580T",     x32(Xilinx32Family::S7, 3,   6114469));
    proof {
        assert(rows(t@) =~= rows(old(t)@) + virtex7_rows());
    }
}

/// The rows of Zynq-7000.
pub open spec fn zynq7_rows() -> Seq<(u32, DeviceInfo)> {
    seq![
        // Zynq-7
        row(0x03722093,  6, "XC7Z010",       spec_x32(Xilinx32Family::Z7, 1,    520935)),
        row(0x03727093,  6, "XC7Z020",       spec_x32(Xilinx32Family::Z7, 1,   1011391)),
        row(0x0372C093,  6, "XC7Z030",       spec_x32(Xilinx32Family::Z7, 1,   1494979)),
        row(0x03731093,  6, "XC7Z045",       spec_x32(Xilinx32Family::Z7, 1,   3330351)),
        row(0x03736093,  6, "XC7Z100",       spec_x32(Xilinx32Family::Z7, 1,   4354087)),
    ]
}

fn zynq7(t: &mut Vec<(IdCode, DeviceInfo)>)
    requires
        table_wf(old(t)@),
    ensures
        table_wf(final(t)@),
        rows(final(t)@) == rows(old(t)@) + zynq7_rows(),
{
    // Zynq-7
    entry(t, 0x03722093,  6, "XC7Z010",       x32(Xilinx32Family::Z7, 1,    520935));
    entry(t, 0x03727093,  6, "XC7Z020",       x32(Xilinx32Family::Z7, 1,   1011391));
    entry(t, 0x0372C093,  6, "XC7Z030",       x32(Xilinx32Family::Z7, 1,   1494979));
    entry(t, 0x03731093,  6, "XC7Z045",       x32(Xilinx32Family::Z7, 1,   3330351));
    entry(t, 0x03736093,  6, "XC7Z100",       x32(Xilinx32Family::Z7, 1,   4354087));
    proof {
        assert(rows(t@) =~= rows(old(t)@) + zynq7_rows());
    }
}

/// The rows of Spartan-6, part 1.
pub open spec fn spartan6_1_rows() -> Seq<(u32, DeviceInfo)> {
    seq![
        // Spartan-6
        row(0x04000093,  6, "XC6SLX4",       Specific::Unknown),
        row(0x04001093,  6, "XC6SLX9",       Specific::Unknown),
        row(0x04002093,  6, "XC6SLX16",      Specific::Unknown),
        row(0x04004093,  6, "XC6SLX25",      Specific::Unknown),
        row(0x04024093,  6, "XC6SLX25T",     Specific::Unknown),
        row(0x04008093,  6, "XC6SLX45",      Specific::Unknown),
        row(0x04028093,  6, "XC6SLX45T",     Specific::Unknown),
        row(0x0400E093,  6, "XC6SLX75",      Specific::Unknown),
        row(0x0402E093,  6, "XC6SLX75T",     Specific::Unknown),
        row(0x04011093,  6, "XC6SLX100",     Specific::Unknown),
        row(0x04031093,  6, "XC6SLX100T",    Specific::Unknown),
        row(0x0401D093,  6, "XC6SLX150",     Specific::Unknown),
    ]
}

fn spartan6_1(t: &mut Vec<(IdCode, DeviceInfo)>)
    requires
        table_wf(old(t)@),
    ensures
        table_wf(final(t)@),
        rows(final(t)@) == rows(old(t)@) + spartan6_1_rows(),
{
    // Spartan-6
    entry(t, 0x04000093,  6, "XC6SLX4",       Specific::Unknown);
    entry(t, 0x04001093,  6, "XC6SLX9",       Specific::Unknown);
    entry(t, 0x04002093,  6, "XC6SLX16",      Specific::Unknown);
    entry(t, 0x04004093,  6, "XC6SLX25",      Specific::Unknown);
    entry(t, 0x04024093,  6, "XC6SLX25T",     Specific::Unknown);
    entry(t, 0x04008093,  6, "XC6SLX45",      Specific::Unknown);
    entry(t, 0x04028093,  6, "XC6SLX45T",     Specific::Unknown);
    entry(t, 0x0400E093,  6, "XC6SLX75",      Specific::Unknown);
    entry(t, 0x0402E093,  6, "XC6SLX75T",     Specific::Unknown);
    entry(t, 0x04011093,  6, "XC6SLX100",     Specific::Unknown);
    entry(t, 0x04031093,  6, "XC6SLX100T",    Specific::Unknown);
    entry(t, 0x0401D093,  6, "XC6SLX150",     Specific::Unknown);
    proof {
        assert(rows(t@) =~= rows(old(t)@) + spartan6_1_rows());
    }
}

/// The rows of Spartan-6, part 2.
pub open spec fn spartan6_2_rows() -> Seq<(u32, DeviceInfo)> {
    seq![
        row(0x0403D093,  6, "XC6SLX150T",    Specific::Unknown),
    ]
}

fn spartan6_2(t: &mut Vec<(IdCode, DeviceInfo)>)
    requires
        table_wf(old(t)@),
    ensures
        table_wf(final(t)@),
        rows(final(t)@) == rows(old(t)@) + spartan6_2_rows(),
{
    entry(t, 0x0403D093,  6, "XC6SLX150T",    Specific::Unknown);
    proof {
        assert(rows(t@) =~= rows(old(t)@) + spartan6_2_rows());
    }
}

/// The rows of Virtex-6, part 1.
pub open spec fn virtex6_1_rows() -> Seq<(u32, DeviceInfo)> {
    seq![
        // Virtex-6
        row(0x042A2093, 10, "XC6HX250T",     Specific::Unknown),
        row(0x042A4093, 10, "XC6HX255T",     Specific::Unknown),
        row(0x042A8093, 10, "XC6HX380T",     Specific::Unknown),
        row(0x042AC093, 10, "XC6HX565T",     Specific::Unknown),
        row(0x04244093, 10, "XC6VLX75T",     Specific::Unknown),
        row(0x0424A093, 10, "XC6VLX130T",    Specific::Unknown),
        row(0x0424C093, 10, "XC6VLX195T",    Specific::Unknown),
        row(0x04250093, 10, "XC6VLX240T",    Specific::Unknown),
        row(0x04252093, 10, "XC6VLX365T",    Specific::Unknown),
        row(0x04256093, 10, "XC6VLX550T",    Specific::Unknown),
        row(0x0423A093, 10, "XC6VLX760",     Specific::Unknown),
        row(0x04286093, 10, "XC6VSX315T",    Specific::Unknown),
    ]
}

fn virtex6_1(t: &mut Vec<(IdCode, DeviceInfo)>)
    requires
        table_wf(old(t)@),
    ensures
        table_wf(final(t)@),
        rows(final(t)@) == rows(old(t)@) + virtex6_1_rows(),
{
    // Virtex-6
    entry(t, 0x042A2093, 10, "XC6HX250T",     Specific::Unknown);
    entry(t, 0x042A4093, 10, "XC6HX255T",     Specific::Unknown);
    entry(t, 0x042A8093, 10, "XC6HX380T",     Specific::Unknown);
    entry(t, 0x042AC093, 10, "XC6HX565T",     Specific::Unknown);
    entry(t, 0x04244093, 10, "XC6VLX75T",     Specific::Unknown);
    entry(t, 0x0424A093, 10, "XC6VLX130T",    Specific::Unknown);
    entry(t, 0x0424C093, 10, "XC6VLX195T",    Specific::Unknown);
    entry(t, 0x04250093, 10, "XC6VLX240T",    Specific::Unknown);
    entry(t, 0x04252093, 10, "XC6VLX365T",    Specific::Unknown);
    entry(t, 0x04256093, 10, "XC6VLX550T",    Specific::Unknown);
    entry(t, 0x0423A093, 10, "XC6VLX760",     Specific::Unknown);
    entry(t, 0x04286093, 10, "XC6VSX315T",    Specific::Unknown);
    proof {
        assert(rows(t@) =~= rows(old(t)@) + virtex6_1_rows());
    }
}

/// The rows of Virtex-6, part 2.
pub open spec fn virtex6_2_rows() -> Seq<(u32, DeviceInfo)> {
    seq![
        row(0x04288093, 10, "XC6VSX475T",    Specific::Unknown),
        row(0x042C4093, 10, "XC6VCX75T",     Specific::Unknown),
        row(0x042CA093, 10, "XC6VCX130T",    Specific::Unknown),
        row(0x042CC093, 10, "XC6VCX195T",    Specific::Unknown),
        row(0x042D0093, 10, "XC6VCX240T",    Specific::Unknown),
    ]
}

fn virtex6_2(t: &mut Vec<(IdCode, DeviceInfo)>)
    requires
        table_wf(old(t)@),
    ensures
        table_wf(final(t)@),
        rows(final(t)@) == rows(old(t)@) + virtex6_2_rows(),
{
    entry(t, 0x04288093, 10, "XC6VSX475T",    Specific::Unknown);
    entry(t, 0x042C4093, 10, "XC6VCX75T",     Specific::Unknown);
    entry(t, 0x042CA093, 10, "XC6VCX130T",    Specific::Unknown);
    entry(t, 0x042CC093, 10, "XC6VCX195T",    Specific::Unknown);
    entry(t, 0x042D0093, 10, "XC6VCX240T",    Specific::Unknown);
    proof {
        assert(rows(t@) =~= rows(old(t)@) + virtex6_2_rows());
    }
}

/// The rows of Virtex-5, part 1.
pub open spec fn virtex5_1_rows() -> Seq<(u32, DeviceInfo)> {
    seq![
        // Virtex-5
        row(0x0286E093, 10, "XC5VLX30",      Specific::Unknown),
        row(0x02896093, 10, "XC5VLX50",      Specific::Unknown),
        row(0x028AE093, 10, "XC5VLX85",      Specific::Unknown),
        row(0x028D6093, 10, "XC5VLX110",     Specific::Unknown),
        row(0x028EC093, 10, "XC5VLX155",     Specific::Unknown),
        row(0x0290C093, 10, "XC5VLX220",     Specific::Unknown),
        row(0x0295C095, 10, "XC5VLX330",     Specific::Unknown),
        row(0x02A56093, 10, "XC5VLX20T",     Specific::Unknown),
        row(0x02A6E093, 10, "XC5VLX30T",     Specific::Unknown),
        row(0x02A96093, 10, "XC5VLX50T",     Specific::Unknown),
        row(0x02AAE093, 10, "XC5VLX85T",     Specific::Unknown),
        row(0x02AD6093, 10, "XC5VLX110T",    Specific::Unknown),
    ]
}

fn virtex5_1(t: &mut Vec<(IdCode, DeviceInfo)>)
    requires
        table_wf(old(t)@),
    ensures
        table_wf(final(t)@),
        rows(final(t)@) == rows(old(t)@) + virtex5_1_rows(),
{
    // Virtex-5
    entry(t, 0x0286E093, 10, "XC5VLX30",      Specific::Unknown);
    entry(t, 0x02896093, 10, "XC5VLX50",      Specific::Unknown);
    entry(t, 0x028AE093, 10, "XC5VLX85",      Specific::Unknown);
    entry(t, 0x028D6093, 10, "XC5VLX110",     Specific::Unknown);
    entry(t, 0x028EC093, 10, "XC5VLX155",     Specific::Unknown);
    entry(t, 0x0290C093, 10, "XC5VLX220",     Specific::Unknown);
    entry(t, 0x0295C095, 10, "XC5VLX330",     Specific::Unknown);
    entry(t, 0x02A56093, 10, "XC5VLX20T",     Specific::Unknown);
    entry(t, 0x02A6E093, 10, "XC5VLX30T",     Specific::Unknown);
    entry(t, 0x02A96093, 10, "XC5VLX50T",     Specific::Unknown);
    entry(t, 0x02AAE093, 10, "XC5VLX85T",     Specific::Unknown);
    entry(t, 0x02AD6093, 10, "XC5VLX110T",    Specific::Unknown);
    proof {
        assert(rows(t@) =~= rows(old(t)@) + virtex5_1_rows());
    }
}

/// The rows of Virtex-5, part 2.
pub open spec fn virtex5_2_rows() -> Seq<(u32, DeviceInfo)> {
    seq![
        row(0x02AEC093, 10, "XC5VLX155T",    Specific::Unknown),
        row(0x02B0C093, 10, "XC5VLX220T",    Specific::Unknown),
        row(0x02B5C093, 10, "XC5VLX330T",    Specific::Unknown),
        row(0x04502093, 10, "XC5VTX150T",    Specific::Unknown),
        row(0x0453E093, 10, "XC5VTX240T",    Specific::Unknown),
        row(0x03276093, 10, "XC5VFX30T",     Specific::Unknown),
        row(0x032C6093, 10, "XC5VFX70T",     Specific::Unknown),
        row(0x032D8093, 14, "XC5VFX100T",    Specific::Unknown),
        row(0x03300093, 14, "XC5VFX130T",    Specific::Unknown),
        row(0x03334093, 14, "XC5VFX200T",    Specific::Unknown),
        row(0x02E72093, 10, "XC5VSX35T",     Specific::Unknown),
        row(0x02E9A093, 10, "XC5VSX50T",     Specific::Unknown),
    ]
}

fn virtex5_2(t: &mut Vec<(IdCode, DeviceInfo)>)
    requires
        table_wf(old(t)@),
    ensures
        table_wf(final(t)@),
        rows(final(t)@) == rows(old(t)@) + virtex5_2_rows(),
{
    entry(t, 0x02AEC093, 10, "XC5VLX155T",    Specific::Unknown);
    entry(t, 0x02B0C093, 10, "XC5VLX220T",    Specific::Unknown);
    entry(t, 0x02B5C093, 10, "XC5VLX330T",    Specific::Unknown);
    entry(t, 0x04502093, 10, "XC5VTX150T",    Specific::Unknown);
    entry(t, 0x0453E093, 10, "XC5VTX240T",    Specific::Unknown);
    entry(t, 0x03276093, 10, "XC5VFX30T",     Specific::Unknown);
    entry(t, 0x032C6093, 10, "XC5VFX70T",     Specific::Unknown);
    entry(t, 0x032D8093, 14, "XC5VFX100T",    Specific::Unknown);
    entry(t, 0x03300093, 14, "XC5VFX130T",    Specific::Unknown);
    entry(t, 0x03334093, 14, "XC5VFX200T",    Specific::Unknown);
    entry(t, 0x02E72093, 10, "XC5VSX35T",     Specific::Unknown);
    entry(t, 0x02E9A093, 10, "XC5VSX50T",     Specific::Unknown);
    proof {
        assert(rows(t@) =~= rows(old(t)@) + virtex5_2_rows());
    }
}

/// The rows of Virtex-5, part 3.
pub open spec fn virtex5_3_rows() -> Seq<(u32, DeviceInfo)> {
    seq![
        row(0x02ECE093, 10, "XC5VSX95T",     Specific::Unknown),
        row(0x02F3E093, 10, "XC5VSX260T",    Specific::Unknown),
    ]
}

fn virtex5_3(t: &mut Vec<(IdCode, DeviceInfo)>)
    requires
        table_wf(old(t)@),
    ensures
        table_wf(final(t)@),
        rows(final(t)@) == rows(old(t)@) + virtex5_3_rows(),
{
    entry(t, 0x02ECE093, 10, "XC5VSX95T",     Specific::Unknown);
    entry(t, 0x02F3E093, 10, "XC5VSX260T",    Specific::Unknown);
    proof {
        assert(rows(t@) =~= rows(old(t)@) + virtex5_3_rows());
    }
}

/// The rows of Virtex-4, part 1.
pub open spec fn virtex4_1_rows() -> Seq<(u32, DeviceInfo)> {
    seq![
        // Virtex-4
        row(0x01658093, 10, "XC4VLX15",      Specific::Unknown),
        row(0x0167C093, 10, "XC4VLX25",      Specific::Unknown),
        row(0x016A4093, 10, "XC4VLX40",      Specific::Unknown),
        row(0x016B4093, 10, "XC4VLX60",      Specific::Unknown),
        row(0x016D8093, 10, "XC4VLX80",      Specific::Unknown),
        row(0x01700093, 10, "XC4VLX100",     Specific::Unknown),
        row(0x01718093, 10, "XC4VLX160",     Specific::Unknown),
        row(0x01734093, 10, "XC4VLX200",     Specific::Unknown),
        row(0x02068093, 10, "XC4VSX25",      Specific::Unknown),
        row(0x02088093, 10, "XC4VSX35",      Specific::Unknown),
        row(0x020B0093, 10, "XC4VSX55",      Specific::Unknown),
        row(0x01E58093, 10, "XC4VFX12",      Specific::Unknown),
    ]
}

fn virtex4_1(t: &mut Vec<(IdCode, DeviceInfo)>)
    requires
        table_wf(old(t)@),
    ensures
        table_wf(final(t)@),
        rows(final(t)@) == rows(old(t)@) + virtex4_1_rows(),
{
    // Virtex-4
    entry(t, 0x01658093, 10, "XC4VLX15",      Specific::Unknown);
    entry(t, 0x0167C093, 10, "XC4VLX25",      Specific::Unknown);
    entry(t, 0x016A4093, 10, "XC4VLX40",      Specific::Unknown);
    entry(t, 0x016B4093, 10, "XC4VLX60",      Specific::Unknown);
    entry(t, 0x016D8093, 10, "XC4VLX80",      Specific::Unknown);
    entry(t, 0x01700093, 10, "XC4VLX100",     Specific::Unknown);
    entry(t, 0x01718093, 10, "XC4VLX160",     Specific::Unknown);
    entry(t, 0x01734093, 10, "XC4VLX200",     Specific::Unknown);
    entry(t, 0x02068093, 10, "XC4VSX25",      Specific::Unknown);
    entry(t, 0x02088093, 10, "XC4VSX35",      Specific::Unknown);
    entry(t, 0x020B0093, 10, "XC4VSX55",      Specific::Unknown);
    entry(t, 0x01E58093, 10, "XC4VFX12",      Specific::Unknown);
    proof {
        assert(rows(t@) =~= rows(old(t)@) + virtex4_1_rows());
    }
}

/// The rows of Virtex-4, part 2.
pub open spec fn virtex4_2_rows() -> Seq<(u32, DeviceInfo)> {
    seq![
        row(0x01E64093, 10, "XC4VFX20",      Specific::Unknown),
        row(0x01E8C093, 14, "XC4VFX40",      Specific::Unknown),
        row(0x01EB4093, 14, "XC4VFX60",      Specific::Unknown),
        row(0x01EE4093, 14, "XC4VFX100",     Specific::Unknown),
        row(0x01f14093, 14, "XC4VFX140",     Specific::Unknown),
    ]
}

fn virtex4_2(t: &mut Vec<(IdCode, DeviceInfo)>)
    requires
        table_wf(old(t)@),
    ensures
        table_wf(final(t)@),
        rows(final(t)@) == rows(old(t)@) + virtex4_2_rows(),
{
    entry(t, 0x01E64093, 10, "XC4VFX20",      Specific::Unknown);
    entry(t, 0x01E8C093, 14, "XC4VFX40",      Specific::Unknown);
    entry(t, 0x01EB4093, 14, "XC4VFX60",      Specific::Unknown);
    entry(t, 0x01EE4093, 14, "XC4VFX100",     Specific::Unknown);
    entry(t, 0x01f14093, 14, "XC4VFX140",     Specific::Unknown);
    proof {
        assert(rows(t@) =~= rows(old(t)@) + virtex4_2_rows());
    }
}

/// The rows of Spartan-3, part 1.
pub open spec fn spartan3_1_rows() -> Seq<(u32, DeviceInfo)> {
    seq![
        // Spartan-3
        row(0x0140D093,  6, "XC3S50",        Specific::Unknown),
        row(0x01414093,  6, "XC3S200",       Specific::Unknown),
        row(0x0141C093,  6, "XC3S400",       Specific::Unknown),
        row(0x01428093,  6, "XC3S1000",      Specific::Unknown),
        row(0x01434093,  6, "XC3S1500",      Specific::Unknown),
        row(0x01440093,  6, "XC3S2000",      Specific::Unknown),
        row(0x01448093,  6, "XC3S4000",      Specific::Unknown),
        row(0x01450093,  6, "XC3S5000",      Specific::Unknown),
        row(0x01C10093,  6, "XC3S100E",      Specific::Unknown),
        row(0x01C1A093,  6, "XC3S250E",      Specific::Unknown),
        row(0x01C22093,  6, "XC3S500E",      Specific::Unknown),
        row(0x01C2E093,  6, "XC3S1200E",     Specific::Unknown),
    ]
}

fn spartan3_1(t: &mut Vec<(IdCode, DeviceInfo)>)
    requires
        table_wf(old(t)@),
    ensures
        table_wf(final(t)@),
        rows(final(t)@) == rows(old(t)@) + spartan3_1_rows(),
{
    // Spartan-3
    entry(t, 0x0140D093,  6, "XC3S50",        Specific::Unknown);
    entry(t, 0x01414093,  6, "XC3S200",       Specific::Unknown);
    entry(t, 0x0141C093,  6, "XC3S400",       Specific::Unknown);
    entry(t, 0x01428093,  6, "XC3S1000",      Specific::Unknown);
    entry(t, 0x01434093,  6, "XC3S1500",      Specific::Unknown);
    entry(t, 0x01440093,  6, "XC3S2000",      Specific::Unknown);
    entry(t, 0x01448093,  6, "XC3S4000",      Specific::Unknown);
    entry(t, 0x01450093,  6, "XC3S5000",      Specific::Unknown);
    entry(t, 0x01C10093,  6, "XC3S100E",      Specific::Unknown);
    entry(t, 0x01C1A093,  6, "XC3S250E",      Specific::Unknown);
    entry(t, 0x01C22093,  6, "XC3S500E",      Specific::Unknown);
    entry(t, 0x01C2E093,  6, "XC3S1200E",     Specific::Unknown);
    proof {
        assert(rows(t@) =~= rows(old(t)@) + spartan3_1_rows());
    }
}

/// The rows of Spartan-3, part 2.
pub open spec fn spartan3_2_rows() -> Seq<(u32, DeviceInfo)> {
    seq![
        row(0x01C3A093,  6, "XC3S1600E",     Specific::Unknown),
        row(0x02210093,  6, "XC3S50A",       Specific::Unknown),
        row(0x02218093,  6, "XC3S200A",      Specific::Unknown),
        row(0x02220093,  6, "XC3S400A",      Specific::Unknown),
        row(0x02228093,  6, "XC3S700A",      Specific::Unknown),
        row(0x02230093,  6, "XC3S1400A",     Specific::Unknown),
        row(0x02610093,  6, "XC3S50AN",      Specific::Unknown),
        row(0x02618093,  6, "XC3S200AN",     Specific::Unknown),
        row(0x02620093,  6, "XC3S400AN",     Specific::Unknown),
        row(0x02628093,  6, "XC3S700AN",     Specific::Unknown),
        row(0x02630093,  6, "XC3S1400AN",    Specific::Unknown),
        row(0x03840093,  6, "XC3SD1800",     Specific::Unknown),
    ]
}

fn spartan3_2(t: &mut Vec<(IdCode, DeviceInfo)>)
    requires
        table_wf(old(t)@),
    ensures
        table_wf(final(t)@),
        rows(final(t)@) == rows(old(t)@) + spartan3_2_rows(),
{
    entry(t, 0x01C3A093,  6, "XC3S1600E",     Specific::Unknown);
    entry(t, 0x02210093,  6, "XC3S50A",       Specific::Unknown);
    entry(t, 0x02218093,  6, "XC3S200A",      Specific::Unknown);
    entry(t, 0x02220093,  6, "XC3S400A",      Specific::Unknown);
    entry(t, 0x02228093,  6, "XC3S700A",      Specific::Unknown);
    entry(t, 0x02230093,  6, "XC3S1400A",     Specific::Unknown);
    entry(t, 0x02610093,  6, "XC3S50AN",      Specific::Unknown);
    entry(t, 0x02618093,  6, "XC3S200AN",     Specific::Unknown);
    entry(t, 0x02620093,  6, "XC3S400AN",     Specific::Unknown);
    entry(t, 0x02628093,  6, "XC3S700AN",     Specific::Unknown);
    entry(t, 0x02630093,  6, "XC3S1400AN",    Specific::Unknown);
    entry(t, 0x03840093,  6, "XC3SD1800",     Specific::Unknown);
    proof {
        assert(rows(t@) =~= rows(old(t)@) + spartan3_2_rows());
    }
}

/// The rows of Spartan-3, part 3.
pub open spec fn spartan3_3_rows() -> Seq<(u32, DeviceInfo)> {
    seq![
        row(0x0384E093,  6, "XC3SD3400",     Specific::Unknown),
    ]
}

fn spartan3_3(t: &mut Vec<(IdCode, DeviceInfo)>)
    requires
        table_wf(old(t)@),
    ensures
        table_wf(final(t)@),
        rows(final(t)@) == rows(old(t)@) + spartan3_3_rows(),
{
    entry(t, 0x0384E093,  6, "XC3SD3400",     Specific::Unknown);
    proof {
        assert(rows(t@) =~= rows(old(t)@) + spartan3_3_rows());
    }
}

/// The rows of Virtex-II, part 1.
pub open spec fn virtex2_1_rows() -> Seq<(u32, DeviceInfo)> {
    seq![
        // Virtex-2
        row(0x01008093,  6, "XC2V40",        Specific::Unknown),
        row(0x01010093,  6, "XC2V80",        Specific::Unknown),
        row(0x01018093,  6, "XC2V250",       Specific::Unknown),
        row(0x01020093,  6, "XC2V500",       Specific::Unknown),
        row(0x01028093,  6, "XC2V1000",      Specific::Unknown),
        row(0x01030093,  6, "XC2V1500",      Specific::Unknown),
        row(0x01038093,  6, "XC2V2000",      Specific::Unknown),
        row(0x01040093,  6, "XC2V3000",      Specific::Unknown),
        row(0x01050093,  6, "XC2V4000",      Specific::Unknown),
        row(0x01060093,  6, "XC2V6000",      Specific::Unknown),
        row(0x01070093,  6, "XC2V8000",      Specific::Unknown),
        row(0x00608093,  5, "XC2S15",        Specific::Unknown),
    ]
}

fn virtex2_1(t: &mut Vec<(IdCode, DeviceInfo)>)
    requires
        table_wf(old(t)@),
    ensures
        table_wf(final(t)@),
        rows(final(t)@) == rows(old(t)@) + virtex2_1_rows(),
{
    // Virtex-2
    entry(t, 0x01008093,  6, "XC2V40",        Specific::Unknown);
    entry(t, 0x01010093,  6, "XC2V80",        Specific::Unknown);
    entry(t, 0x01018093,  6, "XC2V250",       Specific::Unknown);
    entry(t, 0x01020093,  6, "XC2V500",       Specific::Unknown);
    entry(t, 0x01028093,  6, "XC2V1000",      Specific::Unknown);
    entry(t, 0x01030093,  6, "XC2V1500",      Specific::Unknown);
    entry(t, 0x01038093,  6, "XC2V2000",      Specific::Unknown);
    entry(t, 0x01040093,  6, "XC2V3000",      Specific::Unknown);
    entry(t, 0x01050093,  6, "XC2V4000",      Specific::Unknown);
    entry(t, 0x01060093,  6, "XC2V6000",      Specific::Unknown);
    entry(t, 0x01070093,  6, "XC2V8000",      Specific::Unknown);
    entry(t, 0x00608093,  5, "XC2S15",        Specific::Unknown);
    proof {
        assert(rows(t@) =~= rows(old(t)@) + virtex2_1_rows());
    }
}

/// The rows of Virtex-II, part 2.
pub open spec fn virtex2_2_rows() -> Seq<(u32, DeviceInfo)> {
    seq![
        row(0x0060C093,  5, "XC2S30",        Specific::Unknown),
        row(0x00610093,  5, "XC2S50",        Specific::Unknown),
        row(0x00614093,  5, "XC2S100",       Specific::Unknown),
        row(0x00618093,  5, "XC2S150",       Specific::Unknown),
        row(0x0061C093,  5, "XC2S200",       Specific::Unknown),
    ]
}

fn virtex2_2(t: &mut Vec<(IdCode, DeviceInfo)>)
    requires
        table_wf(old(t)@),
    ensures
        table_wf(final(t)@),
        rows(final(t)@) == rows(old(t)@) + virtex2_2_rows(),
{
    entry(t, 0x0060C093,  5, "XC2S30",        Specific::Unknown);
    entry(t, 0x00610093,  5, "XC2S50",        Specific::Unknown);
    entry(t, 0x00614093,  5, "XC2S100",       Specific::Unknown);
    entry(t, 0x00618093,  5, "XC2S150",       Specific::Unknown);
    entry(t, 0x0061C093,  5, "XC2S200",       Specific::Unknown);
    proof {
        assert(rows(t@) =~= rows(old(t)@) + virtex2_2_rows());
    }
}

/// The rows of XC9500XL.
pub open spec fn xc95xl_rows() -> Seq<(u32, DeviceInfo)> {
    seq![
        // XC95XL
        row(0x09602093,  8, "XC9536XL",      Specific::Unknown),
        row(0x09604093,  8, "XC9572XL",      Specific::Unknown),
        row(0x09608093,  8, "XC95144XL",     Specific::Unknown),
        row(0x09616093,  8, "XC95288XL",     Specific::Unknown),
    ]
}

fn xc95xl(t: &mut Vec<(IdCode, DeviceInfo)>)
    requires
        table_wf(old(t)@),
    ensures
        table_wf(final(t)@),
        rows(final(t)@) == rows(old(t)@) + xc95xl_rows(),
{
    // XC95XL
    entry(t, 0x09602093,  8, "XC9536XL",      Specific::Unknown);
    entry(t, 0x09604093,  8, "XC9572XL",      Specific::Unknown);
    entry(t, 0x09608093,  8, "XC95144XL",     Specific::Unknown);
    entry(t, 0x09616093,  8, "XC95288XL",     Specific::Unknown);
    proof {
        assert(rows(t@) =~= rows(old(t)@) + xc95xl_rows());
    }
}

/// The rows of XC9500XV.
pub open spec fn xc95xv_rows() -> Seq<(u32, DeviceInfo)> {
    seq![
        // XC95XV
        row(0x09702093,  8, "XC9536XV",      Specific::Unknown),
        row(0x09704093,  8, "XC9572XV",      Specific::Unknown),
        row(0x09708093,  8, "XC95144XV",     Specific::Unknown),
        row(0x09716093,  8, "XC95288XV",     Specific::Unknown),
    ]
}

fn xc95xv(t: &mut Vec<(IdCode, DeviceInfo)>)
    requires
        table_wf(old(t)@),
    ensures
        table_wf(final(t)@),
        rows(final(t)@) == rows(old(t)@) + xc95xv_rows(),
{
    // XC95XV
    entry(t, 0x09702093,  8, "XC9536XV",      Specific::Unknown);
    entry(t, 0x09704093,  8, "XC9572XV",      Specific::Unknown);
    entry(t, 0x09708093,  8, "XC95144XV",     Specific::Unknown);
    entry(t, 0x09716093,  8, "XC95288XV",     Specific::Unknown);
    proof {
        assert(rows(t@) =~= rows(old(t)@) + xc95xv_rows());
    }
}

/// The rows of CoolRunner-II, part 1.
pub open spec fn xc2c_1_rows() -> Seq<(u32, DeviceInfo)> {
    seq![
        // XC2C
        row(0x06C1C093,  8, "XC2C32_VQ44",   Specific::Unknown),
        row(0x06C1D093,  8, "XC2C32_PC44_64", Specific::Unknown),
        row(0x06C1B093,  8, "XC2C32A_QF32",  Specific::Unknown),
        row(0x06D1D093,  8, "XC2C32A_PC44",  Specific::Unknown),
        row(0x06E1B093,  8, "XC2C32A_CP56",  Specific::Unknown),
        row(0x06E1C093,  8, "XC2C32A_VQ44",  Specific::Unknown),
        row(0x06E1D093,  8, "XC2C32A_PC44_64", Specific::Unknown),
        row(0x06C5A093,  8, "XC2C64_PC44",   Specific::Unknown),
        row(0x06C5B093,  8, "XC2C64_CP132",  Specific::Unknown),
        row(0x06C5C093,  8, "XC2C64_VQ100",  Specific::Unknown),
        row(0x06C5D093,  8, "XC2C64_CP56",   Specific::Unknown),
        row(0x06C5E093,  8, "XC2C64_VQ44",   Specific::Unknown),
    ]
}

fn xc2c_1(t: &mut Vec<(IdCode, DeviceInfo)>)
    requires
        table_wf(old(t)@),
    ensures
        table_wf(final(t)@),
        rows(final(t)@) == rows(old(t)@) + xc2c_1_rows(),
{
    // XC2C
    entry(t, 0x06C1C093,  8, "XC2C32_VQ44",   Specific::Unknown);
    entry(t, 0x06C1D093,  8, "XC2C32_PC44_64", Specific::Unknown);
    entry(t, 0x06C1B093,  8, "XC2C32A_QF32",  Specific::Unknown);
    entry(t, 0x06D1D093,  8, "XC2C32A_PC44",  Specific::Unknown);
    entry(t, 0x06E1B093,  8, "XC2C32A_CP56",  Specific::Unknown);
    entry(t, 0x06E1C093,  8, "XC2C32A_VQ44",  Specific::Unknown);
    entry(t, 0x06E1D093,  8, "XC2C32A_PC44_64", Specific::Unknown);
    entry(t, 0x06C5A093,  8, "XC2C64_PC44",   Specific::Unknown);
    entry(t, 0x06C5B093,  8, "XC2C64_CP132",  Specific::Unknown);
    entry(t, 0x06C5C093,  8, "XC2C64_VQ100",  Specific::Unknown);
    entry(t, 0x06C5D093,  8, "XC2C64_CP56",   Specific::Unknown);
    entry(t, 0x06C5E093,  8, "XC2C64_VQ44",   Specific::Unknown);
    proof {
        assert(rows(t@) =~= rows(old(t)@) + xc2c_1_rows());
    }
}

/// The rows of CoolRunner-II, part 2.
pub open spec fn xc2c_2_rows() -> Seq<(u32, DeviceInfo)> {
    seq![
        row(0x06E59093,  8, "XC2C64A_QF48",  Specific::Unknown),
        row(0x06E5A093,  8, "XC2C64A_PC44",  Specific::Unknown),
        row(0x06E5B093,  8, "XC2C64A_CP132", Specific::Unknown),
        row(0x06E5C093,  8, "XC2C64A_VQ100", Specific::Unknown),
        row(0x06E5D093,  8, "XC2C64A_CP56",  Specific::Unknown),
        row(0x06E5E093,  8, "XC2C64A_VQ44",  Specific::Unknown),
        row(0x06D8A093,  8, "XC2C128_VQ100", Specific::Unknown),
        row(0x06D8B093,  8, "XC2C128_CP132", Specific::Unknown),
        row(0x06D8C093,  8, "XC2C128_TQ144", Specific::Unknown),
        row(0x06D8E093,  8, "XC2C128_FT256", Specific::Unknown),
        row(0x06D4A093,  8, "XC2C256_VQ100", Specific::Unknown),
        row(0x06D4B093,  8, "XC2C256_CP132", Specific::Unknown),
    ]
}

fn xc2c_2(t: &mut Vec<(IdCode, DeviceInfo)>)
    requires
        table_wf(old(t)@),
    ensures
        table_wf(final(t)@),
        rows(final(t)@) == rows(old(t)@) + xc2c_2_rows(),
{
    entry(t, 0x06E59093,  8, "XC2C64A_QF48",  Specific::Unknown);
    entry(t, 0x06E5A093,  8, "XC2C64A_PC44",  Specific::Unknown);
    entry(t, 0x06E5B093,  8, "XC2C64A_CP132", Specific::Unknown);
    entry(t, 0x06E5C093,  8, "XC2C64A_VQ100", Specific::Unknown);
    entry(t, 0x06E5D093,  8, "XC2C64A_CP56",  Specific::Unknown);
    entry(t, 0x06E5E093,  8, "XC2C64A_VQ44",  Specific::Unknown);
    entry(t, 0x06D8A093,  8, "XC2C128_VQ100", Specific::Unknown);
    entry(t, 0x06D8B093,  8, "XC2C128_CP132", Specific::Unknown);
    entry(t, 0x06D8C093,  8, "XC2C128_TQ144", Specific::Unknown);
    entry(t, 0x06D8E093,  8, "XC2C128_FT256", Specific::Unknown);
    entry(t, 0x06D4A093,  8, "XC2C256_VQ100", Specific::Unknown);
    entry(t, 0x06D4B093,  8, "XC2C256_CP132", Specific::Unknown);
    proof {
        assert(rows(t@) =~= rows(old(t)@) + xc2c_2_rows());
    }
}

/// The rows of CoolRunner-II, part 3.
pub open spec fn xc2c_3_rows() -> Seq<(u32, DeviceInfo)> {
    seq![
        row(0x06D4C093,  8, "XC2C256_TQ144", Specific::Unknown),
        row(0x06D4D093,  8, "XC2C256_PQ208", Specific::Unknown),
        row(0x06D4E093,  8, "XC2C256_FT256", Specific::Unknown),
        row(0x06D5A093,  8, "XC2C384_FG324", Specific::Unknown),
        row(0x06D5B093,  8, "XC2C384_CP204", Specific::Unknown),
        row(0x06D5C093,  8, "XC2C384_TQ144", Specific::Unknown),
        row(0x06D5D093,  8, "XC2C384_PQ208", Specific::Unknown),
        row(0x06D5E093,  8, "XC2C384_FT256", Specific::Unknown),
        row(0x06D7A093,  8, "XC2C512_FG324", Specific::Unknown),
        row(0x06D7C093,  8, "XC2C512_PQ208", Specific::Unknown),
        row(0x06D7E093,  8, "XC2C512_FT256", Specific::Unknown),
    ]
}

fn xc2c_3(t: &mut Vec<(IdCode, DeviceInfo)>)
    requires
        table_wf(old(t)@),
    ensures
        table_wf(final(t)@),
        rows(final(t)@) == rows(old(t)@) + xc2c_3_rows(),
{
    entry(t, 0x06D4C093,  8, "XC2C256_TQ144", Specific::Unknown);
    entry(t, 0x06D4D093,  8, "XC2C256_PQ208", Specific::Unknown);
    entry(t, 0x06D4E093,  8, "XC2C256_FT256", Specific::Unknown);
    entry(t, 0x06D5A093,  8, "XC2C384_FG324", Specific::Unknown);
    entry(t, 0x06D5B093,  8, "XC2C384_CP204", Specific::Unknown);
    entry(t, 0x06D5C093,  8, "XC2C384_TQ144", Specific::Unknown);
    entry(t, 0x06D5D093,  8, "XC2C384_PQ208", Specific::Unknown);
    entry(t, 0x06D5E093,  8, "XC2C384_FT256", Specific::Unknown);
    entry(t, 0x06D7A093,  8, "XC2C512_FG324", Specific::Unknown);
    entry(t, 0x06D7C093,  8, "XC2C512_PQ208", Specific::Unknown);
    entry(t, 0x06D7E093,  8, "XC2C512_FT256", Specific::Unknown);
    proof {
        assert(rows(t@) =~= rows(old(t)@) + xc2c_3_rows());
    }
}

/// The rows of XC9500.
pub open spec fn xc95_rows() -> Seq<(u32, DeviceInfo)> {
    seq![
        // XC95
        row(0x09502093,  8, "XC9536",        Specific::Unknown),
        row(0x09504093,  8, "XC9572",        Specific::Unknown),
        row(0x09506093,  8, "XC95108",       Specific::Unknown),
        row(0x09508093,  8, "XC95144",       Specific::Unknown),
        row(0x09512093,  8, "XC95216",       Specific::Unknown),
        row(0x09516093,  8, "XC95288",       Specific::Unknown),
    ]
}

fn xc95(t: &mut Vec<(IdCode, DeviceInfo)>)
    requires
        table_wf(old(t)@),
    ensures
        table_wf(final(t)@),
        rows(final(t)@) == rows(old(t)@) + xc95_rows(),
{
    // XC95
    entry(t, 0x09502093,  8, "XC9536",        Specific::Unknown);
    entry(t, 0x09504093,  8, "XC9572",        Specific::Unknown);
    entry(t, 0x09506093,  8, "XC95108",       Specific::Unknown);
    entry(t, 0x09508093,  8, "XC95144",       Specific::Unknown);
    entry(t, 0x09512093,  8, "XC95216",       Specific::Unknown);
    entry(t, 0x09516093,  8, "XC95288",       Specific::Unknown);
    proof {
        assert(rows(t@) =~= rows(old(t)@) + xc95_rows());
    }
}

/// The rows of XC18V00.
pub open spec fn xc18_rows() -> Seq<(u32, DeviceInfo)> {
    seq![
        // XC18
        row(0x05024093,  8, "XC18V01",       Specific::Unknown),
        row(0x05025093,  8, "XC18V02",       Specific::Unknown),
        row(0x05026093,  8, "XC18V04",       Specific::Unknown),
        row(0x05023093,  8, "XC18V512",      Specific::Unknown),
    ]
}

fn xc18(t: &mut Vec<(IdCode, DeviceInfo)>)
    requires
        table_wf(old(t)@),
    ensures
        table_wf(final(t)@),
        rows(final(t)@) == rows(old(t)@) + xc18_rows(),
{
    // XC18
    entry(t, 0x05024093,  8, "XC18V01",       Specific::Unknown);
    entry(t, 0x05025093,  8, "XC18V02",       Specific::Unknown);
    entry(t, 0x05026093,  8, "XC18V04",       Specific::Unknown);
    entry(t, 0x05023093,  8, "XC18V512",      Specific::Unknown);
    proof {
        assert(rows(t@) =~= rows(old(t)@) + xc18_rows());
    }
}

/// The rows of the ARM debug port of Zynq.
pub open spec fn arm_dap_on_zynq_rows() -> Seq<(u32, DeviceInfo)> {
    seq![
        // ARM DAP on Zynq
        row(0x0BA00477,  4, "ARM_DAP",       Specific::Unknown),
    ]
}

fn arm_dap_on_zynq(t: &mut Vec<(IdCode, DeviceInfo)>)
    requires
        table_wf(old(t)@),
    ensures
        table_wf(final(t)@),
        rows(final(t)@) == rows(old(t)@) + arm_dap_on_zynq_rows(),
{
    // ARM DAP on Zynq
    entry(t, 0x0BA00477,  4, "ARM_DAP",       Specific::Unknown);
    proof {
        assert(rows(t@) =~= rows(old(t)@) + arm_dap_on_zynq_rows());
    }
}

} // verus!
