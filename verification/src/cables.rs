//! The cables this crate can drive.

use crate::ftdi::devices::Board;
use vstd::prelude::*;

verus! {

/// How a cable is driven.
#[derive(Debug, Clone, Copy, PartialEq, Eq, Structural)]
pub enum Kind {
    /// An FT2232H-class chip on the given board, clocked at the given
    /// frequency in hertz.
    Ftdi(Board, u32),
    /// A Xilinx Platform Cable.
    Xpc,
}

/// A cable and the USB identifiers it is recognised by.
#[derive(Debug, Clone, Copy)]
pub struct Cable {
    pub name: &'static str,
    pub vid: u16,
    pub pid: u16,
    pub kind: Kind,
}

fn c(vid: u16, pid: u16, name: &'static str, kind: Kind) -> (r: Cable)
    ensures
        r == (Cable { name, vid, pid, kind }),
{
    Cable { name, vid, pid, kind }
}

/// The number of cables in the table.
pub const KNOWN_LEN: usize = 11;

/// The table of cables, in the order in which they are tried.
pub open spec fn known_table() -> Seq<Cable> {
    seq![
        Cable { name: "bbv2", vid: 0x0403, pid: 0x6010, kind: Kind::Ftdi(Board::Bbv2, 1500000) },
        Cable {
            name: "dlp2232h",
            vid: 0x0403,
            pid: 0x6010,
            kind: Kind::Ftdi(Board::Dlp2232h, 1500000),
        },
        Cable {
            name: "ft2232test",
            vid: 0x0403,
            pid: 0x6010,
            kind: Kind::Ftdi(Board::Ft2232Test, 8000000),
        },
        Cable {
            name: "ftdijtag",
            vid: 0x0403,
            pid: 0x6010,
            kind: Kind::Ftdi(Board::FtdiJtag, 1500000),
        },
        Cable { name: "ikda", vid: 0x0403, pid: 0x6010, kind: Kind::Ftdi(Board::Ikda, 1500000) },
        Cable {
            name: "l_motctl",
            vid: 0x0403,
            pid: 0x6010,
            kind: Kind::Ftdi(Board::LMotctl, 8000000),
        },
        Cable { name: "llbbc", vid: 0x0403, pid: 0x6010, kind: Kind::Ftdi(Board::Llbbc, 8000000) },
        Cable { name: "llbus", vid: 0x0403, pid: 0x6010, kind: Kind::Ftdi(Board::Llbus, 1500000) },
        Cable { name: "llif", vid: 0x0403, pid: 0x6010, kind: Kind::Ftdi(Board::Llif, 8000000) },
        Cable {
            name: "nexys4",
            vid: 0x0403,
            pid: 0x6010,
            kind: Kind::Ftdi(Board::Nexys4, 30000000),
        },
        Cable { name: "xpc", vid: 0x03fd, pid: 0x0008, kind: Kind::Xpc },
    ]
}

/// The table of cables, in the order in which they are tried.
pub fn known() -> (r: Vec<Cable>)
    ensures
        r@ == known_table(),
        r@.len() == KNOWN_LEN,
{
    let mut r: Vec<Cable> = Vec::new();
    r.push(c(0x0403, 0x6010, "bbv2", Kind::Ftdi(Board::Bbv2, 1500000)));
    r.push(c(0x0403, 0x6010, "dlp2232h", Kind::Ftdi(Board::Dlp2232h, 1500000)));
    r.push(c(0x0403, 0x6010, "ft2232test", Kind::Ftdi(Board::Ft2232Test, 8000000)));
    r.push(c(0x0403, 0x6010, "ftdijtag", Kind::Ftdi(Board::FtdiJtag, 1500000)));
    r.push(c(0x0403, 0x6010, "ikda", Kind::Ftdi(Board::Ikda, 1500000)));
    r.push(c(0x0403, 0x6010, "l_motctl", Kind::Ftdi(Board::LMotctl, 8000000)));
    r.push(c(0x0403, 0x6010, "llbbc", Kind::Ftdi(Board::Llbbc, 8000000)));
    r.push(c(0x0403, 0x6010, "llbus", Kind::Ftdi(Board::Llbus, 1500000)));
    r.push(c(0x0403, 0x6010, "llif", Kind::Ftdi(Board::Llif, 8000000)));
    r.push(c(0x0403, 0x6010, "nexys4", Kind::Ftdi(Board::Nexys4, 30000000)));
    r.push(c(0x03fd, 0x0008, "xpc", Kind::Xpc));
    proof {
        assert(r@ =~= known_table());
    }
    r
}

/// The entries of `table` with the given identifiers, in table order.
pub open spec fn matching_spec(table: Seq<Cable>, vid: u16, pid: u16) -> Seq<Cable> {
    table.filter(|cable: Cable| cable.vid == vid && cable.pid == pid)
}

/// The entries of `table` with the given identifiers, in table order: the
/// cables to try for a device that shows them.
pub fn matching(table: &Vec<Cable>, vid: u16, pid: u16) -> (r: Vec<Cable>)
    ensures
        r@ == matching_spec(table@, vid, pid),
{
    let mut r: Vec<Cable> = Vec::new();
    let mut i: usize = 0;
    let ghost pred = |cable: Cable| cable.vid == vid && cable.pid == pid;
    proof {
        assert(table@.take(0) =~= Seq::<Cable>::empty());
        assert(table@.take(0).filter(pred) =~= Seq::<Cable>::empty());
    }
    while i < table.len()
        invariant
            i <= table@.len(),
            pred == |cable: Cable| cable.vid == vid && cable.pid == pid,
            r@ == table@.take(i as int).filter(pred),
        decreases table@.len() - i,
    {
        let cable = table[i];
        proof {
            let done = table@.take(i + 1);
            assert(done.drop_last() =~= table@.take(i as int));
            assert(done.last() == cable);
            reveal(Seq::filter);
        }
        if cable.vid == vid && cable.pid == pid {
            r.push(cable);
        }
        i = i + 1;
    }
    proof {
        assert(table@.take(table@.len() as int) =~= table@);
    }
    r
}

/// The divisor that clocks the chip at `frequency` hertz or, where that is
/// no whole division, at the next lower frequency: the chip clocks at
/// 30 MHz divided by the divisor and one. `None` where the chip cannot go
/// that slow or `frequency` is zero.
pub fn clock_divisor(frequency: u32) -> (r: Option<u16>)
    ensures
        r matches Some(d) ==> frequency > 0 && (d + 1) * frequency >= 30_000_000 && (d == 0 || d
            * frequency < 30_000_000),
        r is None <==> frequency == 0 || 65536 * (frequency as int) < 30_000_000,
{
    if frequency == 0 {
        return None;
    }
    if frequency >= 30_000_000 {
        proof {
            assert((0 + 1) * frequency == frequency) by (nonlinear_arith);
            assert(65536 * (frequency as int) >= 30_000_000);
        }
        return Some(0);
    }
    let steps: u32 = (30_000_000 - 1) / frequency;
    proof {
        assert(steps * frequency <= 30_000_000 - 1) by (nonlinear_arith)
            requires
                steps == (30_000_000 - 1) / (frequency as int),
                frequency > 0,
        ;
        assert((steps + 1) * frequency > 30_000_000 - 1) by (nonlinear_arith)
            requires
                steps == (30_000_000 - 1) / (frequency as int),
                frequency > 0,
        ;
        if steps > 65535 {
            assert(65536 * (frequency as int) < 30_000_000) by (nonlinear_arith)
                requires
                    steps * frequency <= 30_000_000 - 1,
                    steps >= 65536,
                    frequency > 0,
            ;
        } else {
            assert(65536 * (frequency as int) >= 30_000_000) by (nonlinear_arith)
                requires
                    (steps + 1) * frequency > 30_000_000 - 1,
                    steps <= 65535,
                    frequency > 0,
            ;
        }
    }
    if steps > 65535 {
        None
    } else {
        Some(steps as u16)
    }
}

} // verus!
