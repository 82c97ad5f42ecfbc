//! The USB side of an FT2232H: its interfaces and endpoints, the control
//! transfers that put it into MPSSE mode, and the status bytes that frame
//! what it returns.

use crate::backend::Transfer;
use crate::usb::{copy, vendor_out, vendor_request, views, StepView, UsbStep};
use vstd::prelude::*;

verus! {

/// One of the four interfaces of the chip.
#[derive(Clone, Copy, Debug, PartialEq, Eq, Structural)]
pub enum Interface {
    A,
    B,
    C,
    D,
}

/// The pair of bulk endpoints of an interface.
#[derive(Clone, Copy, Debug, PartialEq, Eq, Structural)]
pub struct Endpoints {
    /// The endpoint that takes commands.
    pub in_: u8,
    /// The endpoint that returns what was sampled.
    pub out: u8,
}

pub const RESET: u8 = 0;

pub const SET_FLOW_CTRL: u8 = 2;

pub const SET_EVENT_CHAR: u8 = 0x06;

pub const SET_ERROR_CHAR: u8 = 0x07;

pub const SET_LATENCY_TIMER: u8 = 0x09;

pub const SET_BITMODE: u8 = 0x0b;

/// Reset the serial engine.
pub const RESET_SIO: u16 = 0;

/// Drop what the chip holds for the host.
pub const TCI_FLUSH: u16 = 2;

/// Drop what the chip holds for the device.
pub const TCO_FLUSH: u16 = 1;

/// Flow control by RTS and CTS.
pub const RTS_CTS: u16 = 0x100;

/// MPSSE mode in the high byte, no pin mask in the low byte.
pub const BITMODE_MPSSE: u16 = 0x0200;

/// The latency timer in milliseconds.
pub const LATENCY_MS: u16 = 16;

/// The device version of the chips this driver supports.
pub const FT2232H_VERSION: u16 = 0x0700;

/// The packet size of an FT2232H where the descriptors do not tell.
pub const DEFAULT_PACKET_SIZE: usize = 512;

impl Interface {
    /// The position of the interface: 0 for A to 3 for D.
    pub open spec fn position(self) -> u8 {
        match self {
            Interface::A => 0,
            Interface::B => 1,
            Interface::C => 2,
            Interface::D => 3,
        }
    }

    /// The number that USB knows the interface by: its position.
    pub fn interface(self) -> (r: u8)
        ensures
            r == self.position(),
    {
        match self {
            Interface::A => 0,
            Interface::B => 1,
            Interface::C => 2,
            Interface::D => 3,
        }
    }

    /// The index that the control transfers of the chip address the
    /// interface by: its position and one.
    pub fn index(self) -> (r: u16)
        ensures
            r == self.position() + 1,
    {
        match self {
            Interface::A => 1,
            Interface::B => 2,
            Interface::C => 3,
            Interface::D => 4,
        }
    }

    /// The bulk endpoints of the interface: 0x02 and 0x81 for A, two more
    /// each for every further interface.
    pub fn endpoints(self) -> (r: Endpoints)
        ensures
            r.in_ == 0x02 + 2 * self.position(),
            r.out == 0x81 + 2 * self.position(),
    {
        match self {
            Interface::A => Endpoints { in_: 0x02, out: 0x81 },
            Interface::B => Endpoints { in_: 0x04, out: 0x83 },
            Interface::C => Endpoints { in_: 0x06, out: 0x85 },
            Interface::D => Endpoints { in_: 0x08, out: 0x87 },
        }
    }
}

/// The transfers that put an interface into MPSSE mode: claim it, reset the
/// serial engine, drop what is buffered in either direction, set the
/// latency timer, switch off event and error characters, set flow control
/// and the bit mode.
pub open spec fn init_steps_spec(interface: Interface) -> Seq<StepView> {
    let index = (interface.position() + 1) as u16;
    seq![
        StepView::Claim { interface: interface.position() },
        vendor_out(RESET, RESET_SIO, index),
        vendor_out(RESET, TCI_FLUSH, index),
        vendor_out(RESET, TCO_FLUSH, index),
        vendor_out(SET_LATENCY_TIMER, LATENCY_MS, index),
        vendor_out(SET_EVENT_CHAR, 0, index),
        vendor_out(SET_ERROR_CHAR, 0, index),
        vendor_out(SET_FLOW_CTRL, 0, (256 + index) as u16),
        vendor_out(SET_BITMODE, BITMODE_MPSSE, index),
    ]
}

/// The transfers that put an interface into MPSSE mode.
pub fn init_steps(interface: Interface) -> (r: Vec<UsbStep>)
    ensures
        views(r@) == init_steps_spec(interface),
{
    let index = interface.index();
    let mut r: Vec<UsbStep> = Vec::new();
    r.push(UsbStep::Claim { interface: interface.interface() });
    r.push(vendor_request(RESET, RESET_SIO, index));
    r.push(vendor_request(RESET, TCI_FLUSH, index));
    r.push(vendor_request(RESET, TCO_FLUSH, index));
    r.push(vendor_request(SET_LATENCY_TIMER, LATENCY_MS, index));
    r.push(vendor_request(SET_EVENT_CHAR, 0, index));
    r.push(vendor_request(SET_ERROR_CHAR, 0, index));
    r.push(vendor_request(SET_FLOW_CTRL, 0, RTS_CTS + index));
    r.push(vendor_request(SET_BITMODE, BITMODE_MPSSE, index));
    proof {
        assert(views(r@) =~= init_steps_spec(interface));
    }
    r
}

/// The transfers of one exchange: the bulk write of the commands and, where
/// the exchange reads, the bulk read.
pub open spec fn exchange_steps(interface: Interface, out: Seq<u8>, read_len: nat) -> Seq<
    StepView,
> {
    seq![StepView::BulkOut { endpoint: (0x02 + 2 * interface.position()) as u8, data: out }]
        + if read_len > 0 {
        seq![
            StepView::BulkIn {
                endpoint: (0x81 + 2 * interface.position()) as u8,
                len: read_len,
            },
        ]
    } else {
        Seq::empty()
    }
}

/// The transfers that perform `transfer` on `interface`. The bulk read
/// asks for the bytes that the commands sample; the chip frames them in
/// packets with two status bytes each.
pub fn exchange(interface: Interface, transfer: &Transfer) -> (r: Vec<UsbStep>)
    ensures
        views(r@) == exchange_steps(interface, transfer.out@, transfer.read_len as nat),
{
    let ep = interface.endpoints();
    let mut r: Vec<UsbStep> = Vec::new();
    r.push(UsbStep::BulkOut { endpoint: ep.in_, data: copy(transfer.out.as_slice()) });
    if transfer.read_len > 0 {
        r.push(UsbStep::BulkIn { endpoint: ep.out, len: transfer.read_len });
    }
    proof {
        assert(views(r@) =~= exchange_steps(
            interface,
            transfer.out@,
            transfer.read_len as nat,
        ));
    }
    r
}

/// What the chip returned without the two status bytes that begin every
/// packet of `packet_size` bytes.
pub open spec fn stripped(raw: Seq<u8>, packet_size: nat) -> Seq<u8>
    decreases raw.len(),
{
    if raw.len() == 0 || packet_size == 0 {
        Seq::empty()
    } else {
        let n = if raw.len() > packet_size {
            packet_size as int
        } else {
            raw.len() as int
        };
        (if n > 2 {
            raw.subrange(2, n)
        } else {
            Seq::empty()
        }) + stripped(raw.skip(n), packet_size)
    }
}

/// What the chip returned without the two status bytes that begin every
/// packet.
pub fn strip_status(raw: &[u8], packet_size: usize) -> (r: Vec<u8>)
    requires
        packet_size > 0,
    ensures
        r@ == stripped(raw@, packet_size as nat),
{
    let mut out: Vec<u8> = Vec::new();
    let mut done: usize = 0;
    proof {
        assert(raw@.skip(0) =~= raw@);
        assert(out@ + stripped(raw@, packet_size as nat) =~= stripped(raw@, packet_size as nat));
    }
    while done < raw.len()
        invariant
            done <= raw@.len(),
            packet_size > 0,
            out@ + stripped(raw@.skip(done as int), packet_size as nat) == stripped(
                raw@,
                packet_size as nat,
            ),
        decreases raw@.len() - done,
    {
        let left = raw.len() - done;
        let n = if left > packet_size {
            packet_size
        } else {
            left
        };
        let ghost rest = raw@.skip(done as int);
        let ghost before = out@;
        if n > 2 {
            let data = vstd::slice::slice_subrange(raw, done + 2, done + n);
            out.extend_from_slice(data);
            proof {
                assert(data@ =~= rest.subrange(2, n as int));
                assert(out@ =~= before + data@);
            }
        }
        proof {
            assert(rest.skip(n as int) =~= raw@.skip(done + n));
            let piece = if n > 2 {
                rest.subrange(2, n as int)
            } else {
                Seq::<u8>::empty()
            };
            assert(out@ =~= before + piece);
            assert(before + (piece + stripped(raw@.skip(done + n), packet_size as nat)) =~= (
            before + piece) + stripped(raw@.skip(done + n), packet_size as nat));
        }
        done = done + n;
    }
    proof {
        assert(raw@.skip(raw@.len() as int) =~= Seq::<u8>::empty());
        assert(out@ + Seq::<u8>::empty() =~= out@);
    }
    out
}

} // verus!
