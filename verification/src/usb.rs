//! The USB transfers that the cable drivers ask for.

use vstd::prelude::*;

verus! {

/// One USB transfer, to be performed by whoever owns the device handle.
#[derive(Debug, Clone, PartialEq, Eq)]
pub enum UsbStep {
    /// A control transfer that carries `data` to the device.
    ControlOut { request_type: u8, request: u8, value: u16, index: u16, data: Vec<u8> },
    /// A control transfer that reads `len` bytes from the device.
    ControlIn { request_type: u8, request: u8, value: u16, index: u16, len: usize },
    /// A bulk write of `data` to `endpoint`.
    BulkOut { endpoint: u8, data: Vec<u8> },
    /// A bulk read of `len` bytes from `endpoint`.
    BulkIn { endpoint: u8, len: usize },
    /// Claim an interface of the device.
    Claim { interface: u8 },
    /// Give an interface of the device back.
    Release { interface: u8 },
}

/// What a transfer is, with the bytes it carries as a sequence.
pub enum StepView {
    ControlOut { request_type: u8, request: u8, value: u16, index: u16, data: Seq<u8> },
    ControlIn { request_type: u8, request: u8, value: u16, index: u16, len: nat },
    BulkOut { endpoint: u8, data: Seq<u8> },
    BulkIn { endpoint: u8, len: nat },
    Claim { interface: u8 },
    Release { interface: u8 },
}

impl View for UsbStep {
    type V = StepView;

    open spec fn view(&self) -> StepView {
        match *self {
            UsbStep::ControlOut { request_type, request, value, index, data } => {
                StepView::ControlOut { request_type, request, value, index, data: data@ }
            },
            UsbStep::ControlIn { request_type, request, value, index, len } => {
                StepView::ControlIn { request_type, request, value, index, len: len as nat }
            },
            UsbStep::BulkOut { endpoint, data } => StepView::BulkOut { endpoint, data: data@ },
            UsbStep::BulkIn { endpoint, len } => StepView::BulkIn { endpoint, len: len as nat },
            UsbStep::Claim { interface } => StepView::Claim { interface },
            UsbStep::Release { interface } => StepView::Release { interface },
        }
    }
}

/// The transfers of a list, each with its bytes as a sequence.
pub open spec fn views(steps: Seq<UsbStep>) -> Seq<StepView> {
    Seq::new(steps.len(), |i: int| steps[i]@)
}

/// A vendor request without data.
pub open spec fn vendor_out(request: u8, value: u16, index: u16) -> StepView {
    StepView::ControlOut { request_type: VENDOR_OUT, request, value, index, data: Seq::empty() }
}

/// A vendor request without data.
pub fn vendor_request(request: u8, value: u16, index: u16) -> (r: UsbStep)
    ensures
        r@ == vendor_out(request, value, index),
{
    UsbStep::ControlOut { request_type: VENDOR_OUT, request, value, index, data: Vec::new() }
}

/// Host to device, vendor request, addressed to the device.
pub const VENDOR_OUT: u8 = 0x40;

/// Device to host, vendor request, addressed to the device.
pub const VENDOR_IN: u8 = 0xc0;

/// A copy of `bytes`.
pub fn copy(bytes: &[u8]) -> (r: Vec<u8>)
    ensures
        r@ == bytes@,
{
    let mut r: Vec<u8> = Vec::new();
    r.extend_from_slice(bytes);
    proof {
        assert(r@ =~= bytes@);
    }
    r
}

} // verus!
