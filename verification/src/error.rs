//! What can go wrong between the cable and the chain.

use crate::utils::{hex_u32, write_u32};
use vstd::prelude::*;
use vstd::string::StringExecFns;

verus! {

#[derive(Debug, Clone, PartialEq, Eq)]
pub enum Error {
    /// The cable returned another number of bytes than it was asked for.
    ShortRead { expected: usize, got: usize },
    /// A device on the chain answered with a bypass bit in place of an
    /// identification code.
    Bypass(u32),
    /// The device table does not hold the identification code.
    UnknownIdcode(u32),
    /// The device table gives the device an instruction register of more
    /// than 32 bits.
    IrTooLong(u32),
    /// The chain ended where the wake-up of a Zynq UltraScale+ should have
    /// shown the device.
    WakeEndOfChain,
    /// The device still answered with a bypass bit after the wake-up of a
    /// Zynq UltraScale+.
    WakeBypass,
    /// No device answered.
    NoDevices,
    /// Several devices answered and none was chosen.
    MultipleDevices(Vec<u32>),
    /// The chosen position is not on the chain.
    NoSuchDevice(usize),
    /// More than 32 devices sit on one side of the chosen device.
    ChainTooLong,
    /// The device does not offer the operation.
    Unsupported,
}

/// The identification codes of a list, eight digits each, separated by a
/// comma and a space.
pub open spec fn hex_list(codes: Seq<u32>) -> Seq<char>
    decreases codes.len(),
{
    if codes.len() == 0 {
        Seq::empty()
    } else if codes.len() == 1 {
        hex_u32(codes[0])
    } else {
        hex_list(codes.drop_last()) + ", "@ + hex_u32(codes.last())
    }
}

impl Error {
    /// The text that describes the error.
    pub open spec fn text(self) -> Seq<char> {
        match self {
            Error::ShortRead { .. } => "the cable returned another number of bytes than asked"@,
            Error::Bypass(idcode) => "device in BYPASS detected: "@ + hex_u32(idcode),
            Error::UnknownIdcode(idcode) => "idcode "@ + hex_u32(idcode)
                + " not found in device list"@,
            Error::IrTooLong(idcode) => "instruction register of "@ + hex_u32(idcode)
                + " is longer than 32 bits"@,
            Error::WakeEndOfChain => "end of chain after zynq us special case"@,
            Error::WakeBypass => "still in bypass after zynq us special case"@,
            Error::NoDevices => "no devices detected on jtag chain"@,
            Error::MultipleDevices(codes) => "multiple devices detected on jtag chain: ["@
                + hex_list(codes@) + "]"@,
            Error::NoSuchDevice(_) => "no device at the chosen position of the jtag chain"@,
            Error::ChainTooLong => "more than 32 devices on one side of the chosen device"@,
            Error::Unsupported => "the device does not offer this operation"@,
        }
    }

    /// The text that describes the error.
    pub fn message(&self) -> (r: String)
        ensures
            r@ == self.text(),
    {
        match self {
            Error::ShortRead { .. } => String::from_str(
                "the cable returned another number of bytes than asked",
            ),
            Error::Bypass(idcode) => {
                let mut out = String::from_str("device in BYPASS detected: ");
                write_u32(&mut out, *idcode);
                out
            },
            Error::UnknownIdcode(idcode) => {
                let mut out = String::from_str("idcode ");
                write_u32(&mut out, *idcode);
                out.append(" not found in device list");
                out
            },
            Error::IrTooLong(idcode) => {
                let mut out = String::from_str("instruction register of ");
                write_u32(&mut out, *idcode);
                out.append(" is longer than 32 bits");
                out
            },
            Error::WakeEndOfChain => String::from_str("end of chain after zynq us special case"),
            Error::WakeBypass => String::from_str("still in bypass after zynq us special case"),
            Error::NoDevices => String::from_str("no devices detected on jtag chain"),
            Error::MultipleDevices(codes) => {
                let mut out = String::from_str("multiple devices detected on jtag chain: [");
                let ghost head = out@;
                let mut i: usize = 0;
                proof {
                    assert(codes@.take(0) =~= Seq::<u32>::empty());
                    assert(out@ =~= head + hex_list(codes@.take(0)));
                }
                while i < codes.len()
                    invariant
                        i <= codes.len(),
                        out@ == head + hex_list(codes@.take(i as int)),
                    decreases codes.len() - i,
                {
                    let ghost so_far = out@;
                    if i > 0 {
                        out.append(", ");
                    }
                    write_u32(&mut out, codes[i]);
                    proof {
                        let done = codes@.take(i + 1);
                        assert(done.drop_last() =~= codes@.take(i as int));
                        assert(done.last() == codes@[i as int]);
                        if i == 0 {
                            assert(hex_list(codes@.take(0)) =~= Seq::<char>::empty());
                            assert(done[0] == codes@[0]);
                            assert(out@ =~= head + hex_list(done));
                        } else {
                            assert(out@ =~= head + hex_list(done));
                        }
                    }
                    i = i + 1;
                }
                proof {
                    assert(codes@.take(codes@.len() as int) =~= codes@);
                }
                out.append("]");
                out
            },
            Error::NoSuchDevice(_) => String::from_str(
                "no device at the chosen position of the jtag chain",
            ),
            Error::ChainTooLong => String::from_str(
                "more than 32 devices on one side of the chosen device",
            ),
            Error::Unsupported => String::from_str("the device does not offer this operation"),
        }
    }
}

} // verus!
