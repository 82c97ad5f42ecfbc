//! JTAG instructions of the 32-bit Xilinx families, six bits each.

use vstd::prelude::*;

verus! {

pub const IDCODE: u8 = 0b001001;

pub const BYPASS: u8 = 0b111111;

pub const EXTEST: u8 = 0b100110;

pub const SAMPLE: u8 = 0b000001;

/// Same as `SAMPLE`.
pub const PRELOAD: u8 = 0b000001;

pub const USERCODE: u8 = 0b001000;

pub const HIGHZ: u8 = 0b001010;

pub const EXTEST_PULSE: u8 = 0b111100;

pub const EXTEST_TRAIN: u8 = 0b111101;

pub const ISC_ENABLE: u8 = 0b010000;

pub const ISC_PROGRAM: u8 = 0b010001;

pub const ISC_NOOP: u8 = 0b010100;

pub const XSC_READ_RSVD: u8 = 0b010101;

pub const ISC_DISABLE: u8 = 0b010110;

pub const XSC_PROGRAM_KEY: u8 = 0b010010;

pub const XSC_DNA: u8 = 0b010111;

/// Connects the data register to the configuration output port. Not
/// available while another mode configures the device.
pub const CFG_OUT: u8 = 0b000100;

/// Connects the data register to the configuration input port. Not
/// available while another mode configures the device.
pub const CFG_IN: u8 = 0b000101;

pub const JPROGRAM: u8 = 0b001011;

pub const JSTART: u8 = 0b001100;

pub const JSHUTDOWN: u8 = 0b001101;

pub const FUSE_CTS: u8 = 0b110000;

pub const FUSE_KEY: u8 = 0b110001;

pub const FUSE_DNA: u8 = 0b110010;

pub const FUSE_USER: u8 = 0b110011;

pub const FUSE_USER_128: u8 = 0b011001;

pub const FUSE_RSA: u8 = 0b011000;

pub const FUSE_SEC: u8 = 0b111011;

pub const FUSE_CNTL: u8 = 0b110100;

/// Not available until the device is configured.
pub const USER1: u8 = 0b000010;

/// Not available until the device is configured.
pub const USER2: u8 = 0b000011;

/// Not available until the device is configured.
pub const USER3: u8 = 0b100010;

/// Not available until the device is configured.
pub const USER4: u8 = 0b100011;

/// Connects the data register to the dynamic reconfiguration port of the
/// analog-to-digital converter.
pub const XADC_DRP: u8 = 0b110111;

pub const INTEST_RSVD: u8 = 0b000111;

/// The instruction that leaves a super logic region alone.
pub const SLR_NOOP: u8 = 0b100100;

} // verus!
