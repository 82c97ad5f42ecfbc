//! Host-side JTAG driver core for Xilinx FPGAs.
//!
//! The crate models the TAP controller, encodes JTAG traffic for USB cables and
//! sequences the Xilinx configuration protocol. It performs no I/O itself:
//! every operation that needs the cable yields the USB exchanges to perform.

pub mod jtag;
pub mod backend;
pub mod bitbang;
pub mod cables;
pub mod chain;
pub mod cli_helpers;
pub mod controller;
pub mod devices;
pub mod error;
pub mod fake_backend;
pub mod ftdi;
pub mod units;
pub mod usb;
pub mod utils;
pub mod xilinx;
pub mod xpc;

pub use crate::backend::{Backend, Cycle, Data, Transfer};
pub use crate::chain::{select, Detector, Selection};
pub use crate::controller::{Command, Controller};
pub use crate::error::Error;
pub use crate::utils::{Hex, ShortHex, SpaceHex};
