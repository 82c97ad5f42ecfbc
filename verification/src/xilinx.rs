//! The Xilinx configuration protocol, layered on the JTAG controller.

pub mod _32bit;
pub mod zynq_32;
