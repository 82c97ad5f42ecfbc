//! Zynq devices.
//!
//! A Zynq shows one instruction register of twelve bits: six for the
//! processor, six for the programmable logic. An instruction is written to
//! both halves. Putting the no-operation instruction or BYPASS in either
//! half garbles the identification code or the fuse registers.

use crate::backend::{Backend, Transfer};
use crate::controller::Controller;
use crate::error::Error;
use crate::xilinx::_32bit::registers::{type1_word, Type1};
use crate::xilinx::_32bit::{
    ir_word, ran, read_register, register_batch, supported, untouched,
};
use vstd::prelude::*;

pub mod info;

verus! {

/// The instruction `cmd` in both halves of a twelve-bit instruction
/// register.
pub fn duplicate(cmd: u8) -> (r: u32)
    ensures
        r == (cmd % 64) * 64 + cmd % 64,
        r == ir_word(12, cmd, None),
        r < 4096,
{
    let low = (cmd & 0b111111) as u32;
    proof {
        assert(cmd & 0b111111 == cmd % 64) by (bit_vector);
        assert((((cmd % 64) as u32) << 6) | ((cmd % 64) as u32) == ((cmd % 64) as u32) * 64 + (cmd
            % 64) as u32) by (bit_vector);
        reveal_with_fuel(crate::xilinx::_32bit::slots_word, 3);
    }
    low << 6 | low
}

/// Queue the read of a configuration register of a Zynq, the instructions
/// in both halves of its instruction register, and hand out the exchanges.
/// The reply holds `reg.word_count` words in wire order.
///
/// Fails, with the controller untouched, exactly where the target is no
/// device that the configuration protocol applies to.
pub fn read_device_register<B: Backend>(cont: &mut Controller<B>, reg: Type1) -> (r: Result<
    Vec<Transfer>,
    Error,
>)
    requires
        old(cont).inv(),
        reg.word_count < 0x800,
    ensures
        match r {
            Ok(t) => supported(old(cont).target().1) && ran(
                old(cont),
                final(cont),
                t@,
                register_batch(
                    old(cont).geometry().irlen,
                    type1_word(
                        reg.op.spec_code() as int,
                        reg.addr.spec_code() as int,
                        reg.word_count as int,
                    ) as u32,
                    reg.word_count,
                    None,
                ),
            ),
            Err(e) => e == Error::Unsupported && !supported(old(cont).target().1) && untouched(
                old(cont),
                final(cont),
            ),
        },
{
    read_register(cont, reg)
}

} // verus!
