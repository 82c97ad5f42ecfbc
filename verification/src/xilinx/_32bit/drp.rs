//! The dynamic reconfiguration port of the on-die analog-to-digital converter.

use vstd::prelude::*;

verus! {

/// One access to a register of the converter.
#[derive(Clone, Copy, Debug)]
pub struct Command {
    pub cmd: Cmd,
    pub addr: Addr,
    pub data: u16,
}

#[derive(Clone, Copy, Debug, PartialEq, Eq, Structural)]
pub enum Cmd {
    Noop,
    Read,
    Write,
}

/// The status registers of the converter. The descriptions follow UG480
/// (7-series), table 3-1; UltraScale and UltraScale+ (UG580) keep most of
/// them.
#[derive(Clone, Copy, Debug, PartialEq, Eq, Structural)]
pub enum Addr {
    /// The result of the on-chip temperature sensor measurement is stored in
    /// this location. The data is MSB justified in the 16-bit register. The 12
    /// MSBs correspond to the temperature sensor transfer function shown in
    /// Figure 2-9.
    Temperature,

    /// The result of the on-chip VCCINT supply monitor measurement is stored at
    /// this location. The data is MSB justified in the 16-bit register. The 12
    /// MSBs correspond to the supply sensor transfer function shown in Figure 2-10.
    VccInt,

    /// The result of the on-chip VCCAUX data supply monitor measurement is
    /// stored at this location. The data is MSB justified in the 16 bit
    /// register. The 12 MSBs correspond to the supply sensor transfer function
    /// shown in Figure 2-10.
    VccAux,

    /// The result of a conversion on the dedicated analog input channel is
    /// stored in this register. The data is MSB justified in the 16-bit
    /// register. The 12 MSBs correspond to the transfer function shown in
    /// Figure 2-6, or Figure 2-7, depending on analog input mode settings.
    VpVn,

    /// The result of a conversion on the reference input VREFP is stored in
    /// this register. The 12 MSBs correspond to the ADC transfer function shown
    /// in Figure 2-10. The data is MSB justified in the 16-bit register. The
    /// supply sensor is used when measuring V REFP .
    VRefP,

    /// The result of a conversion on the reference input VREFN is stored in
    /// this register. This channel is measured in bipolar mode with a two's
    /// complement output coding as shown in Figure 2-3. By measuring in
    /// bipolar mode, small positive and negative offset around 0V (VREFN ) can
    /// be measured. The supply sensor is also used to measure VREFN , thus 1
    /// LSB = 3V/4096. The data is MSB justified in the 16-bit register.
    VRefN,

    /// The result of the on-chip VCCBRAM supply monitor measurement is stored
    /// at this location. The data is MSB justified in the 16-bit register. The
    /// 12 MSBs correspond to the supply sensor transfer function shown in
    /// Figure 2-10.
    VccBram,

    /// The calibration coefficient for the supply sensor offset using ADC A is
    /// stored at this location.
    SupplyAOffset,

    /// The calibration coefficient for the ADC A offset is stored at this
    /// location.
    AdcAOffset,

    /// The calibration coefficient for the ADC A gain error is stored at this
    /// location.
    AdcAGain,

    /// The result of a conversion on the PS supply, VCCPINT is stored in this
    /// register. The 12 MSBs correspond to the ADC transfer function shown in
    /// Figure 2-10. The data is MSB justified in the 16-bit register. The
    /// supply sensor is used when measuring VCCPINT.
    VccPInt,

    /// The result of a conversion on the PS supply, VCCPAUX is stored in this
    /// register. The 12 MSBs correspond to the ADC transfer function shown in
    /// Figure 2-10. The data is MSB justified in the 16-bit register. The
    /// supply sensor is used when measuring VCCPAUX.
    VccPAux,

    /// The result of a conversion on the PS supply, VCCO_DDR is stored in this
    /// register. The 12 MSBs correspond to the ADC transfer function shown in
    /// Figure 2-10. The data is MSB justified in the 16-bit register. The
    /// supply sensor is used when measuring VCCO_DDR.
    VccODdr,

    /// The results of the conversions on auxiliary analog input channels are
    /// stored in this register. The data is MSB justified in the 16-bit
    /// register. The 12 MSBs correspond to the transfer function shown in
    /// Figure 2-2 or Figure 2-3 depending on analog input mode settings.
    VAuxPVAuxN0,
    VAuxPVAuxN1,
    VAuxPVAuxN2,
    VAuxPVAuxN3,
    VAuxPVAuxN4,
    VAuxPVAuxN5,
    VAuxPVAuxN6,
    VAuxPVAuxN7,
    VAuxPVAuxN8,
    VAuxPVAuxN9,
    VAuxPVAuxNA,
    VAuxPVAuxNB,
    VAuxPVAuxNC,
    VAuxPVAuxND,
    VAuxPVAuxNE,
    VAuxPVAuxNF,

    /// Maximum temperature measurement recorded since power-up or the last XADC
    /// reset.
    MaxTemp,

    /// Maximum VCCINT measurement recorded since power-up or the last XADC
    /// reset.
    MaxVccInt,

    /// Maximum VCCAUX measurement recorded since power-up or the last XADC
    /// reset.
    MaxVccAux,

    /// Maximum VCCBRAM measurement recorded since power-up or the last XADC
    /// reset.
    MaxVccBram,

    /// Minimum temperature measurement recorded since power-up or the last XADC
    /// reset.
    MinTemp,

    /// Minimum V CCINT measurement recorded since power-up or the last XADC
    /// reset.
    MinVccInt,

    /// Minimum V CCAUX measurement recorded since power-up or the last XADC
    /// reset.
    MinVccAux,

    /// Minimum V CCBRAM measurement recorded since power-up or the last XADC
    /// reset.
    MinVccBram,

    /// Maximum VCCPINT measurement recorded since power-up or the last XADC
    /// reset.
    VccPIntMax,

    /// Maximum VCCPAUX measurement recorded since power-up or the last XADC
    /// reset.
    VccPAuxMax,

    /// Maximum VCCO_DDR measurement recorded since power-up or the last XADC
    /// reset.
    VccODdrMax,

    /// Minimum V CCPINT measurement recorded since power-up or the last XADC
    /// reset.
    VccPIntMin,

    /// Minimum V CCAUX measurement recorded since power-up or the last XADC
    /// reset.
    VccPAuxMin,

    /// Minimum V CCO_DDR measurement recorded since power-up or the last XADC
    /// reset.
    VccODdrMin,

    /// The calibration coefficient for the supply sensor offset using ADC B is
    /// stored at this location.
    SupplyBOffset,

    /// The calibration coefficient for the ADC B offset is stored at this
    /// location.
    AdcBOffset,

    /// The calibration coefficient for the ADC B gain error is stored at this
    /// location.
    AdcBGain,

    /// This register contains general status information (see Flag Register).
    Flag,
}

impl Cmd {
    /// The code of the command.
    pub open spec fn spec_code(self) -> u8 {
        match self {
            Cmd::Noop => 0,
            Cmd::Read => 1,
            Cmd::Write => 2,
        }
    }

    /// The code of the command.
    #[verifier::when_used_as_spec(spec_code)]
    pub fn code(self) -> (r: u8)
        ensures
            r == self.spec_code(),
    {
        match self {
            Cmd::Noop => 0,
            Cmd::Read => 1,
            Cmd::Write => 2,
        }
    }
}

impl Addr {
    /// The address of the register.
    pub open spec fn spec_code(self) -> u16 {
        match self {
            Addr::Temperature => 0x00,
            Addr::VccInt => 0x01,
            Addr::VccAux => 0x02,
            Addr::VpVn => 0x03,
            Addr::VRefP => 0x04,
            Addr::VRefN => 0x05,
            Addr::VccBram => 0x06,
            Addr::SupplyAOffset => 0x08,
            Addr::AdcAOffset => 0x09,
            Addr::AdcAGain => 0x0a,
            Addr::VccPInt => 0x0d,
            Addr::VccPAux => 0x0e,
            Addr::VccODdr => 0x0f,
            Addr::VAuxPVAuxN0 => 0x10,
            Addr::VAuxPVAuxN1 => 0x11,
            Addr::VAuxPVAuxN2 => 0x12,
            Addr::VAuxPVAuxN3 => 0x13,
            Addr::VAuxPVAuxN4 => 0x14,
            Addr::VAuxPVAuxN5 => 0x15,
            Addr::VAuxPVAuxN6 => 0x16,
            Addr::VAuxPVAuxN7 => 0x17,
            Addr::VAuxPVAuxN8 => 0x18,
            Addr::VAuxPVAuxN9 => 0x19,
            Addr::VAuxPVAuxNA => 0x1a,
            Addr::VAuxPVAuxNB => 0x1b,
            Addr::VAuxPVAuxNC => 0x1c,
            Addr::VAuxPVAuxND => 0x1d,
            Addr::VAuxPVAuxNE => 0x1e,
            Addr::VAuxPVAuxNF => 0x1f,
            Addr::MaxTemp => 0x20,
            Addr::MaxVccInt => 0x21,
            Addr::MaxVccAux => 0x22,
            Addr::MaxVccBram => 0x23,
            Addr::MinTemp => 0x24,
            Addr::MinVccInt => 0x25,
            Addr::MinVccAux => 0x26,
            Addr::MinVccBram => 0x27,
            Addr::VccPIntMax => 0x28,
            Addr::VccPAuxMax => 0x29,
            Addr::VccODdrMax => 0x2a,
            Addr::VccPIntMin => 0x2c,
            Addr::VccPAuxMin => 0x2d,
            Addr::VccODdrMin => 0x2e,
            Addr::SupplyBOffset => 0x30,
            Addr::AdcBOffset => 0x31,
            Addr::AdcBGain => 0x32,
            Addr::Flag => 0x3f,
        }
    }

    /// The address of the register.
    #[verifier::when_used_as_spec(spec_code)]
    pub fn code(self) -> (r: u16)
        ensures
            r == self.spec_code(),
            r <= 0x3f,
    {
        match self {
            Addr::Temperature => 0x00,
            Addr::VccInt => 0x01,
            Addr::VccAux => 0x02,
            Addr::VpVn => 0x03,
            Addr::VRefP => 0x04,
            Addr::VRefN => 0x05,
            Addr::VccBram => 0x06,
            Addr::SupplyAOffset => 0x08,
            Addr::AdcAOffset => 0x09,
            Addr::AdcAGain => 0x0a,
            Addr::VccPInt => 0x0d,
            Addr::VccPAux => 0x0e,
            Addr::VccODdr => 0x0f,
            Addr::VAuxPVAuxN0 => 0x10,
            Addr::VAuxPVAuxN1 => 0x11,
            Addr::VAuxPVAuxN2 => 0x12,
            Addr::VAuxPVAuxN3 => 0x13,
            Addr::VAuxPVAuxN4 => 0x14,
            Addr::VAuxPVAuxN5 => 0x15,
            Addr::VAuxPVAuxN6 => 0x16,
            Addr::VAuxPVAuxN7 => 0x17,
            Addr::VAuxPVAuxN8 => 0x18,
            Addr::VAuxPVAuxN9 => 0x19,
            Addr::VAuxPVAuxNA => 0x1a,
            Addr::VAuxPVAuxNB => 0x1b,
            Addr::VAuxPVAuxNC => 0x1c,
            Addr::VAuxPVAuxND => 0x1d,
            Addr::VAuxPVAuxNE => 0x1e,
            Addr::VAuxPVAuxNF => 0x1f,
            Addr::MaxTemp => 0x20,
            Addr::MaxVccInt => 0x21,
            Addr::MaxVccAux => 0x22,
            Addr::MaxVccBram => 0x23,
            Addr::MinTemp => 0x24,
            Addr::MinVccInt => 0x25,
            Addr::MinVccAux => 0x26,
            Addr::MinVccBram => 0x27,
            Addr::VccPIntMax => 0x28,
            Addr::VccPAuxMax => 0x29,
            Addr::VccODdrMax => 0x2a,
            Addr::VccPIntMin => 0x2c,
            Addr::VccPAuxMin => 0x2d,
            Addr::VccODdrMin => 0x2e,
            Addr::SupplyBOffset => 0x30,
            Addr::AdcBOffset => 0x31,
            Addr::AdcBGain => 0x32,
            Addr::Flag => 0x3f,
        }
    }
}

/// What a register of the converter measures.
#[derive(Clone, Copy, Debug, PartialEq, Eq, Structural)]
pub enum Quantity {
    /// Nothing that a transfer function turns into a unit.
    Other,
    /// The temperature of the die.
    Temperature,
    /// The voltage of a supply rail or a reference.
    PowerSupply,
    /// The voltage at an analog input.
    Adc,
}

/// How many of the upper bits of a register hold the measurement.
#[derive(Clone, Copy, Debug, PartialEq, Eq, Structural)]
pub enum Width {
    Ten,
    Twelve,
}

impl Width {
    /// The number of low bits that hold no measurement.
    pub open spec fn spec_unused(self) -> u8 {
        match self {
            Width::Ten => 6,
            Width::Twelve => 4,
        }
    }

    /// The value of the lowest bit of the measurement.
    pub open spec fn unit(self) -> int {
        match self {
            Width::Ten => 64,
            Width::Twelve => 16,
        }
    }
}

impl Addr {
    /// What the register measures.
    pub open spec fn spec_quantity(self) -> Quantity {
        match self {
            Addr::Temperature | Addr::MaxTemp | Addr::MinTemp => Quantity::Temperature,
            Addr::VccInt | Addr::VccAux | Addr::VRefP | Addr::VRefN | Addr::VccBram | Addr::VccPInt
            | Addr::VccPAux | Addr::VccODdr | Addr::MaxVccInt | Addr::MaxVccAux | Addr::MinVccInt | Addr::MinVccAux
            | Addr::MinVccBram | Addr::VccPIntMax | Addr::VccPAuxMax | Addr::VccODdrMax | Addr::VccPIntMin | Addr::VccPAuxMin | Addr::VccODdrMin => Quantity::PowerSupply,
            Addr::VpVn | Addr::VAuxPVAuxN0 | Addr::VAuxPVAuxN1 | Addr::VAuxPVAuxN2 | Addr::VAuxPVAuxN3 | Addr::VAuxPVAuxN4
            | Addr::VAuxPVAuxN5 | Addr::VAuxPVAuxN6 | Addr::VAuxPVAuxN7 | Addr::VAuxPVAuxN8 | Addr::VAuxPVAuxN9 | Addr::VAuxPVAuxNA
            | Addr::VAuxPVAuxNB | Addr::VAuxPVAuxNC | Addr::VAuxPVAuxND | Addr::VAuxPVAuxNE | Addr::VAuxPVAuxNF => Quantity::Adc,
            _ => Quantity::Other,
        }
    }

    /// What the register measures.
    #[verifier::when_used_as_spec(spec_quantity)]
    pub fn quantity(self) -> (r: Quantity)
        ensures
            r == self.spec_quantity(),
    {
        match self {
            Addr::Temperature | Addr::MaxTemp | Addr::MinTemp => Quantity::Temperature,
            Addr::VccInt | Addr::VccAux | Addr::VRefP | Addr::VRefN | Addr::VccBram | Addr::VccPInt
            | Addr::VccPAux | Addr::VccODdr | Addr::MaxVccInt | Addr::MaxVccAux | Addr::MinVccInt | Addr::MinVccAux
            | Addr::MinVccBram | Addr::VccPIntMax | Addr::VccPAuxMax | Addr::VccODdrMax | Addr::VccPIntMin | Addr::VccPAuxMin | Addr::VccODdrMin => Quantity::PowerSupply,
            Addr::VpVn | Addr::VAuxPVAuxN0 | Addr::VAuxPVAuxN1 | Addr::VAuxPVAuxN2 | Addr::VAuxPVAuxN3 | Addr::VAuxPVAuxN4
            | Addr::VAuxPVAuxN5 | Addr::VAuxPVAuxN6 | Addr::VAuxPVAuxN7 | Addr::VAuxPVAuxN8 | Addr::VAuxPVAuxN9 | Addr::VAuxPVAuxNA
            | Addr::VAuxPVAuxNB | Addr::VAuxPVAuxNC | Addr::VAuxPVAuxND | Addr::VAuxPVAuxNE | Addr::VAuxPVAuxNF => Quantity::Adc,
            _ => Quantity::Other,
        }
    }
}

/// The measurement in a register, read as a number without sign: the
/// register divided by the value of the lowest bit of the measurement.
pub fn measurement(data: u16, width: Width) -> (r: u16)
    ensures
        r == data as int / width.unit(),
{
    match width {
        Width::Ten => data / 64,
        Width::Twelve => data / 16,
    }
}

/// The measurement in a register, read as a number in two's complement:
/// the register, less 65536 where its highest bit is set, divided by the
/// value of the lowest bit of the measurement and rounded down.
pub fn measurement_signed(data: u16, width: Width) -> (r: i16)
    ensures
        r == (if data >= 32768 {
            data - 65536
        } else {
            data as int
        }) / width.unit(),
{
    let unit: u16 = match width {
        Width::Ten => 64,
        Width::Twelve => 16,
    };
    if data >= 32768 {
        let below: u16 = ((65535 - data) / unit) + 1;
        -(below as i16)
    } else {
        (data / unit) as i16
    }
}

/// The 32-bit word of an access, for a command below 16 and an address below
/// 1024: the command from bit 26, the address from bit 16, the data in the low
/// half.
pub open spec fn drp_word(cmd: int, addr: int, data: int) -> int {
    cmd * 0x0400_0000 + addr * 0x1_0000 + data
}

proof fn lemma_drp_bits(cmd: u8, addr: u16, data: u16)
    by (bit_vector)
    ensures
        (cmd as u32 & 0x0f) << 26 | (addr as u32 & 0x3ff) << 16 | (data as u32) == (cmd % 16) as u32
            * 0x0400_0000u32 + (addr % 1024) as u32 * 0x1_0000u32 + data as u32,
{
}

impl Command {
    /// The access as the word that is shifted into the data register.
    pub fn to_bits(self) -> (r: u32)
        ensures
            r == drp_word(
                self.cmd.spec_code() as int,
                self.addr.spec_code() as int,
                self.data as int,
            ),
    {
        Self::to_bits_raw(self.cmd.code(), self.addr.code(), self.data)
    }

    /// The word for a command and an address given as numbers, each cut to
    /// its width: four bits of command, ten of address.
    pub fn to_bits_raw(cmd: u8, addr: u16, data: u16) -> (r: u32)
        ensures
            r == drp_word(cmd as int % 16, addr as int % 1024, data as int),
    {
        proof {
            lemma_drp_bits(cmd, addr, data);
        }
        (cmd as u32 & 0x0f) << 26 | (addr as u32 & 0x3ff) << 16 | (data as u32)
    }
}

} // verus!
