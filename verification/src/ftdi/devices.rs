//! How the boards that carry an FT2232H wire its pins.

use vstd::prelude::*;

verus! {

/// The initial levels and directions of the two pin banks of a board.
#[derive(Debug, Clone, Copy, PartialEq, Eq, Structural)]
pub struct Info {
    /// Levels of the low byte.
    pub dbus_data: u8,
    /// Directions of the low byte: a set bit drives the pin.
    pub dbus_en: u8,
    /// Levels of the high byte.
    pub cbus_data: u8,
    /// Directions of the high byte.
    pub cbus_en: u8,
}

/// The boards whose wiring is known.
#[derive(Debug, Clone, Copy, PartialEq, Eq, Structural)]
pub enum Board {
    Bbv2,
    Dlp2232h,
    Ikda,
    Llbbc,
    Llif,
    Llbus,
    FtdiJtag,
    Ft2232Test,
    LMotctl,
    LMotctlAvr,
    Knob2Usb,
    Qm07Pu,
    Nexys4,
}

impl Board {
    /// The wiring of the board.
    pub open spec fn spec_info(self) -> Info {
        match self {
            Board::Bbv2 => Info { dbus_data: 0x00, dbus_en: 0x10, cbus_data: 0x00, cbus_en: 0x00 },
            Board::Dlp2232h => Info {
                dbus_data: 0x00,
                dbus_en: 0x10,
                cbus_data: 0x00,
                cbus_en: 0x00,
            },
            Board::Ikda => Info { dbus_data: 0x00, dbus_en: 0x00, cbus_data: 0x00, cbus_en: 0x04 },
            Board::Llbbc => Info { dbus_data: 0x00, dbus_en: 0x00, cbus_data: 0x00, cbus_en: 0x04 },
            Board::Llif => Info { dbus_data: 0x10, dbus_en: 0x10, cbus_data: 0x00, cbus_en: 0x00 },
            Board::Llbus => Info { dbus_data: 0x00, dbus_en: 0x10, cbus_data: 0x00, cbus_en: 0x00 },
            Board::FtdiJtag => Info {
                dbus_data: 0x00,
                dbus_en: 0x10,
                cbus_data: 0x00,
                cbus_en: 0x00,
            },
            Board::Ft2232Test => Info {
                dbus_data: 0x00,
                dbus_en: 0x10,
                cbus_data: 0x00,
                cbus_en: 0x80,
            },
            Board::LMotctl => Info {
                dbus_data: 0x00,
                dbus_en: 0x00,
                cbus_data: 0x00,
                cbus_en: 0x40,
            },
            Board::LMotctlAvr => Info {
                dbus_data: 0x00,
                dbus_en: 0x00,
                cbus_data: 0x00,
                cbus_en: 0x00,
            },
            Board::Knob2Usb => Info {
                dbus_data: 0x00,
                dbus_en: 0x10,
                cbus_data: 0x00,
                cbus_en: 0x40,
            },
            Board::Qm07Pu => Info {
                dbus_data: 0x00,
                dbus_en: 0x10,
                cbus_data: 0x00,
                cbus_en: 0x04,
            },
            Board::Nexys4 => Info {
                dbus_data: 0xe8,
                dbus_en: 0xeb,
                cbus_data: 0x00,
                cbus_en: 0x60,
            },
        }
    }

    /// The wiring of the board.
    #[verifier::when_used_as_spec(spec_info)]
    pub fn info(self) -> (r: Info)
        ensures
            r == self.spec_info(),
    {
        match self {
            Board::Bbv2 => Info { dbus_data: 0x00, dbus_en: 0x10, cbus_data: 0x00, cbus_en: 0x00 },
            Board::Dlp2232h => Info {
                dbus_data: 0x00,
                dbus_en: 0x10,
                cbus_data: 0x00,
                cbus_en: 0x00,
            },
            Board::Ikda => Info { dbus_data: 0x00, dbus_en: 0x00, cbus_data: 0x00, cbus_en: 0x04 },
            Board::Llbbc => Info { dbus_data: 0x00, dbus_en: 0x00, cbus_data: 0x00, cbus_en: 0x04 },
            Board::Llif => Info { dbus_data: 0x10, dbus_en: 0x10, cbus_data: 0x00, cbus_en: 0x00 },
            Board::Llbus => Info { dbus_data: 0x00, dbus_en: 0x10, cbus_data: 0x00, cbus_en: 0x00 },
            Board::FtdiJtag => Info {
                dbus_data: 0x00,
                dbus_en: 0x10,
                cbus_data: 0x00,
                cbus_en: 0x00,
            },
            Board::Ft2232Test => Info {
                dbus_data: 0x00,
                dbus_en: 0x10,
                cbus_data: 0x00,
                cbus_en: 0x80,
            },
            Board::LMotctl => Info {
                dbus_data: 0x00,
                dbus_en: 0x00,
                cbus_data: 0x00,
                cbus_en: 0x40,
            },
            Board::LMotctlAvr => Info {
                dbus_data: 0x00,
                dbus_en: 0x00,
                cbus_data: 0x00,
                cbus_en: 0x00,
            },
            Board::Knob2Usb => Info {
                dbus_data: 0x00,
                dbus_en: 0x10,
                cbus_data: 0x00,
                cbus_en: 0x40,
            },
            Board::Qm07Pu => Info {
                dbus_data: 0x00,
                dbus_en: 0x10,
                cbus_data: 0x00,
                cbus_en: 0x04,
            },
            Board::Nexys4 => Info {
                dbus_data: 0xe8,
                dbus_en: 0xeb,
                cbus_data: 0x00,
                cbus_en: 0x60,
            },
        }
    }
}

} // verus!
