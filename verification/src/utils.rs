//! Hexadecimal rendering of numbers and byte strings.

use vstd::prelude::*;
use vstd::string::StringExecFns;

verus! {

/// A number shown in upper-case hexadecimal, two digits per byte.
pub struct Hex<T>(pub T);

/// At most this many bytes of a byte string are shown.
pub const MAX_DISPLAY: usize = 16;

/// A byte string shown as hexadecimal digits, cut after sixteen bytes.
pub struct ShortHex<'a>(pub &'a [u8]);

/// A byte string shown as hexadecimal bytes with a space after each, cut
/// after sixteen bytes.
pub struct SpaceHex<'a>(pub &'a [u8]);

/// The upper-case hexadecimal digit of a value below sixteen.
pub open spec fn hex_digit(n: int) -> Seq<char> {
    if n == 0 {
        "0"@
    } else if n == 1 {
        "1"@
    } else if n == 2 {
        "2"@
    } else if n == 3 {
        "3"@
    } else if n == 4 {
        "4"@
    } else if n == 5 {
        "5"@
    } else if n == 6 {
        "6"@
    } else if n == 7 {
        "7"@
    } else if n == 8 {
        "8"@
    } else if n == 9 {
        "9"@
    } else if n == 10 {
        "A"@
    } else if n == 11 {
        "B"@
    } else if n == 12 {
        "C"@
    } else if n == 13 {
        "D"@
    } else if n == 14 {
        "E"@
    } else {
        "F"@
    }
}

/// The two digits of a byte.
pub open spec fn hex_byte(b: u8) -> Seq<char> {
    hex_digit(b as int / 16) + hex_digit(b as int % 16)
}

/// The four digits of a 16-bit number, most significant first.
pub open spec fn hex_u16(v: u16) -> Seq<char> {
    hex_byte((v as int / 256) as u8) + hex_byte((v as int % 256) as u8)
}

/// The eight digits of a 32-bit number, most significant first.
pub open spec fn hex_u32(v: u32) -> Seq<char> {
    hex_u16((v as int / 65536) as u16) + hex_u16((v as int % 65536) as u16)
}

/// The digits of the first `n` bytes, each followed by `gap`.
pub open spec fn hex_run(bytes: Seq<u8>, n: nat, gap: Seq<char>) -> Seq<char>
    decreases n,
{
    if n == 0 {
        Seq::empty()
    } else {
        hex_run(bytes, (n - 1) as nat, gap) + hex_byte(bytes[n - 1]) + gap
    }
}

/// The digits of at most sixteen bytes, each followed by `gap`, and three
/// dots where bytes were left out.
pub open spec fn hex_cut(bytes: Seq<u8>, gap: Seq<char>) -> Seq<char> {
    if bytes.len() > 16 {
        hex_run(bytes, 16, gap) + "..."@
    } else {
        hex_run(bytes, bytes.len(), gap)
    }
}

fn write_digit(out: &mut String, n: u8)
    requires
        n < 16,
    ensures
        final(out)@ == old(out)@ + hex_digit(n as int),
{
    let digit = match n {
        0 => "0",
        1 => "1",
        2 => "2",
        3 => "3",
        4 => "4",
        5 => "5",
        6 => "6",
        7 => "7",
        8 => "8",
        9 => "9",
        10 => "A",
        11 => "B",
        12 => "C",
        13 => "D",
        14 => "E",
        _ => "F",
    };
    out.append(digit);
}

/// Append the two digits of `b` to `out`.
pub fn write_byte(out: &mut String, b: u8)
    ensures
        final(out)@ == old(out)@ + hex_byte(b),
{
    write_digit(out, b / 16);
    write_digit(out, b % 16);
    proof {
        assert(old(out)@ + hex_digit(b as int / 16) + hex_digit(b as int % 16) =~= old(out)@
            + hex_byte(b));
    }
}

/// Append the four digits of `v` to `out`.
pub fn write_u16(out: &mut String, v: u16)
    ensures
        final(out)@ == old(out)@ + hex_u16(v),
{
    write_byte(out, (v / 256) as u8);
    write_byte(out, (v % 256) as u8);
    proof {
        assert(old(out)@ + hex_byte((v as int / 256) as u8) + hex_byte((v as int % 256) as u8)
            =~= old(out)@ + hex_u16(v));
    }
}

/// Append the eight digits of `v` to `out`.
pub fn write_u32(out: &mut String, v: u32)
    ensures
        final(out)@ == old(out)@ + hex_u32(v),
{
    write_u16(out, (v / 65536) as u16);
    write_u16(out, (v % 65536) as u16);
    proof {
        assert(old(out)@ + hex_u16((v as int / 65536) as u16) + hex_u16(
            (v as int % 65536) as u16,
        ) =~= old(out)@ + hex_u32(v));
    }
}

fn write_cut(out: &mut String, bytes: &[u8], gap: &str)
    ensures
        final(out)@ == old(out)@ + hex_cut(bytes@, gap@),
{
    let shown = if bytes.len() > MAX_DISPLAY {
        MAX_DISPLAY
    } else {
        bytes.len()
    };
    let mut i: usize = 0;
    proof {
        assert(out@ =~= old(out)@ + hex_run(bytes@, 0, gap@));
    }
    while i < shown
        invariant
            i <= shown <= bytes.len(),
            out@ == old(out)@ + hex_run(bytes@, i as nat, gap@),
        decreases shown - i,
    {
        write_byte(out, bytes[i]);
        out.append(gap);
        proof {
            assert(out@ =~= old(out)@ + hex_run(bytes@, (i + 1) as nat, gap@));
        }
        i = i + 1;
    }
    if bytes.len() > MAX_DISPLAY {
        out.append("...");
        proof {
            assert(out@ =~= old(out)@ + hex_cut(bytes@, gap@));
        }
    }
}

impl Hex<u8> {
    /// Two upper-case hexadecimal digits.
    pub fn to_string(&self) -> (r: String)
        ensures
            r@ == hex_byte(self.0),
    {
        let mut out = String::new();
        write_byte(&mut out, self.0);
        proof {
            assert(Seq::<char>::empty() + hex_byte(self.0) =~= hex_byte(self.0));
        }
        out
    }
}

impl Hex<u16> {
    /// Four upper-case hexadecimal digits.
    pub fn to_string(&self) -> (r: String)
        ensures
            r@ == hex_u16(self.0),
    {
        let mut out = String::new();
        write_u16(&mut out, self.0);
        proof {
            assert(Seq::<char>::empty() + hex_u16(self.0) =~= hex_u16(self.0));
        }
        out
    }
}

impl Hex<u32> {
    /// Eight upper-case hexadecimal digits.
    pub fn to_string(&self) -> (r: String)
        ensures
            r@ == hex_u32(self.0),
    {
        let mut out = String::new();
        write_u32(&mut out, self.0);
        proof {
            assert(Seq::<char>::empty() + hex_u32(self.0) =~= hex_u32(self.0));
        }
        out
    }
}

impl<'a> ShortHex<'a> {
    /// The digits of the first sixteen bytes, and three dots if there are
    /// more.
    pub fn to_string(&self) -> (r: String)
        ensures
            r@ == hex_cut(self.0@, Seq::empty()),
    {
        let mut out = String::new();
        write_cut(&mut out, self.0, "");
        proof {
            reveal_strlit("");
            assert(""@ =~= Seq::<char>::empty());
            assert(Seq::<char>::empty() + hex_cut(self.0@, ""@) =~= hex_cut(self.0@, ""@));
        }
        out
    }
}

impl<'a> SpaceHex<'a> {
    /// The first sixteen bytes, two digits and a space each, and three dots
    /// if there are more.
    pub fn to_string(&self) -> (r: String)
        ensures
            r@ == hex_cut(self.0@, " "@),
    {
        let mut out = String::new();
        write_cut(&mut out, self.0, " ");
        proof {
            assert(Seq::<char>::empty() + hex_cut(self.0@, " "@) =~= hex_cut(self.0@, " "@));
        }
        out
    }
}

} // verus!
