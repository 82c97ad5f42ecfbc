//! The USB address that the command line takes.

use crate::utils::{hex_u16, write_u16};
use vstd::prelude::*;
use vstd::string::StringExecFns;
use vstd::string::StringSliceAdditionalSpecFns;

verus! {

/// A vendor and a product identifier.
#[derive(Debug, Clone, Copy, PartialEq, Eq, Structural)]
pub struct UsbAddr {
    pub vid: u16,
    pub pid: u16,
}

/// The value of a hexadecimal digit, upper or lower case.
pub open spec fn digit_value(c: u8) -> Option<nat> {
    if 0x30 <= c <= 0x39 {
        Some((c - 0x30) as nat)
    } else if 0x41 <= c <= 0x46 {
        Some((c - 0x41 + 10) as nat)
    } else if 0x61 <= c <= 0x66 {
        Some((c - 0x61 + 10) as nat)
    } else {
        None
    }
}

/// Whether every byte is a hexadecimal digit.
pub open spec fn all_digits(s: Seq<u8>) -> bool {
    forall|i: int| 0 <= i < s.len() ==> digit_value(#[trigger] s[i]) is Some
}

/// The number that hexadecimal digits write, most significant first.
pub open spec fn digits_value(s: Seq<u8>) -> nat
    decreases s.len(),
{
    if s.len() == 0 {
        0
    } else {
        16 * digits_value(s.drop_last()) + match digit_value(s.last()) {
            Some(d) => d,
            None => 0,
        }
    }
}

/// The digits of a number: the text without a plus sign in front.
pub open spec fn unsigned(s: Seq<u8>) -> Seq<u8> {
    if s.len() > 0 && s[0] == 0x2b {
        s.skip(1)
    } else {
        s
    }
}

/// The 16-bit number that a text writes in hexadecimal: an optional plus
/// sign, then one or more digits whose value is below 65536.
pub open spec fn hex16(s: Seq<u8>) -> Option<u16> {
    let d = unsigned(s);
    if d.len() > 0 && all_digits(d) && digits_value(d) < 65536 {
        Some(digits_value(d) as u16)
    } else {
        None
    }
}

/// The position of the first colon of a text.
pub open spec fn colon(s: Seq<u8>) -> Option<int> {
    if exists|i: int| 0 <= i < s.len() && s[i] == 0x3a {
        Some(
            choose|i: int|
                0 <= i < s.len() && s[i] == 0x3a && forall|j: int| 0 <= j < i ==> s[j] != 0x3a,
        )
    } else {
        None
    }
}

/// The address that a text of the form `vid:pid` writes, both parts in
/// hexadecimal.
pub open spec fn parsed(s: Seq<u8>) -> Option<UsbAddr> {
    match colon(s) {
        None => None,
        Some(at) => match (hex16(s.take(at)), hex16(s.skip(at + 1))) {
            (Some(vid), Some(pid)) => Some(UsbAddr { vid, pid }),
            _ => None,
        },
    }
}

proof fn lemma_digits_prefix(s: Seq<u8>, k: int)
    requires
        all_digits(s),
        0 <= k <= s.len(),
    ensures
        digits_value(s.take(k)) <= digits_value(s),
    decreases s.len() - k,
{
    if k < s.len() {
        let next = s.take(k + 1);
        assert(next.drop_last() =~= s.take(k));
        lemma_digits_prefix(s, k + 1);
    } else {
        assert(s.take(k) =~= s);
    }
}

/// The 16-bit number that `s` writes in hexadecimal.
pub fn parse_hex16(s: &[u8]) -> (r: Option<u16>)
    ensures
        r == hex16(s@),
{
    let start: usize = if s.len() > 0 && s[0] == 0x2b {
        1
    } else {
        0
    };
    let ghost d = unsigned(s@);
    proof {
        assert(d =~= s@.skip(start as int));
    }
    if start >= s.len() {
        return None;
    }
    let mut value: u32 = 0;
    let mut i: usize = start;
    proof {
        assert(d.take(0) =~= Seq::<u8>::empty());
    }
    while i < s.len()
        invariant
            start <= i <= s@.len(),
            d == s@.skip(start as int),
            d == unsigned(s@),
            all_digits(d.take(i - start)),
            value == digits_value(d.take(i - start)),
            value < 65536,
        decreases s@.len() - i,
    {
        let c = s[i];
        let digit: u32 = if 0x30 <= c && c <= 0x39 {
            (c - 0x30) as u32
        } else if 0x41 <= c && c <= 0x46 {
            (c - 0x41 + 10) as u32
        } else if 0x61 <= c && c <= 0x66 {
            (c - 0x61 + 10) as u32
        } else {
            proof {
                assert(d[i - start] == c);
                assert(digit_value(d[i - start]) is None);
                assert(!all_digits(d));
            }
            return None;
        };
        proof {
            let next = d.take(i + 1 - start);
            assert(next.drop_last() =~= d.take(i - start));
            assert(next.last() == c);
            assert forall|k: int| 0 <= k < next.len() implies digit_value(
                #[trigger] next[k],
            ) is Some by {
                if k < next.len() - 1 {
                    assert(next[k] == d.take(i - start)[k]);
                }
            }
        }
        proof {
            let next = d.take(i + 1 - start);
            assert(digit_value(c) == Some(digit as nat));
            assert(digits_value(next) == 16 * digits_value(next.drop_last()) + digit);
        }
        value = 16 * value + digit;
        if value >= 65536 {
            proof {
                if all_digits(d) {
                    lemma_digits_prefix(d, i + 1 - start);
                }
            }
            return None;
        }
        i = i + 1;
    }
    proof {
        assert(d.take(d.len() as int) =~= d);
    }
    Some(value as u16)
}

impl UsbAddr {
    /// The address that `s` writes as `vid:pid`, both parts in hexadecimal.
    pub fn from_str(s: &str) -> (r: Option<Self>)
        ensures
            r == parsed(s.spec_bytes()),
    {
        Self::parse(s.as_bytes())
    }

    /// The address that `s` writes as `vid:pid`, both parts in hexadecimal.
    pub fn parse(s: &[u8]) -> (r: Option<Self>)
        ensures
            r == parsed(s@),
    {
        let mut at: usize = 0;
        while at < s.len() && s[at] != 0x3a
            invariant
                at <= s@.len(),
                forall|j: int| 0 <= j < at ==> s@[j] != 0x3a,
            decreases s@.len() - at,
        {
            at = at + 1;
        }
        if at >= s.len() {
            return None;
        }
        proof {
            let found = choose|i: int|
                0 <= i < s@.len() && s@[i] == 0x3a && forall|j: int| 0 <= j < i ==> s@[j] != 0x3a;
            assert(s@[at as int] == 0x3a);
            if found < at {
                assert(s@[found] != 0x3a);
            }
            if at < found {
                assert(s@[at as int] != 0x3a);
            }
            assert(colon(s@) == Some(at as int));
        }
        let vid = parse_hex16(vstd::slice::slice_subrange(s, 0, at));
        let pid = parse_hex16(vstd::slice::slice_subrange(s, at + 1, s.len()));
        proof {
            assert(s@.subrange(0, at as int) =~= s@.take(at as int));
            assert(s@.subrange(at + 1, s@.len() as int) =~= s@.skip(at + 1));
        }
        match (vid, pid) {
            (Some(vid), Some(pid)) => Some(UsbAddr { vid, pid }),
            _ => None,
        }
    }

    /// The address as `VID:PID`, four upper-case hexadecimal digits each.
    pub fn to_string(&self) -> (r: String)
        ensures
            r@ == hex_u16(self.vid) + ":"@ + hex_u16(self.pid),
    {
        let mut out = String::new();
        write_u16(&mut out, self.vid);
        out.append(":");
        write_u16(&mut out, self.pid);
        proof {
            assert(Seq::<char>::empty() + hex_u16(self.vid) =~= hex_u16(self.vid));
        }
        out
    }
}

} // verus!
