//! IPv4 addresses.

use vstd::prelude::*;

verus! {

/// The address written `a.b.c.d`, as a number.
pub open spec fn dotted_value(a: u8, b: u8, c: u8, d: u8) -> int {
    a * 16777216 + b * 65536 + c * 256 + d
}

/// An IPv4 address, held as the number that its octets form.
#[derive(Debug, Clone, Copy, PartialEq, Eq, Structural)]
pub struct Ipv4Addr {
    pub bits: u32,
}

impl Ipv4Addr {
    /// The address `a.b.c.d`.
    pub fn new(a: u8, b: u8, c: u8, d: u8) -> (r: Ipv4Addr)
        ensures
            r.bits == dotted_value(a, b, c, d),
    {
        Ipv4Addr { bits: a as u32 * 16777216 + b as u32 * 65536 + c as u32 * 256 + d as u32 }
    }

    /// The address with the given value.
    pub fn from_bits(bits: u32) -> (r: Ipv4Addr)
        ensures
            r == (Ipv4Addr { bits }),
    {
        Ipv4Addr { bits }
    }

    /// The address as a number.
    pub fn to_bits(self) -> (r: u32)
        ensures
            r == self.bits,
    {
        self.bits
    }

    /// True of `0.0.0.0` only.
    pub fn is_unspecified(&self) -> (r: bool)
        ensures
            r == (self.bits == dotted_value(0, 0, 0, 0)),
    {
        self.bits == 0
    }

    /// The four octets, the first one written first.
    pub fn octets(self) -> (r: (u8, u8, u8, u8))
        ensures
            dotted_value(r.0, r.1, r.2, r.3) == self.bits,
    {
        let a: u8 = (self.bits / 16777216) as u8;
        let b: u8 = ((self.bits / 65536) % 256) as u8;
        let c: u8 = ((self.bits / 256) % 256) as u8;
        let d: u8 = (self.bits % 256) as u8;
        (a, b, c, d)
    }
}

/// An address has one dotted form only.
pub proof fn law_dotted_form_is_unique(
    a: u8,
    b: u8,
    c: u8,
    d: u8,
    a2: u8,
    b2: u8,
    c2: u8,
    d2: u8,
)
    requires
        dotted_value(a, b, c, d) == dotted_value(a2, b2, c2, d2),
    ensures
        a == a2 && b == b2 && c == c2 && d == d2,
{
}

/// The values of addresses lie below 2 to the power of 32 and are ordered as their dotted forms:
/// by the first octet in which they differ.
pub proof fn law_dotted_form_orders(a: u8, b: u8, c: u8, d: u8, a2: u8, b2: u8, c2: u8, d2: u8)
    ensures
        0 <= dotted_value(a, b, c, d) <= 0xFFFF_FFFF,
        dotted_value(a, b, c, d) < dotted_value(a2, b2, c2, d2) <==> {
            ||| a < a2
            ||| a == a2 && b < b2
            ||| a == a2 && b == b2 && c < c2
            ||| a == a2 && b == b2 && c == c2 && d < d2
        },
{
}

} // verus!
