use vstd::prelude::*;
use crate::text::{all_digits, decimal_value, is_digit};

verus! {

/// An IPv4 address, held as its 32 bits with the first octet most significant
/// (the number std's `u32::from(Ipv4Addr)` gives).
#[derive(Debug, Clone, Copy, PartialEq, Eq, Structural)]
pub struct Ipv4Address {
    /// The address as a big-endian 32-bit number.
    pub bits: u32,
}

/// The 32 bits of the address `a.b.c.d`.
pub open spec fn octets_to_bits(a: u8, b: u8, c: u8, d: u8) -> u32 {
    (a as int * 0x1000000 + b as int * 0x10000 + c as int * 0x100 + d as int) as u32
}

impl Ipv4Address {
    /// The address `a.b.c.d`.
    pub fn new(a: u8, b: u8, c: u8, d: u8) -> (r: Self)
        ensures
            r.bits == octets_to_bits(a, b, c, d),
    {
        Ipv4Address { bits: (a as u32) * 0x1000000 + (b as u32) * 0x10000 + (c as u32) * 0x100 + d as u32 }
    }

    /// The address whose 32 bits are `bits`.
    pub fn from_bits(bits: u32) -> (r: Self)
        ensures
            r.bits == bits,
    {
        Ipv4Address { bits }
    }

    /// The four octets of the address, first octet first.
    pub fn octets(&self) -> (r: [u8; 4])
        ensures
            octets_to_bits(r[0], r[1], r[2], r[3]) == self.bits,
    {
        let a = (self.bits / 0x1000000) as u8;
        let b = ((self.bits / 0x10000) % 0x100) as u8;
        let c = ((self.bits / 0x100) % 0x100) as u8;
        let d = (self.bits % 0x100) as u8;
        [a, b, c, d]
    }
}

/// A socket address as std's `SocketAddr` holds it: an IPv4 address and port, or an
/// IPv6 address (as its 128 bits) with port, flow information and scope.
#[derive(Debug, Clone, Copy, PartialEq, Eq, Structural)]
pub enum SocketAddress {
    /// An IPv4 socket address.
    V4 { ip: Ipv4Address, port: u16 },
    /// An IPv6 socket address.
    V6 { ip: u128, port: u16, flowinfo: u32, scope_id: u32 },
}

/// The port of a socket address.
pub open spec fn spec_port(a: SocketAddress) -> u16 {
    match a {
        SocketAddress::V4 { port, .. } => port,
        SocketAddress::V6 { port, .. } => port,
    }
}

/// What std's `SocketAddr::set_ip` with an IPv4 address leaves: that address with the
/// same port (an IPv6 address becomes an IPv4 one).
pub open spec fn with_ipv4(a: SocketAddress, ip: Ipv4Address) -> SocketAddress {
    SocketAddress::V4 { ip, port: spec_port(a) }
}

/// What std's `SocketAddr::set_port` leaves: everything but the port unchanged.
pub open spec fn with_port(a: SocketAddress, port: u16) -> SocketAddress {
    match a {
        SocketAddress::V4 { ip, .. } => SocketAddress::V4 { ip, port },
        SocketAddress::V6 { ip, flowinfo, scope_id, .. } => SocketAddress::V6 {
            ip,
            port,
            flowinfo,
            scope_id,
        },
    }
}

impl SocketAddress {
    /// The port of this address.
    pub fn port(&self) -> (r: u16)
        ensures
            r == spec_port(*self),
    {
        match self {
            SocketAddress::V4 { port, .. } => *port,
            SocketAddress::V6 { port, .. } => *port,
        }
    }

    /// Replaces the IP address by an IPv4 address, keeping the port.
    pub fn set_ipv4(&mut self, ip: Ipv4Address)
        ensures
            *final(self) == with_ipv4(*old(self), ip),
    {
        let port = self.port();
        *self = SocketAddress::V4 { ip, port };
    }

    /// Replaces the port.
    pub fn set_port(&mut self, port: u16)
        ensures
            *final(self) == with_port(*old(self), port),
    {
        match *self {
            SocketAddress::V4 { ip, .. } => {
                *self = SocketAddress::V4 { ip, port };
            },
            SocketAddress::V6 { ip, flowinfo, scope_id, .. } => {
                *self = SocketAddress::V6 { ip, port, flowinfo, scope_id };
            },
        }
    }
}

/// The positions of the `.` bytes in `b`, in increasing order.
pub open spec fn dot_positions(b: Seq<u8>) -> Seq<int>
    decreases b.len(),
{
    if b.len() == 0 {
        seq![]
    } else if b.last() == 0x2eu8 {
        dot_positions(b.drop_last()).push(b.len() - 1)
    } else {
        dot_positions(b.drop_last())
    }
}

/// The octet that one dotted field writes: one to three digits, no leading zero
/// but in `0` itself, and a value of at most 255.
pub open spec fn spec_octet(f: Seq<u8>) -> Option<u8> {
    if 1 <= f.len() <= 3 && all_digits(f) && !(f.len() > 1 && f[0] == 0x30u8) && decimal_value(f)
        <= 255 {
        Some(decimal_value(f) as u8)
    } else {
        None
    }
}

/// The address that std's `str::parse::<Ipv4Addr>` reads from the UTF-8 bytes `b`:
/// exactly four octet fields separated by three dots.
pub open spec fn spec_parse_ipv4(b: Seq<u8>) -> Option<Ipv4Address> {
    let d = dot_positions(b);
    if d.len() != 3 {
        None
    } else {
        match (
            spec_octet(b.subrange(0, d[0])),
            spec_octet(b.subrange(d[0] + 1, d[1])),
            spec_octet(b.subrange(d[1] + 1, d[2])),
            spec_octet(b.subrange(d[2] + 1, b.len() as int)),
        ) {
            (Some(o0), Some(o1), Some(o2), Some(o3)) => Some(
                Ipv4Address { bits: octets_to_bits(o0, o1, o2, o3) },
            ),
            _ => None,
        }
    }
}

/// Reads the octet written by `b[start..end]`.
fn parse_octet(b: &[u8], start: usize, end: usize) -> (r: Option<u8>)
    requires
        start <= end <= b@.len(),
    ensures
        r == spec_octet(b@.subrange(start as int, end as int)),
{
    let ghost f = b@.subrange(start as int, end as int);
    let n = end - start;
    if n < 1 || n > 3 {
        return None;
    }
    if n > 1 && b[start] == 0x30u8 {
        return None;
    }
    let mut v: u32 = 0;
    let mut i: usize = 0;
    while i < n
        invariant
            n == end - start,
            1 <= n <= 3,
            start + n <= b@.len(),
            f == b@.subrange(start as int, end as int),
            i <= n,
            all_digits(f.take(i as int)),
            v == decimal_value(f.take(i as int)),
            i == 0 ==> v == 0,
            i == 1 ==> v < 10,
            i == 2 ==> v < 100,
            v < 1000,
        decreases n - i,
    {
        let c = b[start + i];
        if c < 0x30u8 || c > 0x39u8 {
            assert(!is_digit(f[i as int]));
            return None;
        }
        assert(f.take(i + 1).drop_last() =~= f.take(i as int));
        v = v * 10 + (c - 0x30u8) as u32;
        i = i + 1;
    }
    assert(f.take(n as int) =~= f);
    if v > 255 {
        return None;
    }
    Some(v as u8)
}

/// Reads an IPv4 address in dotted-quad form from the bytes of a string.
pub fn parse_ipv4(b: &[u8]) -> (r: Option<Ipv4Address>)
    ensures
        r == spec_parse_ipv4(b@),
{
    let mut dots: Vec<usize> = Vec::new();
    let mut i: usize = 0;
    while i < b.len()
        invariant
            i <= b@.len(),
            dots@.len() == dot_positions(b@.take(i as int)).len(),
            forall|j: int|
                0 <= j < dots@.len() ==> dots@[j] as int == #[trigger] dot_positions(
                    b@.take(i as int),
                )[j],
            forall|j: int, k: int| 0 <= j < k < dots@.len() ==> dots@[j] < dots@[k],
            forall|j: int| 0 <= j < dots@.len() ==> dots@[j] < i,
        decreases b@.len() - i,
    {
        assert(b@.take(i + 1).drop_last() =~= b@.take(i as int));
        if b[i] == 0x2eu8 {
            dots.push(i);
        }
        i = i + 1;
    }
    assert(b@.take(i as int) =~= b@);
    if dots.len() != 3 {
        return None;
    }
    let d0 = dots[0];
    let d1 = dots[1];
    let d2 = dots[2];
    let o0 = parse_octet(b, 0, d0);
    let o1 = parse_octet(b, d0 + 1, d1);
    let o2 = parse_octet(b, d1 + 1, d2);
    let o3 = parse_octet(b, d2 + 1, b.len());
    match (o0, o1, o2, o3) {
        (Some(a), Some(bb), Some(c), Some(d)) => Some(Ipv4Address::new(a, bb, c, d)),
        _ => None,
    }
}

} // verus!
