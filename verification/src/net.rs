//! Addresses of peers and clients, as plain bytes.

use vstd::prelude::*;

verus! {

/// An IPv4 address: its four bytes in network order.
#[derive(Clone, Copy, Debug, PartialEq, Eq, Hash)]
pub struct Ipv4Addr {
    pub octets: [u8; 4],
}

/// An IPv6 address: its sixteen bytes in network order.
#[derive(Clone, Copy, Debug, PartialEq, Eq, Hash)]
pub struct Ipv6Addr {
    pub octets: [u8; 16],
}

/// An address of either family.
#[derive(Clone, Copy, Debug, PartialEq, Eq, Hash)]
pub enum IpAddr {
    V4(Ipv4Addr),
    V6(Ipv6Addr),
}

/// High byte of a 16-bit group.
pub open spec fn high_byte(segment: u16) -> u8 {
    (segment / 256) as u8
}

/// Low byte of a 16-bit group.
pub open spec fn low_byte(segment: u16) -> u8 {
    (segment % 256) as u8
}

impl Ipv4Addr {
    pub fn new(a: u8, b: u8, c: u8, d: u8) -> (addr: Ipv4Addr)
        ensures
            addr.octets@ == seq![a, b, c, d],
    {
        let addr = Ipv4Addr { octets: [a, b, c, d] };
        assert(addr.octets@ =~= seq![a, b, c, d]);
        addr
    }

    pub fn octets(&self) -> (o: [u8; 4])
        ensures
            o == self.octets,
    {
        self.octets
    }

    /// The address written as IPv6 (`::ffff:a.b.c.d`), under which a
    /// socket for IPv6 reaches it. Mapping that address down gives this
    /// address back.
    pub fn to_ipv6_mapped(&self) -> (r: Ipv6Addr)
        ensures
            r.is_ipv4_mapped(),
            r.embedded_ipv4() == self.octets@,
            IpAddr::V6(r).canonical() == IpAddr::V4(*self),
    {
        let o = self.octets;
        let r = Ipv6Addr { octets: [0, 0, 0, 0, 0, 0, 0, 0, 0, 0, 0xff, 0xff, o[0], o[1], o[2], o[3]] };
        proof {
            assert(r.embedded_ipv4() =~= self.octets@);
            let back = Ipv4Addr {
                octets: [r.octets[12], r.octets[13], r.octets[14], r.octets[15]],
            };
            assert(back.octets =~= self.octets);
        }
        r
    }

    /// Whether both addresses hold the same bytes.
    pub fn same(&self, other: &Ipv4Addr) -> (r: bool)
        ensures
            r == (*self == *other),
    {
        let r = self.octets[0] == other.octets[0] && self.octets[1] == other.octets[1]
            && self.octets[2] == other.octets[2] && self.octets[3] == other.octets[3];
        assert(r ==> self.octets =~= other.octets);
        r
    }
}

impl Ipv6Addr {
    /// Address made of eight 16-bit groups, the most significant first.
    pub open spec fn from_segments(s: Seq<u16>) -> Seq<u8> {
        Seq::new(16, |i: int| if i % 2 == 0 { high_byte(s[i / 2]) } else { low_byte(s[i / 2]) })
    }

    pub fn new(a: u16, b: u16, c: u16, d: u16, e: u16, f: u16, g: u16, h: u16) -> (addr: Ipv6Addr)
        ensures
            addr.octets@ == Ipv6Addr::from_segments(seq![a, b, c, d, e, f, g, h]),
    {
        let addr = Ipv6Addr {
            octets: [
                (a / 256) as u8,
                (a % 256) as u8,
                (b / 256) as u8,
                (b % 256) as u8,
                (c / 256) as u8,
                (c % 256) as u8,
                (d / 256) as u8,
                (d % 256) as u8,
                (e / 256) as u8,
                (e % 256) as u8,
                (f / 256) as u8,
                (f % 256) as u8,
                (g / 256) as u8,
                (g % 256) as u8,
                (h / 256) as u8,
                (h % 256) as u8,
            ],
        };
        assert(addr.octets@ =~= Ipv6Addr::from_segments(seq![a, b, c, d, e, f, g, h]));
        addr
    }

    pub fn octets(&self) -> (o: [u8; 16])
        ensures
            o == self.octets,
    {
        self.octets
    }

    /// Whether both addresses hold the same bytes.
    pub fn same(&self, other: &Ipv6Addr) -> (r: bool)
        ensures
            r == (*self == *other),
    {
        let mut i: usize = 0;
        while i < 16
            invariant
                i <= 16,
                forall|j: int| 0 <= j < i ==> self.octets[j] == other.octets[j],
            decreases 16 - i,
        {
            if self.octets[i] != other.octets[i] {
                return false;
            }
            i += 1;
        }
        assert(self.octets =~= other.octets);
        true
    }

    /// Whether this is an IPv4 address written as IPv6 (`::ffff:a.b.c.d`).
    pub open spec fn is_ipv4_mapped(&self) -> bool {
        &&& forall|i: int| 0 <= i < 10 ==> self.octets[i] == 0
        &&& self.octets[10] == 0xff
        &&& self.octets[11] == 0xff
    }

    /// The IPv4 address inside an IPv4-mapped address.
    pub open spec fn embedded_ipv4(&self) -> Seq<u8> {
        self.octets@.subrange(12, 16)
    }
}

impl IpAddr {
    /// Whether both addresses are of one family and hold the same bytes.
    pub fn same(&self, other: &IpAddr) -> (r: bool)
        ensures
            r == (*self == *other),
    {
        match (self, other) {
            (IpAddr::V4(a), IpAddr::V4(b)) => a.same(b),
            (IpAddr::V6(a), IpAddr::V6(b)) => a.same(b),
            _ => false,
        }
    }

    /// The address with an IPv4-mapped IPv6 address turned into plain IPv4.
    pub open spec fn canonical(self) -> IpAddr {
        match self {
            IpAddr::V4(a) => IpAddr::V4(a),
            IpAddr::V6(a) => if a.is_ipv4_mapped() {
                IpAddr::V4(
                    Ipv4Addr { octets: [a.octets[12], a.octets[13], a.octets[14], a.octets[15]] },
                )
            } else {
                IpAddr::V6(a)
            },
        }
    }

    pub open spec fn is_canonical(self) -> bool {
        self matches IpAddr::V6(a) ==> !a.is_ipv4_mapped()
    }
}

/// Maps an IPv4-mapped IPv6 address down to IPv4 and leaves every other
/// address as it is.
pub fn convert_ipv4_mapped_ipv6(ip: IpAddr) -> (r: IpAddr)
    ensures
        r == ip.canonical(),
        r.is_canonical(),
{
    match ip {
        IpAddr::V4(a) => IpAddr::V4(a),
        IpAddr::V6(a) => {
            let mut i: usize = 0;
            while i < 10
                invariant
                    i <= 10,
                    ip == IpAddr::V6(a),
                    forall|j: int| 0 <= j < i ==> a.octets[j] == 0,
                decreases 10 - i,
            {
                if a.octets[i] != 0 {
                    assert(a.octets[i as int] != 0);
                    return IpAddr::V6(a);
                }
                i += 1;
            }
            if a.octets[10] == 0xff && a.octets[11] == 0xff {
                IpAddr::V4(
                    Ipv4Addr { octets: [a.octets[12], a.octets[13], a.octets[14], a.octets[15]] },
                )
            } else {
                IpAddr::V6(a)
            }
        },
    }
}

/// An address family a torrent map can be kept for.
pub trait Ip: Clone + Copy {
    spec fn as_ip_addr(self) -> IpAddr;

    fn ip_addr(self) -> (r: IpAddr)
        ensures
            r == self.as_ip_addr(),
    ;
}

impl Ip for Ipv4Addr {
    open spec fn as_ip_addr(self) -> IpAddr {
        IpAddr::V4(self)
    }

    fn ip_addr(self) -> (r: IpAddr) {
        IpAddr::V4(self)
    }
}

impl Ip for Ipv6Addr {
    open spec fn as_ip_addr(self) -> IpAddr {
        IpAddr::V6(self)
    }

    fn ip_addr(self) -> (r: IpAddr) {
        IpAddr::V6(self)
    }
}

/// Address a datagram came from, after IPv4-mapped IPv6 addresses were
/// mapped down to IPv4.
#[derive(Clone, Copy, Debug, PartialEq, Eq, Hash)]
pub struct CanonicalSocketAddr {
    pub ip: IpAddr,
    pub port: u16,
}

impl CanonicalSocketAddr {
    pub fn new(ip: IpAddr, port: u16) -> (addr: CanonicalSocketAddr)
        ensures
            addr.ip == ip.canonical(),
            addr.ip.is_canonical(),
            addr.port == port,
    {
        CanonicalSocketAddr { ip: convert_ipv4_mapped_ipv6(ip), port }
    }

    pub fn ip(&self) -> (ip: IpAddr)
        ensures
            ip == self.ip,
    {
        self.ip
    }
}

/// Mapping down twice changes nothing more.
pub proof fn lemma_canonical_is_idempotent(ip: IpAddr)
    ensures
        ip.canonical().canonical() == ip.canonical(),
        ip.canonical().is_canonical(),
{
}

} // verus!
