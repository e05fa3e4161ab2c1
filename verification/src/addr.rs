//! IP addresses as plain octets, in network order.

use vstd::prelude::*;

verus! {

/// An IPv4 address.
#[derive(Debug, Clone, Copy, PartialEq, Eq)]
pub struct Ipv4Addr {
    pub octets: [u8; 4],
}

/// An IPv6 address.
#[derive(Debug, Clone, Copy, PartialEq, Eq)]
pub struct Ipv6Addr {
    pub octets: [u8; 16],
}

/// An address of either family.
#[derive(Debug, Clone, Copy, PartialEq, Eq)]
pub enum IpAddr {
    V4(Ipv4Addr),
    V6(Ipv6Addr),
}

/// What an address means: its family and its octets.
#[verifier::ext_equal]
pub enum IpView {
    V4(Seq<u8>),
    V6(Seq<u8>),
}

impl View for Ipv4Addr {
    type V = Seq<u8>;

    open spec fn view(&self) -> Seq<u8> {
        self.octets@
    }
}

impl View for Ipv6Addr {
    type V = Seq<u8>;

    open spec fn view(&self) -> Seq<u8> {
        self.octets@
    }
}

impl View for IpAddr {
    type V = IpView;

    open spec fn view(&self) -> IpView {
        match self {
            IpAddr::V4(a) => IpView::V4(a@),
            IpAddr::V6(a) => IpView::V6(a@),
        }
    }
}

/// Every octet is zero.
pub open spec fn zero_octets(octets: Seq<u8>) -> bool {
    forall|i: int| 0 <= i < octets.len() ==> octets[i] == 0
}

impl IpView {
    /// The octets, whatever the family.
    pub open spec fn octets(self) -> Seq<u8> {
        match self {
            IpView::V4(o) => o,
            IpView::V6(o) => o,
        }
    }

    /// The number of octets that an address of this family has.
    pub open spec fn width(self) -> nat {
        match self {
            IpView::V4(_) => 4,
            IpView::V6(_) => 16,
        }
    }

    /// An address has as many octets as its family asks for.
    pub open spec fn wf(self) -> bool {
        self.octets().len() == self.width()
    }

    /// `0.0.0.0` or `::`.
    pub open spec fn is_unspecified(self) -> bool {
        zero_octets(self.octets())
    }
}

impl Ipv4Addr {
    /// The address `a.b.c.d`.
    pub fn new(a: u8, b: u8, c: u8, d: u8) -> (addr: Ipv4Addr)
        ensures
            addr@ == seq![a, b, c, d],
    {
        let octets: [u8; 4] = [a, b, c, d];
        assert(octets@ =~= seq![a, b, c, d]);
        Ipv4Addr { octets }
    }
}

/// Whether every one of `octets` is zero.
fn all_zero(octets: &[u8]) -> (zero: bool)
    ensures
        zero == zero_octets(octets@),
{
    let mut i: usize = 0;
    while i < octets.len()
        invariant
            i <= octets@.len(),
            forall|j: int| 0 <= j < i ==> octets@[j] == 0,
        decreases octets@.len() - i,
    {
        if octets[i] != 0 {
            return false;
        }
        i += 1;
    }
    true
}

impl IpAddr {
    /// Whether this is the unspecified address of its family.
    pub fn is_unspecified(&self) -> (unspecified: bool)
        ensures
            unspecified == self@.is_unspecified(),
    {
        match self {
            IpAddr::V4(a) => all_zero(a.octets.as_slice()),
            IpAddr::V6(a) => all_zero(a.octets.as_slice()),
        }
    }
}

} // verus!
