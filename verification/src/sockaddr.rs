//! The socket addresses that follow a macOS route message header.
//!
//! The constants are those of macOS, whatever host the library is built for.

use vstd::prelude::*;

use crate::addr::{IpAddr, IpView, Ipv4Addr, Ipv6Addr};
use crate::route::{ip_option_view, ErrorView, RouteParseError};

verus! {

/// Address family of a `sockaddr_in`.
pub const AF_INET: u16 = 2;

/// Address family of a `sockaddr_in6` on macOS.
pub const AF_INET6: u16 = 30;

/// Address family of a link-level address.
pub const AF_LINK: u16 = 18;

/// The bytes that a sockaddr of length `sa_len` takes up: `sa_len` rounded up
/// to a multiple of four, and never nothing.
pub open spec fn padded_len(sa_len: u8) -> int {
    if sa_len == 0 {
        4
    } else {
        (sa_len + 3) / 4 * 4
    }
}

/// The space that a sockaddr takes up in a message.
///
/// Sockaddrs are padded to a multiple of four bytes, and one of length zero
/// still takes a slot of four.
pub fn roundup(sa_len: u8) -> (size: usize)
    ensures
        size == padded_len(sa_len),
        size % 4 == 0,
        4 <= size <= 256,
        sa_len <= size,
        sa_len > 0 ==> size < sa_len + 4,
{
    if sa_len == 0 {
        4
    } else {
        let last: usize = (sa_len as usize) - 1;
        assert((last | 3) == last / 4 * 4 + 3) by (bit_vector)
            requires
                last < 256,
        ;
        (last | 3) + 1
    }
}

/// What the bytes of a sockaddr stand for: an address, or none for a link-level
/// or empty sockaddr, or the reason why they cannot be decoded.
pub open spec fn sockaddr_address(sa: Seq<u8>) -> Result<Option<IpView>, ErrorView> {
    if sa.len() < 2 {
        Ok(None)
    } else if sa[1] == AF_INET {
        if sa.len() < 8 {
            Err(ErrorView::Truncated { what: "sockaddr_in"@, need: 8, got: sa.len() })
        } else {
            Ok(Some(IpView::V4(sa.subrange(4, 8))))
        }
    } else if sa[1] == AF_INET6 {
        if sa.len() < 24 {
            Err(ErrorView::Truncated { what: "sockaddr_in6"@, need: 24, got: sa.len() })
        } else {
            Ok(Some(IpView::V6(sa.subrange(8, 24))))
        }
    } else if sa[1] == AF_LINK {
        Ok(None)
    } else {
        Err(ErrorView::BadAddressFamily(sa[1] as u16))
    }
}

/// Decodes a sockaddr into an address.
///
/// # Errors
///
/// [`RouteParseError::Truncated`] where the sockaddr is too short for its
/// family, [`RouteParseError::BadAddressFamily`] where the family is not
/// handled.
pub fn sa_to_ip(sa: &[u8]) -> (decoded: Result<Option<IpAddr>, RouteParseError>)
    ensures
        match decoded {
            Ok(ip) => sockaddr_address(sa@) == Ok::<Option<IpView>, ErrorView>(ip_option_view(ip)),
            Err(e) => sockaddr_address(sa@) == Err::<Option<IpView>, ErrorView>(e@),
        },
{
    if sa.len() < 2 {
        return Ok(None);
    }
    let family: u16 = sa[1] as u16;
    if family == AF_INET {
        if sa.len() < 8 {
            return Err(RouteParseError::Truncated { what: "sockaddr_in", need: 8, got: sa.len() });
        }
        let v4: Ipv4Addr = Ipv4Addr::new(sa[4], sa[5], sa[6], sa[7]);
        assert(v4@ =~= sa@.subrange(4, 8));
        Ok(Some(IpAddr::V4(v4)))
    } else if family == AF_INET6 {
        if sa.len() < 24 {
            return Err(
                RouteParseError::Truncated { what: "sockaddr_in6", need: 24, got: sa.len() },
            );
        }
        let mut octets: [u8; 16] = [0u8; 16];
        let mut i: usize = 0;
        while i < 16
            invariant
                i <= 16,
                sa@.len() >= 24,
                forall|j: int| 0 <= j < i ==> octets@[j] == sa@[8 + j],
            decreases 16 - i,
        {
            octets[i] = sa[8 + i];
            i += 1;
        }
        assert(octets@ =~= sa@.subrange(8, 24));
        Ok(Some(IpAddr::V6(Ipv6Addr { octets })))
    } else if family == AF_LINK {
        Ok(None)
    } else {
        Err(RouteParseError::BadAddressFamily(family))
    }
}

/// An IPv6 address in which macOS stores a scope: a link-local one, or a
/// multicast one of interface-local or link-local scope.
pub open spec fn carries_scope(octets: Seq<u8>) -> bool {
    ||| octets[0] == 0xfe && octets[1] == 0x80
    ||| octets[0] == 0xff && (octets[1] % 16 == 1 || octets[1] % 16 == 2)
}

/// The address itself, without a scope that is stored in it.
pub open spec fn without_scope(ip: IpView) -> IpView {
    match ip {
        IpView::V6(octets) if carries_scope(octets) => IpView::V6(
            octets.update(2, 0).update(3, 0),
        ),
        _ => ip,
    }
}

/// Clears the scope that macOS stores in the third and fourth octet of an IPv6
/// gateway.
pub fn normalize_v6_scope(ip: Option<IpAddr>) -> (normalized: Option<IpAddr>)
    ensures
        normalized is Some <==> ip is Some,
        ip matches Some(a) ==> normalized matches Some(b) && b@ == without_scope(a@),
{
    if let Some(IpAddr::V6(v6)) = ip {
        let mut octets: [u8; 16] = v6.octets;
        let second: u8 = octets[1];
        assert(second & 0x0f == second % 16) by (bit_vector);
        let link_local: bool = octets[0] == 0xfe && second == 0x80;
        let multicast: bool = octets[0] == 0xff;
        let scope: u8 = second & 0x0f;
        if link_local || (multicast && (scope == 1 || scope == 2)) {
            octets[2] = 0;
            octets[3] = 0;
            return Some(IpAddr::V6(Ipv6Addr { octets }));
        }
    }
    ip
}

/// The offset at which the address starts in a sockaddr of the family of `dst`.
pub open spec fn address_offset(dst: IpView) -> int {
    match dst {
        IpView::V4(_) => 4,
        IpView::V6(_) => 8,
    }
}

/// The number of mask octets that the length byte of a netmask sockaddr
/// announces.
pub open spec fn announced_octets(sa: Seq<u8>, dst: IpView) -> int {
    let sa_len = if sa.len() == 0 {
        0
    } else {
        sa[0] as int
    };
    if sa_len <= address_offset(dst) {
        0
    } else if sa_len - address_offset(dst) < dst.width() {
        sa_len - address_offset(dst)
    } else {
        dst.width() as int
    }
}

/// The netmask that a sockaddr stands for, for a destination of the family of
/// `dst`: the octets that its length announces, and zeros for those that are
/// left out. A sockaddr that does not hold what it announces is all zeros.
pub open spec fn mask_octets(sa: Seq<u8>, dst: IpView) -> Seq<u8> {
    let off = address_offset(dst);
    let present = announced_octets(sa, dst);
    Seq::new(
        dst.width(),
        |i: int|
            if i < present && off + present <= sa.len() {
                sa[off + i]
            } else {
                0u8
            },
    )
}

/// Bit `k` of `mask`, counted from the most significant bit of the first octet.
pub open spec fn mask_bit(mask: Seq<u8>, k: int) -> bool {
    mask[k / 8] & (1u8 << ((7 - k % 8) as u8)) != 0
}

/// The number of one bits that follow one another from bit `k` on.
pub open spec fn ones_from(mask: Seq<u8>, k: int) -> nat
    decreases 8 * mask.len() - k,
{
    if 0 <= k < 8 * mask.len() && mask_bit(mask, k) {
        1 + ones_from(mask, k + 1)
    } else {
        0
    }
}

/// The prefix length that a mask stands for: the number of its leading one
/// bits.
pub open spec fn leading_ones(mask: Seq<u8>) -> nat {
    ones_from(mask, 0)
}

/// The run of ones ends within the mask.
pub proof fn lemma_ones_from_bound(mask: Seq<u8>, k: int)
    requires
        0 <= k <= 8 * mask.len(),
    ensures
        k + ones_from(mask, k) <= 8 * mask.len(),
    decreases 8 * mask.len() - k,
{
    if k < 8 * mask.len() && mask_bit(mask, k) {
        lemma_ones_from_bound(mask, k + 1);
    }
}

/// Counts the leading one bits of a mask.
fn count_leading_ones(mask: &Vec<u8>) -> (bits: u8)
    requires
        mask@.len() <= 16,
    ensures
        bits == leading_ones(mask@),
{
    let total: u8 = 8 * (mask.len() as u8);
    let mut bits: u8 = 0;
    while bits < total
        invariant
            mask@.len() <= 16,
            total == 8 * mask@.len(),
            bits <= total,
            leading_ones(mask@) == bits + ones_from(mask@, bits as int),
        decreases total - bits,
    {
        let byte: u8 = mask[(bits / 8) as usize];
        if byte & (1u8 << (7 - bits % 8)) != 0 {
            bits += 1;
        } else {
            return bits;
        }
    }
    bits
}

/// The prefix length of a netmask sockaddr, which may leave out trailing zero
/// octets.
///
/// Such a compressed mask often has no family of its own, so its width is that
/// of the destination.
pub fn mask_to_prefix(sa: &[u8], dst: IpAddr) -> (prefix: u8)
    ensures
        prefix == leading_ones(mask_octets(sa@, dst@)),
        prefix <= 8 * dst@.width(),
{
    let sa_len: usize = if sa.len() == 0 {
        0
    } else {
        sa[0] as usize
    };
    let off: usize = match dst {
        IpAddr::V4(_) => 4,
        IpAddr::V6(_) => 8,
    };
    let width: usize = match dst {
        IpAddr::V4(_) => 4,
        IpAddr::V6(_) => 16,
    };
    let present: usize = if sa_len <= off {
        0
    } else if sa_len - off < width {
        sa_len - off
    } else {
        width
    };
    let held: bool = off + present <= sa.len();
    let mut full: Vec<u8> = Vec::new();
    let mut i: usize = 0;
    while i < width
        invariant
            i <= width <= 16,
            off <= 8,
            present <= width,
            held == (off + present <= sa@.len()),
            full@.len() == i,
            forall|j: int|
                0 <= j < i ==> full@[j] == if j < present && held {
                    sa@[off + j]
                } else {
                    0u8
                },
        decreases width - i,
    {
        if i < present && held {
            full.push(sa[off + i]);
        } else {
            full.push(0);
        }
        i += 1;
    }
    assert(full@ =~= mask_octets(sa@, dst@));
    proof {
        lemma_ones_from_bound(full@, 0);
    }
    count_leading_ones(&full)
}

} // verus!
