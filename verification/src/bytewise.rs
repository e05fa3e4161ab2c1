//! What results mean, said of the bytes that go in.
//!
//! The laws here speak of offsets, octets and bits as the systems define them,
//! so that each result can be held against the layout of its input.

use vstd::prelude::*;

use crate::addr::{IpAddr, IpView, Ipv4Addr, Ipv6Addr};
use crate::bytes::{le_i32_at, le_u16_at, le_u32_at};
use crate::laws::{lemma_message_table, lemma_ones_from_bits};
use crate::forward_table::{row_entry, rows_entries, ForwardRow};
use crate::names::{lemma_before_first, utf16_text};
use crate::parse::{
    claims, entry_of, framing_error, message_entry, slot, slot_start, table,
};
use crate::route::{
    ip_option_view, route_option_view, routes_view, text_option_view, ErrorView, ParsedRoute,
    RouteParseError, RouteView,
};
use crate::sockaddr::{
    leading_ones, mask_bit, mask_octets, padded_len, sockaddr_address, without_scope,
};

verus! {

/// A two-byte field holds `v` just where its first byte is `v` modulo 256 and
/// its second byte is the rest.
pub proof fn law_u16_fields_are_little_endian(b: Seq<u8>, off: int, v: u16)
    requires
        0 <= off,
        off + 2 <= b.len(),
    ensures
        le_u16_at(b, off) == v <==> b[off] == v % 256 && b[off + 1] == v / 256,
{
}

/// A four-byte field holds `v` just where its bytes are the base-256 digits of
/// `v`, least significant first, with 2 to the 32nd added to a negative `v`.
pub proof fn law_i32_fields_are_little_endian(b: Seq<u8>, off: int, v: i32)
    requires
        0 <= off,
        off + 4 <= b.len(),
    ensures
        ({
            let digits: int = if v < 0 {
                v + 0x1_0000_0000
            } else {
                v as int
            };
            le_i32_at(b, off) == v <==> {
                &&& b[off] == digits % 256
                &&& b[off + 1] == digits / 256 % 256
                &&& b[off + 2] == digits / 0x1_0000 % 256
                &&& b[off + 3] == digits / 0x100_0000
            }
        }),
{
}

/// The views hold what the values hold, field by field and octet by octet.
pub proof fn law_views_hold_every_field(
    v4: Ipv4Addr,
    v6: Ipv6Addr,
    route: ParsedRoute,
    error: RouteParseError,
)
    ensures
        v4@.len() == 4,
        forall|i: int| 0 <= i < 4 ==> #[trigger] v4@[i] == v4.octets[i],
        v6@.len() == 16,
        forall|i: int| 0 <= i < 16 ==> #[trigger] v6@[i] == v6.octets[i],
        IpAddr::V4(v4)@ == IpView::V4(v4@),
        IpAddr::V6(v6)@ == IpView::V6(v6@),
        route@.destination == route.destination@,
        route@.prefix == route.prefix,
        route@.gateway is Some <==> route.gateway is Some,
        route.gateway matches Some(ip) ==> route@.gateway == Some(ip@),
        route@.ifindex == route.ifindex,
        route@.ifname is Some <==> route.ifname is Some,
        route.ifname matches Some(name) ==> route@.ifname == Some(name@),
        route@.metric == route.metric,
        error matches RouteParseError::Truncated { what, need, got } ==> (error@
            matches ErrorView::Truncated { what: w, need: n, got: g } && w == what@ && n == need
            && g == got),
        error matches RouteParseError::BadAddressFamily(family) ==> error@
            == ErrorView::BadAddressFamily(family),
        error matches RouteParseError::UnexpectedRtmVersion(version) ==> error@
            == ErrorView::UnexpectedRtmVersion(version),
{
}

/// The views of options and of vectors hold the views of what is in them.
pub proof fn law_views_hold_every_element(
    routes: Seq<ParsedRoute>,
    route: Option<ParsedRoute>,
    ip: Option<IpAddr>,
    text: Option<String>,
)
    ensures
        routes_view(routes).len() == routes.len(),
        forall|i: int|
            0 <= i < routes.len() ==> #[trigger] routes_view(routes)[i] == routes[i]@,
        route is None ==> route_option_view(route) is None,
        route matches Some(r) ==> route_option_view(route) == Some(r@),
        ip is None ==> ip_option_view(ip) is None,
        ip matches Some(a) ==> ip_option_view(ip) == Some(a@),
        text is None ==> text_option_view(text) is None,
        text matches Some(t) ==> text_option_view(text) == Some(t@),
{
}

/// The unspecified address has zero in each of its 4 or 16 octets, and no other
/// address has.
pub proof fn law_unspecified_is_all_zeros(ip: IpView)
    requires
        ip.wf(),
    ensures
        ip matches IpView::V4(o) ==> o.len() == 4 && (ip.is_unspecified() <==> o[0] == 0 && o[1]
            == 0 && o[2] == 0 && o[3] == 0),
        ip matches IpView::V6(o) ==> o.len() == 16 && (ip.is_unspecified() <==> o == Seq::new(
            16,
            |i: int| 0u8,
        )),
{
    if let IpView::V6(o) = ip {
        if ip.is_unspecified() {
            assert(o =~= Seq::new(16, |i: int| 0u8));
        } else {
            let zeros = Seq::new(16, |i: int| 0u8);
            if o == zeros {
                assert(forall|i: int| 0 <= i < 16 ==> o[i] == zeros[i]);
            }
        }
    }
}

/// A message can be taken from a buffer just where 92 bytes are there, the third
/// is 5, and the first two state a length between 92 and that of the buffer.
/// Otherwise the first thing that is wrong is the error, in this order: bytes
/// missing from the header, another version, a length that is too short, a
/// length that is too long.
pub proof fn law_framing(buf: Seq<u8>)
    ensures
        buf.len() < 2 ==> framing_error(buf) == Some(
            ErrorView::Truncated { what: "rtm_msglen"@, need: 2, got: buf.len() },
        ),
        buf.len() == 2 ==> framing_error(buf) == Some(
            ErrorView::Truncated { what: "rtm_version"@, need: 3, got: 2 },
        ),
        3 <= buf.len() < 92 ==> framing_error(buf) == Some(
            ErrorView::Truncated { what: "rt_msghdr"@, need: 92, got: buf.len() },
        ),
        buf.len() >= 92 && buf[2] != 5 ==> framing_error(buf) == Some(
            ErrorView::UnexpectedRtmVersion(buf[2]),
        ),
        buf.len() >= 92 && buf[2] == 5 && buf[0] + 256 * buf[1] < 92 ==> framing_error(buf)
            == Some(
            ErrorView::Truncated {
                what: "rt_msghdr"@,
                need: 92,
                got: (buf[0] + 256 * buf[1]) as nat,
            },
        ),
        buf.len() >= 92 && buf[2] == 5 && buf[0] + 256 * buf[1] > buf.len() ==> framing_error(buf)
            == Some(
            ErrorView::Truncated {
                what: "route message"@,
                need: (buf[0] + 256 * buf[1]) as nat,
                got: buf.len(),
            },
        ),
        buf.len() >= 92 && buf[2] == 5 && 92 <= buf[0] + 256 * buf[1] <= buf.len()
            ==> framing_error(buf) is None,
{
}

/// An empty dump has an empty table, and a dump that starts with a framing
/// error has that error, whatever follows.
pub proof fn law_tables_start_at_the_front(buf: Seq<u8>)
    ensures
        buf.len() == 0 ==> table(buf) == Ok::<Seq<RouteView>, ErrorView>(seq![]),
        buf.len() > 0 && framing_error(buf) is Some ==> table(buf) == Err::<
            Seq<RouteView>,
            ErrorView,
        >(framing_error(buf)->Some_0),
{
}

/// Slot `i` is claimed by the bit of value 2 to the `i` of the address mask.
pub proof fn law_address_mask_bits(addrs: i32)
    ensures
        claims(addrs, 0) <==> addrs & 1 != 0,
        claims(addrs, 1) <==> addrs & 2 != 0,
        claims(addrs, 2) <==> addrs & 4 != 0,
        claims(addrs, 3) <==> addrs & 8 != 0,
        claims(addrs, 4) <==> addrs & 16 != 0,
        claims(addrs, 5) <==> addrs & 32 != 0,
        claims(addrs, 6) <==> addrs & 64 != 0,
        claims(addrs, 7) <==> addrs & 128 != 0,
{
    assert(1i32 << 0usize == 1 && 1i32 << 1usize == 2 && 1i32 << 2usize == 4 && 1i32 << 3usize == 8
        && 1i32 << 4usize == 16 && 1i32 << 5usize == 32 && 1i32 << 6usize == 64 && 1i32 << 7usize
        == 128) by (bit_vector);
}

/// A sockaddr takes up the least multiple of four bytes that holds it, and at
/// least four.
pub proof fn law_padding(sa_len: u8, size: int)
    ensures
        padded_len(sa_len) % 4 == 0,
        padded_len(sa_len) >= 4,
        padded_len(sa_len) >= sa_len,
        size % 4 == 0 && size >= 4 && size >= sa_len ==> padded_len(sa_len) <= size,
{
}

/// The sockaddrs follow one another from the start of the body on. A slot has
/// one where it is claimed and bytes are left; it takes its padded length, or
/// what is left where that is less. A slot without one takes nothing.
pub proof fn law_slots_follow_one_another(addrs: i32, body: Seq<u8>, idx: nat)
    requires
        idx < 8,
    ensures
        slot_start(addrs, body, 0) == 0,
        0 <= slot_start(addrs, body, idx) <= body.len(),
        slot(addrs, body, idx) is Some <==> claims(addrs, idx as usize) && slot_start(
            addrs,
            body,
            idx,
        ) < body.len(),
        slot(addrs, body, idx) is None ==> slot_start(addrs, body, idx + 1) == slot_start(
            addrs,
            body,
            idx,
        ),
        slot(addrs, body, idx) matches Some(sa) ==> {
            let start = slot_start(addrs, body, idx);
            let left = body.len() - start;
            &&& sa.len() == if padded_len(body[start]) < left {
                padded_len(body[start])
            } else {
                left
            }
            &&& forall|i: int| 0 <= i < sa.len() ==> sa[i] == body[start + i]
            &&& slot_start(addrs, body, idx + 1) == start + sa.len()
        },
    decreases idx,
{
    if idx > 0 {
        law_slots_follow_one_another(addrs, body, (idx - 1) as nat);
    }
}

/// What a sockaddr stands for, by its second byte: 2 is IPv4 with the address
/// in bytes 4 to 7, 30 is IPv6 with the address in bytes 8 to 23, 18 is no IP
/// address, and anything else is not handled. What precedes and follows the
/// address does not matter.
pub proof fn law_sockaddr_layout(sa: Seq<u8>)
    ensures
        sa.len() < 2 ==> sockaddr_address(sa) == Ok::<Option<IpView>, ErrorView>(None),
        sa.len() >= 8 && sa[1] == 2 ==> (sockaddr_address(sa) matches Ok(Some(IpView::V4(o)))
            && o.len() == 4 && o[0] == sa[4] && o[1] == sa[5] && o[2] == sa[6] && o[3] == sa[7]),
        2 <= sa.len() < 8 && sa[1] == 2 ==> sockaddr_address(sa) == Err::<
            Option<IpView>,
            ErrorView,
        >(ErrorView::Truncated { what: "sockaddr_in"@, need: 8, got: sa.len() }),
        sa.len() >= 24 && sa[1] == 30 ==> (sockaddr_address(sa) matches Ok(Some(IpView::V6(o)))
            && o.len() == 16 && forall|i: int| 0 <= i < 16 ==> o[i] == sa[8 + i]),
        2 <= sa.len() < 24 && sa[1] == 30 ==> sockaddr_address(sa) == Err::<
            Option<IpView>,
            ErrorView,
        >(ErrorView::Truncated { what: "sockaddr_in6"@, need: 24, got: sa.len() }),
        sa.len() >= 2 && sa[1] == 18 ==> sockaddr_address(sa) == Ok::<Option<IpView>, ErrorView>(
            None,
        ),
        sa.len() >= 2 && sa[1] != 2 && sa[1] != 30 && sa[1] != 18 ==> sockaddr_address(sa)
            == Err::<Option<IpView>, ErrorView>(ErrorView::BadAddressFamily(sa[1] as u16)),
{
}

/// The scope is cleared from the IPv6 addresses that start with `fe80` and from
/// those that start with `ff` and a second octet whose low half is 1 or 2. All
/// other addresses, and all other octets, stay.
pub proof fn law_scoped_addresses(ip: IpView)
    requires
        ip.wf(),
    ensures
        ip is V4 ==> without_scope(ip) == ip,
        ip matches IpView::V6(o) ==> {
            let low = o[1] & 0x0f;
            let scoped = (o[0] == 0xfe && o[1] == 0x80) || (o[0] == 0xff && (low == 1 || low == 2));
            &&& without_scope(ip) matches IpView::V6(r) && r.len() == 16 && forall|i: int|
                0 <= i < 16 ==> r[i] == if scoped && (i == 2 || i == 3) {
                    0u8
                } else {
                    o[i]
                }
        },
{
    if let IpView::V6(o) = ip {
        let second = o[1];
        assert(second & 0x0f == second % 16) by (bit_vector);
    }
}

/// A netmask sockaddr that holds the whole address of the family of the
/// destination, and whose length byte covers it, is the mask in the place of
/// the address: bytes 4 to 7 for IPv4, bytes 8 to 23 for IPv6.
pub proof fn law_whole_masks(sa: Seq<u8>, dst: IpView)
    ensures
        dst is V4 && sa.len() >= 8 && sa[0] >= 8 ==> mask_octets(sa, dst) == sa.subrange(4, 8),
        dst is V6 && sa.len() >= 24 && sa[0] >= 24 ==> mask_octets(sa, dst) == sa.subrange(8, 24),
{
    if dst is V4 && sa.len() >= 8 && sa[0] >= 8 {
        assert(mask_octets(sa, dst) =~= sa.subrange(4, 8));
    }
    if dst is V6 && sa.len() >= 24 && sa[0] >= 24 {
        assert(mask_octets(sa, dst) =~= sa.subrange(8, 24));
    }
}

/// A netmask sockaddr whose length byte ends within the address has the octets
/// up to there, followed by zeros.
pub proof fn law_short_masks(sa: Seq<u8>, dst: IpView)
    requires
        sa.len() > 0,
        sa.len() >= sa[0],
    ensures
        dst is V4 && 4 <= sa[0] <= 8 ==> mask_octets(sa, dst) == sa.subrange(4, sa[0] as int)
            + Seq::new((8 - sa[0]) as nat, |i: int| 0u8),
        dst is V6 && 8 <= sa[0] <= 24 ==> mask_octets(sa, dst) == sa.subrange(8, sa[0] as int)
            + Seq::new((24 - sa[0]) as nat, |i: int| 0u8),
{
    if dst is V4 && 4 <= sa[0] <= 8 {
        assert(mask_octets(sa, dst) =~= sa.subrange(4, sa[0] as int) + Seq::new(
            (8 - sa[0]) as nat,
            |i: int| 0u8,
        ));
    }
    if dst is V6 && 8 <= sa[0] <= 24 {
        assert(mask_octets(sa, dst) =~= sa.subrange(8, sa[0] as int) + Seq::new(
            (24 - sa[0]) as nat,
            |i: int| 0u8,
        ));
    }
}

/// A netmask sockaddr that is empty, that announces no octet of the address, or
/// that does not hold the octets that it announces, is a mask of zeros.
pub proof fn law_empty_masks(sa: Seq<u8>, dst: IpView)
    ensures
        dst is V4 && (sa.len() == 0 || sa[0] <= 4 || (sa.len() < sa[0] && sa.len() < 8))
            ==> mask_octets(sa, dst) == seq![0u8, 0u8, 0u8, 0u8],
        dst is V6 && (sa.len() == 0 || sa[0] <= 8 || (sa.len() < sa[0] && sa.len() < 24))
            ==> mask_octets(sa, dst) == Seq::new(16, |i: int| 0u8),
{
    if dst is V4 && (sa.len() == 0 || sa[0] <= 4 || (sa.len() < sa[0] && sa.len() < 8)) {
        assert(mask_octets(sa, dst) =~= seq![0u8, 0u8, 0u8, 0u8]);
    }
    if dst is V6 && (sa.len() == 0 || sa[0] <= 8 || (sa.len() < sa[0] && sa.len() < 24)) {
        assert(mask_octets(sa, dst) =~= Seq::new(16, |i: int| 0u8));
    }
}

/// The leading bits of an octet, by its value.
proof fn lemma_octet_bits(o: u8)
    ensures
        o & (1u8 << 7u8) == 0 <==> o < 128,
        o & (1u8 << 7u8) != 0 && o & (1u8 << 6u8) == 0 <==> 128 <= o < 192,
        o & (1u8 << 7u8) != 0 && o & (1u8 << 6u8) != 0 && o & (1u8 << 5u8) == 0 <==> 192 <= o
            < 224,
        o >= 224 && o & (1u8 << 4u8) == 0 <==> 224 <= o < 240,
        o >= 240 && o & (1u8 << 3u8) == 0 <==> 240 <= o < 248,
        o >= 248 && o & (1u8 << 2u8) == 0 <==> 248 <= o < 252,
        o >= 252 && o & (1u8 << 1u8) == 0 <==> 252 <= o < 254,
        o >= 254 && o & (1u8 << 0u8) == 0 <==> o == 254,
{
    assert(o & (1u8 << 7u8) == 0 <==> o < 128) by (bit_vector);
    assert(o & (1u8 << 7u8) != 0 && o & (1u8 << 6u8) == 0 <==> 128 <= o < 192) by (bit_vector);
    assert(o & (1u8 << 7u8) != 0 && o & (1u8 << 6u8) != 0 && o & (1u8 << 5u8) == 0 <==> 192 <= o
        < 224) by (bit_vector);
    assert(o >= 224 && o & (1u8 << 4u8) == 0 <==> 224 <= o < 240) by (bit_vector);
    assert(o >= 240 && o & (1u8 << 3u8) == 0 <==> 240 <= o < 248) by (bit_vector);
    assert(o >= 248 && o & (1u8 << 2u8) == 0 <==> 248 <= o < 252) by (bit_vector);
    assert(o >= 252 && o & (1u8 << 1u8) == 0 <==> 252 <= o < 254) by (bit_vector);
    assert(o >= 254 && o & (1u8 << 0u8) == 0 <==> o == 254) by (bit_vector);
}

/// The bits of one octet of a mask.
proof fn lemma_mask_bits(mask: Seq<u8>, q: int)
    requires
        0 <= q < mask.len(),
    ensures
        mask_bit(mask, 8 * q) <==> mask[q] & (1u8 << 7u8) != 0,
        mask_bit(mask, 8 * q + 1) <==> mask[q] & (1u8 << 6u8) != 0,
        mask_bit(mask, 8 * q + 2) <==> mask[q] & (1u8 << 5u8) != 0,
        mask_bit(mask, 8 * q + 3) <==> mask[q] & (1u8 << 4u8) != 0,
        mask_bit(mask, 8 * q + 4) <==> mask[q] & (1u8 << 3u8) != 0,
        mask_bit(mask, 8 * q + 5) <==> mask[q] & (1u8 << 2u8) != 0,
        mask_bit(mask, 8 * q + 6) <==> mask[q] & (1u8 << 1u8) != 0,
        mask_bit(mask, 8 * q + 7) <==> mask[q] & (1u8 << 0u8) != 0,
{
}

/// The prefix length of a mask, by the values of its octets: it counts 8 for
/// each octet of 255 before the first other one, and for that one as many as it
/// has leading ones.
pub proof fn law_prefix_length_by_octets(mask: Seq<u8>)
    ensures
        ({
            let n = leading_ones(mask) as int;
            &&& n <= 8 * mask.len()
            &&& forall|i: int| 0 <= i < n / 8 ==> mask[i] == 255
            &&& n < 8 * mask.len() ==> {
                let o = mask[n / 8];
                &&& n % 8 == 0 ==> o < 128
                &&& n % 8 == 1 ==> 128 <= o < 192
                &&& n % 8 == 2 ==> 192 <= o < 224
                &&& n % 8 == 3 ==> 224 <= o < 240
                &&& n % 8 == 4 ==> 240 <= o < 248
                &&& n % 8 == 5 ==> 248 <= o < 252
                &&& n % 8 == 6 ==> 252 <= o < 254
                &&& n % 8 == 7 ==> o == 254
            }
        }),
{
    let n = leading_ones(mask) as int;
    lemma_ones_from_bits(mask, 0);
    assert forall|i: int| 0 <= i < n / 8 implies mask[i] == 255 by {
        lemma_mask_bits(mask, i);
        lemma_octet_bits(mask[i]);
        assert(mask_bit(mask, 8 * i) && mask_bit(mask, 8 * i + 1) && mask_bit(mask, 8 * i + 2)
            && mask_bit(mask, 8 * i + 3) && mask_bit(mask, 8 * i + 4) && mask_bit(mask, 8 * i + 5)
            && mask_bit(mask, 8 * i + 6) && mask_bit(mask, 8 * i + 7));
    }
    if n < 8 * mask.len() {
        let q = n / 8;
        lemma_mask_bits(mask, q);
        lemma_octet_bits(mask[q]);
        assert(n == 8 * q + n % 8);
        assert(!mask_bit(mask, n));
        if n % 8 >= 1 {
            assert(mask_bit(mask, 8 * q));
        }
        if n % 8 >= 2 {
            assert(mask_bit(mask, 8 * q + 1));
        }
        if n % 8 >= 3 {
            assert(mask_bit(mask, 8 * q + 2));
        }
        if n % 8 >= 4 {
            assert(mask_bit(mask, 8 * q + 3));
        }
        if n % 8 >= 5 {
            assert(mask_bit(mask, 8 * q + 4));
        }
        if n % 8 >= 6 {
            assert(mask_bit(mask, 8 * q + 5));
        }
        if n % 8 >= 7 {
            assert(mask_bit(mask, 8 * q + 6));
        }
    }
}

/// Bits of a four-byte field, by the byte that they stand in.
proof fn lemma_field_bits(b: Seq<u8>, off: int)
    requires
        0 <= off,
        off + 4 <= b.len(),
    ensures
        ({
            let field = le_i32_at(b, off) as i32;
            &&& field & 1 != 0 <==> b[off] & 1 != 0
            &&& field & 2 != 0 <==> b[off] & 2 != 0
            &&& field & 4 != 0 <==> b[off] & 4 != 0
            &&& field & 0x2_0000 != 0 <==> b[off + 2] & 2 != 0
        }),
{
    let x = le_i32_at(b, off) as i32;
    let b0 = b[off];
    let b1 = b[off + 1];
    let b2 = b[off + 2];
    let b3 = b[off + 3];
    let raw = le_u32_at(b, off) as u32;
    assert(raw == b0 + 256 * b1 + 0x1_0000 * b2 + 0x100_0000 * b3);
    assert(x == if raw < 0x8000_0000 {
        raw as int
    } else {
        raw - 0x1_0000_0000
    });
    assert((x & 1i32 != 0 <==> b0 & 1u8 != 0) && (x & 2i32 != 0 <==> b0 & 2u8 != 0) && (x & 4i32
        != 0 <==> b0 & 4u8 != 0) && (x & 0x2_0000i32 != 0 <==> b2 & 2u8 != 0)) by (bit_vector)
        requires
            raw == b0 + 256 * b1 + 0x1_0000 * b2 + 0x100_0000 * b3,
            raw < 0x8000_0000u32 ==> x == raw,
            raw >= 0x8000_0000u32 ==> x == raw - 0x1_0000_0000,
    ;
}

/// What an entry is made of, by the first three slots of its body. It is there
/// just where the destination slot holds an IP address. Its gateway is the
/// address of the gateway slot without a scope, if there is such an address.
/// Its prefix is that of the netmask where bit 4 of the address mask claims
/// one; where it does not, bit 4 of the flags makes it 32 or 128, and otherwise
/// it is 0.
pub proof fn law_entry_layout(addrs: i32, index: u16, flags: i32, body: Seq<u8>)
    ensures
        ({
            let entry = entry_of(addrs, index, flags, body);
            let dst = slot(addrs, body, 0);
            let gateway = slot(addrs, body, 1);
            let mask = slot(addrs, body, 2);
            &&& entry is Some <==> dst is Some && sockaddr_address(dst->Some_0) is Ok
                && sockaddr_address(dst->Some_0)->Ok_0 is Some
            &&& entry matches Some(e) ==> {
                &&& sockaddr_address(dst->Some_0) == Ok::<Option<IpView>, ErrorView>(
                    Some(e.destination),
                )
                &&& e.ifindex matches Some(i) && i == index
                &&& e.ifname is None
                &&& e.metric is None
                &&& e.gateway is Some <==> gateway is Some && sockaddr_address(gateway->Some_0)
                    is Ok && sockaddr_address(gateway->Some_0)->Ok_0 is Some
                &&& e.gateway matches Some(ip) ==> ip == without_scope(
                    sockaddr_address(gateway->Some_0)->Ok_0->Some_0,
                )
                &&& addrs & 4 != 0 && mask is None ==> e.prefix == 0
                &&& addrs & 4 != 0 && mask is Some ==> e.prefix == leading_ones(
                    mask_octets(mask->Some_0, e.destination),
                )
                &&& addrs & 4 == 0 && flags & 4 == 0 ==> e.prefix == 0
                &&& addrs & 4 == 0 && flags & 4 != 0 && e.destination is V4 ==> e.prefix == 32
                &&& addrs & 4 == 0 && flags & 4 != 0 && e.destination is V6 ==> e.prefix == 128
            }
        }),
{
    law_address_mask_bits(addrs);
}

/// Where a message has what its entry is made of: the interface index at byte
/// 4, the flags at byte 8, the address mask at byte 12, the body from byte 92
/// on. Bit 2 of byte 10 marks a cloned entry, which is left out.
pub proof fn law_message_fields(message: Seq<u8>)
    requires
        message.len() >= 92,
    ensures
        message[10] & 2 != 0 ==> message_entry(message) is None,
        message[10] & 2 == 0 ==> message_entry(message) == entry_of(
            le_i32_at(message, 12) as i32,
            (message[4] + 256 * message[5]) as u16,
            le_i32_at(message, 8) as i32,
            message.skip(92),
        ),
{
    lemma_field_bits(message, 8);
}

/// Where a message has its fields. Bit 2 of byte 10 marks a cloned entry, which
/// is left out. Bits 1, 2 and 4 of byte 12 claim the destination, the gateway
/// and the netmask. Bytes 4 and 5 are the interface index. An entry is there
/// just where the destination slot holds an IP address; its gateway is the
/// address of the gateway slot without a scope, if there is such an address.
/// Its prefix is that of the netmask where one is claimed, and of a host or of
/// everything where none is, as bit 4 of byte 8 says.
pub proof fn law_message_layout(message: Seq<u8>)
    requires
        message.len() >= 92,
        message[0] + 256 * message[1] == message.len(),
        message[2] == 5,
    ensures
        ({
            let addrs = le_i32_at(message, 12) as i32;
            let body = message.skip(92);
            let dst = slot(addrs, body, 0);
            let gateway = slot(addrs, body, 1);
            let mask = slot(addrs, body, 2);
            &&& claims(addrs, 0) <==> message[12] & 1 != 0
            &&& claims(addrs, 1) <==> message[12] & 2 != 0
            &&& claims(addrs, 2) <==> message[12] & 4 != 0
            &&& table(message) matches Ok(entries) && {
                &&& entries.len() <= 1
                &&& entries.len() == 1 <==> message[10] & 2 == 0 && dst is Some
                    && sockaddr_address(dst->Some_0) is Ok && sockaddr_address(
                    dst->Some_0,
                )->Ok_0 is Some
                &&& entries.len() == 1 ==> {
                    let entry = entries[0];
                    &&& sockaddr_address(dst->Some_0) == Ok::<Option<IpView>, ErrorView>(
                        Some(entry.destination),
                    )
                    &&& entry.ifindex matches Some(index) && index == message[4] + 256 * message[5]
                    &&& entry.ifname is None
                    &&& entry.metric is None
                    &&& entry.gateway is Some <==> gateway is Some && sockaddr_address(
                        gateway->Some_0,
                    ) is Ok && sockaddr_address(gateway->Some_0)->Ok_0 is Some
                    &&& entry.gateway matches Some(ip) ==> ip == without_scope(
                        sockaddr_address(gateway->Some_0)->Ok_0->Some_0,
                    )
                    &&& message[12] & 4 != 0 && mask is None ==> entry.prefix == 0
                    &&& message[12] & 4 != 0 && mask is Some ==> entry.prefix == leading_ones(
                        mask_octets(mask->Some_0, entry.destination),
                    )
                    &&& message[12] & 4 == 0 && message[8] & 4 == 0 ==> entry.prefix == 0
                    &&& message[12] & 4 == 0 && message[8] & 4 != 0 && entry.destination is V4
                        ==> entry.prefix == 32
                    &&& message[12] & 4 == 0 && message[8] & 4 != 0 && entry.destination is V6
                        ==> entry.prefix == 128
                }
            }
        }),
{
    lemma_field_bits(message, 8);
    lemma_field_bits(message, 12);
    law_address_mask_bits(le_i32_at(message, 12) as i32);
    lemma_message_table(message);
}

/// The destination of a message that claims one is read from its first
/// sockaddr, at byte 92: from the four bytes at 96 for IPv4, from the sixteen at
/// 100 for IPv6.
pub proof fn law_destination_by_bytes(message: Seq<u8>)
    requires
        message.len() >= 92,
        message[0] + 256 * message[1] == message.len(),
        message[2] == 5,
        message[10] & 2 == 0,
        message[12] & 1 != 0,
    ensures
        message.len() >= 100 && message[92] >= 5 && message[93] == 2 ==> (table(message)
            matches Ok(entries) && entries.len() == 1 && entries[0].destination == IpView::V4(
            seq![message[96], message[97], message[98], message[99]],
        )),
        message.len() >= 116 && message[92] >= 21 && message[93] == 30 ==> (table(message)
            matches Ok(entries) && entries.len() == 1 && entries[0].destination == IpView::V6(
            message.subrange(100, 116),
        )),
        message.len() == 92 ==> table(message) == Ok::<Seq<RouteView>, ErrorView>(seq![]),
        message.len() >= 94 && message[93] != 2 && message[93] != 30 ==> table(message) == Ok::<
            Seq<RouteView>,
            ErrorView,
        >(seq![]),
{
    let addrs = le_i32_at(message, 12) as i32;
    let body = message.skip(92);
    law_message_layout(message);
    law_slots_follow_one_another(addrs, body, 0);
    if message.len() > 92 {
        assert(body[0] == message[92]);
        let sa = slot(addrs, body, 0)->Some_0;
        law_padding(body[0], 4);
        law_sockaddr_layout(sa);
        if message.len() >= 94 {
            assert(sa[1] == message[93]);
        }
        if message.len() >= 100 && message[92] >= 5 && message[93] == 2 {
            let octets = table(message)->Ok_0[0].destination->V4_0;
            assert(octets =~= seq![message[96], message[97], message[98], message[99]]);
        }
        if message.len() >= 116 && message[92] >= 21 && message[93] == 30 {
            let octets = table(message)->Ok_0[0].destination->V6_0;
            assert(octets =~= message.subrange(100, 116));
        }
    }
    if table(message)->Ok_0.len() == 0 {
        assert(table(message)->Ok_0 =~= seq![]);
    }
}

/// The gateway of a message that claims a destination and a gateway is read
/// from its second sockaddr, which starts behind the first one and its padding.
pub proof fn law_gateway_by_bytes(message: Seq<u8>)
    requires
        message.len() >= 100,
        message[0] + 256 * message[1] == message.len(),
        message[2] == 5,
        message[10] & 2 == 0,
        message[12] & 1 != 0,
        message[92] >= 5,
        message[93] == 2 || (message[93] == 30 && message[92] >= 21 && message.len() >= 116),
    ensures
        ({
            let at = 92 + padded_len(message[92]);
            &&& table(message) matches Ok(entries) && entries.len() == 1 && {
                &&& message[12] & 2 == 0 ==> entries[0].gateway is None
                &&& message.len() <= at + 1 ==> entries[0].gateway is None
                &&& message[12] & 2 != 0 && message.len() >= at + 8 && message[at] >= 5
                    && message[at + 1] == 2 ==> entries[0].gateway == Some(
                    IpView::V4(
                        seq![message[at + 4], message[at + 5], message[at + 6], message[at + 7]],
                    ),
                )
                &&& message[12] & 2 != 0 && message.len() >= at + 24 && message[at] >= 21
                    && message[at + 1] == 30 ==> entries[0].gateway == Some(
                    without_scope(IpView::V6(message.subrange(at + 8, at + 24))),
                )
                &&& message.len() >= at + 2 && message[at + 1] != 2 && message[at + 1] != 30
                    ==> entries[0].gateway is None
            }
        }),
{
    let addrs = le_i32_at(message, 12) as i32;
    let body = message.skip(92);
    let at = 92 + padded_len(message[92]);
    law_message_layout(message);
    law_destination_by_bytes(message);
    law_slots_follow_one_another(addrs, body, 0);
    law_slots_follow_one_another(addrs, body, 1);
    assert(body[0] == message[92]);
    if let Some(sa) = slot(addrs, body, 1) {
        law_sockaddr_layout(sa);
        assert(slot_start(addrs, body, 1) == at - 92);
        assert(body[at - 92] == message[at]);
        law_padding(message[at], 4);
        if message.len() >= at + 2 {
            assert(sa[1] == message[at + 1]);
        }
        if message.len() >= at + 8 && message[at] >= 5 && message[at + 1] == 2 {
            assert(sockaddr_address(sa)->Ok_0->Some_0->V4_0 =~= seq![
                message[at + 4],
                message[at + 5],
                message[at + 6],
                message[at + 7],
            ]);
        }
        if message.len() >= at + 24 && message[at] >= 21 && message[at + 1] == 30 {
            assert(sockaddr_address(sa)->Ok_0->Some_0->V6_0 =~= message.subrange(at + 8, at + 24));
        }
    }
}

/// A message with a destination and no netmask is a host route where its host
/// flag, bit 4 of byte 8, is set, whatever its other flags are, and then has
/// all 32 or 128 bits of its destination. Where the flag is not set, it has
/// none.
pub proof fn law_host_flag_decides_without_a_netmask(message: Seq<u8>, dst: IpView)
    requires
        message.len() >= 92,
        message[0] + 256 * message[1] == message.len(),
        message[2] == 5,
        message[10] & 2 == 0,
        message[12] & 4 == 0,
        slot(le_i32_at(message, 12) as i32, message.skip(92), 0) is Some,
        sockaddr_address(slot(le_i32_at(message, 12) as i32, message.skip(92), 0)->Some_0) == Ok::<
            Option<IpView>,
            ErrorView,
        >(Some(dst)),
    ensures
        table(message) matches Ok(entries) && entries.len() == 1 && entries[0].destination == dst
            && {
            &&& message[8] & 4 != 0 && dst is V4 ==> entries[0].prefix == 32
            &&& message[8] & 4 != 0 && dst is V6 ==> entries[0].prefix == 128
            &&& message[8] & 4 == 0 ==> entries[0].prefix == 0
        },
{
    law_message_layout(message);
}

/// The rest of a header does not matter: two messages with the same body, the
/// same interface index, the same host and clone flag and the same claims on
/// the first three slots have the same table, whatever their other header bytes
/// are.
pub proof fn law_other_header_bytes_do_not_matter(a: Seq<u8>, b: Seq<u8>)
    requires
        a.len() >= 92,
        a[0] + 256 * a[1] == a.len(),
        a[2] == 5,
        b.len() == a.len(),
        b[0] + 256 * b[1] == b.len(),
        b[2] == 5,
        a[4] == b[4],
        a[5] == b[5],
        a[8] & 4 != 0 <==> b[8] & 4 != 0,
        a[10] & 2 != 0 <==> b[10] & 2 != 0,
        a[12] & 1 != 0 <==> b[12] & 1 != 0,
        a[12] & 2 != 0 <==> b[12] & 2 != 0,
        a[12] & 4 != 0 <==> b[12] & 4 != 0,
        a.skip(92) == b.skip(92),
    ensures
        table(a) == table(b),
{
    law_message_layout(a);
    law_message_layout(b);
    reveal_with_fuel(slot_start, 4);
    assert(table(a)->Ok_0 =~= table(b)->Ok_0);
}

/// A Windows row stands for a route just where the family of its destination
/// is 2 or 23. The destination then has the octets of the row, in their order:
/// the four of IPv4 for 2, the sixteen of IPv6 for 23. The prefix, the interface
/// index and the metric are those of the row, whatever its addresses are.
pub proof fn law_row_layout(row: ForwardRow)
    ensures
        row_entry(row) is Some <==> row.destination.family == 2 || row.destination.family == 23,
        row.destination.family == 2 ==> (row_entry(row)->Some_0.destination matches IpView::V4(o)
            && o.len() == 4 && forall|i: int| 0 <= i < 4 ==> o[i] == row.destination.ipv4[i]),
        row.destination.family == 23 ==> (row_entry(row)->Some_0.destination matches IpView::V6(o)
            && o.len() == 16 && forall|i: int| 0 <= i < 16 ==> o[i] == row.destination.ipv6[i]),
        row_entry(row) matches Some(entry) ==> {
            &&& entry.prefix == row.prefix_length
            &&& entry.ifindex == Some(row.interface_index)
            &&& entry.metric == Some(row.metric)
        },
{
}

/// The gateway of a row is its next hop, octet by octet. There is none where
/// all octets of the next hop are zero, or where its family is neither 2 nor
/// 23.
pub proof fn law_row_gateway(row: ForwardRow)
    requires
        row_entry(row) is Some,
    ensures
        ({
            let gateway = row_entry(row)->Some_0.gateway;
            let hop = row.next_hop;
            &&& hop.family == 2 ==> (gateway is None <==> hop.ipv4[0] == 0 && hop.ipv4[1] == 0
                && hop.ipv4[2] == 0 && hop.ipv4[3] == 0)
            &&& hop.family == 2 && gateway is Some ==> (gateway->Some_0 matches IpView::V4(o)
                && o.len() == 4 && forall|i: int| 0 <= i < 4 ==> o[i] == hop.ipv4[i])
            &&& hop.family == 23 ==> (gateway is None <==> forall|i: int|
                0 <= i < 16 ==> hop.ipv6[i] == 0)
            &&& hop.family == 23 && gateway is Some ==> (gateway->Some_0 matches IpView::V6(o)
                && o.len() == 16 && forall|i: int| 0 <= i < 16 ==> o[i] == hop.ipv6[i])
            &&& hop.family != 2 && hop.family != 23 ==> gateway is None
        }),
{
    let hop = row.next_hop;
    law_unspecified_is_all_zeros(IpView::V4(hop.ipv4@));
    if hop.family == 23 {
        let ip = IpView::V6(hop.ipv6@);
        law_unspecified_is_all_zeros(ip);
        let zeros = Seq::new(16, |i: int| 0u8);
        if forall|i: int| 0 <= i < 16 ==> hop.ipv6[i] == 0 {
            assert(hop.ipv6@ =~= zeros);
        }
        if ip.is_unspecified() {
            assert(forall|i: int| 0 <= i < 16 ==> hop.ipv6[i] == zeros[i]);
        }
    }
}

/// The name of a row is the text of its units up to the first zero, or of all of
/// them where there is none. It has one just where the row has.
pub proof fn law_row_name(row: ForwardRow, end: int)
    requires
        row_entry(row) is Some,
        row.interface_name matches Some(buf) ==> {
            &&& 0 <= end <= buf@.len()
            &&& forall|i: int| 0 <= i < end ==> buf@[i] != 0
            &&& end < buf@.len() ==> buf@[end] == 0
        },
    ensures
        row.interface_name is None ==> row_entry(row)->Some_0.ifname is None,
        row.interface_name matches Some(buf) ==> row_entry(row)->Some_0.ifname == Some(
            utf16_text(buf@.subrange(0, end)),
        ),
{
    if let Some(buf) = row.interface_name {
        lemma_before_first(buf@, 0, end);
    }
}

/// The table of one row is its entry or nothing, and that of no rows is nothing.
pub proof fn law_single_rows(row: ForwardRow)
    ensures
        rows_entries(seq![]) == Seq::<RouteView>::empty(),
        row_entry(row) is None ==> rows_entries(seq![row]) == Seq::<RouteView>::empty(),
        row_entry(row) matches Some(entry) ==> rows_entries(seq![row]) == seq![entry],
{
    reveal_with_fuel(rows_entries, 2);
    assert(seq![row].drop_last() =~= Seq::<ForwardRow>::empty());
    assert(seq![row].last() == row);
    if let Some(entry) = row_entry(row) {
        assert(Seq::<RouteView>::empty().push(entry) =~= seq![entry]);
    }
}

} // verus!
