//! The parser for a macOS `NET_RT_DUMP` buffer: route messages, each a
//! `rt_msghdr` followed by sockaddrs.
//!
//! The constants are those of 64-bit macOS, whatever host the library is built
//! for.

use vstd::prelude::*;
use vstd::slice::slice_subrange;

use crate::addr::{IpAddr, IpView};
use crate::bytes::{le_i32, le_i32_at, le_u16, le_u16_at};
use crate::route::{
    route_option_view, routes_view, ErrorView, ParsedRoute, RouteParseError, RouteView,
};
use crate::sockaddr::{
    leading_ones, mask_octets, mask_to_prefix, normalize_v6_scope, padded_len, roundup, sa_to_ip,
    sockaddr_address, without_scope,
};

verus! {

/// The version of the message format.
pub const RTM_VERSION: u8 = 5;

/// The size of a `rt_msghdr`.
pub const RT_MSGHDR_LEN: usize = 92;

/// The slot of the destination.
pub const RTAX_DST: usize = 0;

/// The slot of the gateway.
pub const RTAX_GATEWAY: usize = 1;

/// The slot of the netmask.
pub const RTAX_NETMASK: usize = 2;

/// The number of sockaddr slots.
pub const RTAX_MAX: usize = 8;

/// Flag of an entry that was cloned from another one for a neighbour.
pub const RTF_WASCLONED: i32 = 0x0002_0000;

/// Flag of a route to a single host.
pub const RTF_HOST: i32 = 0x0000_0004;

/// The address mask of a message claims a sockaddr for slot `idx`.
pub open spec fn claims(rtm_addrs: i32, idx: usize) -> bool {
    rtm_addrs & (1i32 << idx) != 0
}

/// The offset in `body` at which the sockaddr of slot `idx` starts, if there is
/// one: the sockaddrs of the claimed slots follow one another, and none goes
/// beyond the body.
pub open spec fn slot_start(rtm_addrs: i32, body: Seq<u8>, idx: nat) -> int
    decreases idx,
{
    if idx == 0 {
        0
    } else {
        let start = slot_start(rtm_addrs, body, (idx - 1) as nat);
        if claims(rtm_addrs, (idx - 1) as usize) && start < body.len() {
            let end = start + padded_len(body[start]);
            if end < body.len() {
                end
            } else {
                body.len() as int
            }
        } else {
            start
        }
    }
}

/// The sockaddr of slot `idx`, or none where it is not claimed or the body is
/// used up.
pub open spec fn slot(rtm_addrs: i32, body: Seq<u8>, idx: nat) -> Option<Seq<u8>> {
    let start = slot_start(rtm_addrs, body, idx);
    if claims(rtm_addrs, idx as usize) && start < body.len() {
        Some(body.subrange(start, slot_start(rtm_addrs, body, idx + 1)))
    } else {
        None
    }
}

/// The bytes of an optional slice.
pub open spec fn slice_option_view(s: Option<&[u8]>) -> Option<Seq<u8>> {
    match s {
        Some(b) => Some(b@),
        None => None,
    }
}

/// Cuts the body of a message into its sockaddrs, one per slot.
pub fn sockaddr_slots<'a>(rtm_addrs: i32, body: &'a [u8]) -> (slots: Vec<Option<&'a [u8]>>)
    ensures
        slots@.len() == RTAX_MAX,
        forall|i: int|
            0 <= i < RTAX_MAX ==> slice_option_view(#[trigger] slots@[i]) == slot(
                rtm_addrs,
                body@,
                i as nat,
            ),
{
    let mut slots: Vec<Option<&'a [u8]>> = Vec::new();
    let mut pos: usize = 0;
    let mut idx: usize = 0;
    while idx < RTAX_MAX
        invariant
            idx <= RTAX_MAX,
            slots@.len() == idx,
            pos == slot_start(rtm_addrs, body@, idx as nat),
            pos <= body@.len(),
            forall|i: int|
                0 <= i < idx ==> slice_option_view(#[trigger] slots@[i]) == slot(
                    rtm_addrs,
                    body@,
                    i as nat,
                ),
        decreases RTAX_MAX - idx,
    {
        if rtm_addrs & (1i32 << idx) != 0 && pos < body.len() {
            let take: usize = roundup(body[pos]);
            let end: usize = if take < body.len() - pos {
                pos + take
            } else {
                body.len()
            };
            slots.push(Some(slice_subrange(body, pos, end)));
            pos = end;
        } else {
            slots.push(None);
        }
        idx += 1;
    }
    slots
}

/// The gateway of an entry: the address in its slot, or none where there is no
/// such address.
pub open spec fn gateway_of(rtm_addrs: i32, body: Seq<u8>) -> Option<IpView> {
    match slot(rtm_addrs, body, RTAX_GATEWAY as nat) {
        None => None,
        Some(sa) => match sockaddr_address(sa) {
            Ok(Some(ip)) => Some(without_scope(ip)),
            _ => None,
        },
    }
}

/// The prefix length of an entry with destination `dst`. It is that of the
/// netmask where one is claimed. Without a netmask, a host route has all bits
/// of its destination and any other entry has none.
pub open spec fn prefix_of(rtm_addrs: i32, rtm_flags: i32, body: Seq<u8>, dst: IpView) -> nat {
    if claims(rtm_addrs, RTAX_NETMASK) {
        match slot(rtm_addrs, body, RTAX_NETMASK as nat) {
            None => 0,
            Some(sa) => leading_ones(mask_octets(sa, dst)),
        }
    } else if rtm_flags & RTF_HOST != 0 {
        8 * dst.width()
    } else {
        0
    }
}

/// The entry that a message stands for, or none where it has no destination
/// address.
pub open spec fn entry_of(
    rtm_addrs: i32,
    rtm_index: u16,
    rtm_flags: i32,
    body: Seq<u8>,
) -> Option<RouteView> {
    match slot(rtm_addrs, body, RTAX_DST as nat) {
        None => None,
        Some(sa) => match sockaddr_address(sa) {
            Ok(Some(dst)) => Some(
                RouteView {
                    destination: dst,
                    prefix: prefix_of(rtm_addrs, rtm_flags, body, dst),
                    gateway: gateway_of(rtm_addrs, body),
                    ifindex: Some(rtm_index as u32),
                    ifname: None,
                    metric: None,
                },
            ),
            _ => None,
        },
    }
}

/// Parses the sockaddrs of one message into a route.
///
/// An entry without a usable destination is skipped, and a gateway that cannot
/// be decoded is left out: neither is an error.
pub fn parse_one(rtm_addrs: i32, rtm_index: u16, rtm_flags: i32, body: &[u8]) -> (route: Option<
    ParsedRoute,
>)
    ensures
        route_option_view(route) == entry_of(rtm_addrs, rtm_index, rtm_flags, body@),
{
    let slots: Vec<Option<&[u8]>> = sockaddr_slots(rtm_addrs, body);

    let destination: IpAddr = match slots[RTAX_DST] {
        None => return None,
        Some(sa) => match sa_to_ip(sa) {
            Ok(Some(ip)) => ip,
            Ok(None) => return None,
            Err(_) => return None,
        },
    };

    let gateway: Option<IpAddr> = match slots[RTAX_GATEWAY] {
        None => None,
        Some(sa) => match sa_to_ip(sa) {
            Ok(ip) => normalize_v6_scope(ip),
            Err(_) => None,
        },
    };

    let prefix: u8 = if rtm_addrs & (1i32 << RTAX_NETMASK) != 0 {
        match slots[RTAX_NETMASK] {
            None => 0,
            Some(sa) => mask_to_prefix(sa, destination),
        }
    } else if rtm_flags & RTF_HOST != 0 {
        match destination {
            IpAddr::V4(_) => 32,
            IpAddr::V6(_) => 128,
        }
    } else {
        0
    };

    Some(
        ParsedRoute {
            destination,
            prefix,
            gateway,
            ifindex: Some(rtm_index as u32),
            ifname: None,
            metric: None,
        },
    )
}

/// The length that a message states in its header.
pub open spec fn stated_len(message: Seq<u8>) -> int {
    le_u16_at(message, 0)
}

/// Why no message can be taken from the front of `buf`, or `None` where one
/// can: a whole header of the expected version that states a length which
/// covers the header and stays within the buffer.
pub open spec fn framing_error(buf: Seq<u8>) -> Option<ErrorView> {
    if buf.len() < 2 {
        Some(ErrorView::Truncated { what: "rtm_msglen"@, need: 2, got: buf.len() })
    } else if buf.len() < 3 {
        Some(ErrorView::Truncated { what: "rtm_version"@, need: 3, got: buf.len() })
    } else if buf.len() < RT_MSGHDR_LEN {
        Some(
            ErrorView::Truncated { what: "rt_msghdr"@, need: RT_MSGHDR_LEN as nat, got: buf.len() },
        )
    } else if buf[2] != RTM_VERSION {
        Some(ErrorView::UnexpectedRtmVersion(buf[2]))
    } else if stated_len(buf) < RT_MSGHDR_LEN {
        Some(
            ErrorView::Truncated {
                what: "rt_msghdr"@,
                need: RT_MSGHDR_LEN as nat,
                got: stated_len(buf) as nat,
            },
        )
    } else if stated_len(buf) > buf.len() {
        Some(
            ErrorView::Truncated {
                what: "route message"@,
                need: stated_len(buf) as nat,
                got: buf.len(),
            },
        )
    } else {
        None
    }
}

/// The entry of one whole message. Entries that were cloned for a neighbour are
/// left out.
pub open spec fn message_entry(message: Seq<u8>) -> Option<RouteView> {
    let flags = le_i32_at(message, 8) as i32;
    if flags & RTF_WASCLONED != 0 {
        None
    } else {
        entry_of(
            le_i32_at(message, 12) as i32,
            le_u16_at(message, 4) as u16,
            flags,
            message.skip(RT_MSGHDR_LEN as int),
        )
    }
}

/// The entries of one whole message, which are one or none.
pub open spec fn message_entries(message: Seq<u8>) -> Seq<RouteView> {
    match message_entry(message) {
        Some(entry) => seq![entry],
        None => seq![],
    }
}

/// What a dump stands for: the entries of its messages, in order, or the first
/// framing error.
pub open spec fn table(buf: Seq<u8>) -> Result<Seq<RouteView>, ErrorView>
    decreases buf.len(),
{
    if buf.len() == 0 {
        Ok(seq![])
    } else {
        match framing_error(buf) {
            Some(e) => Err(e),
            None => {
                let n = stated_len(buf);
                match table(buf.skip(n)) {
                    Ok(rest) => Ok(message_entries(buf.take(n)) + rest),
                    Err(e) => Err(e),
                }
            },
        }
    }
}

/// The length of the message at the front of `buf`.
///
/// # Errors
///
/// [`RouteParseError::Truncated`] where the header runs past the buffer.
/// [`RouteParseError::UnexpectedRtmVersion`] where the header is whole and of
/// another version, for then the length that it states means nothing.
/// [`RouteParseError::Truncated`] again where a header of the expected version
/// states a length that does not cover it, or that runs past the buffer.
pub fn message_len(buf: &[u8]) -> (len: Result<usize, RouteParseError>)
    ensures
        match len {
            Ok(n) => framing_error(buf@) is None && n == stated_len(buf@) && RT_MSGHDR_LEN <= n
                <= buf@.len(),
            Err(e) => framing_error(buf@) == Some(e@),
        },
{
    let len: usize = match le_u16(buf, 0) {
        Some(n) => n as usize,
        None => {
            return Err(RouteParseError::Truncated { what: "rtm_msglen", need: 2, got: buf.len() });
        },
    };
    if buf.len() < 3 {
        return Err(RouteParseError::Truncated { what: "rtm_version", need: 3, got: buf.len() });
    }
    let version: u8 = buf[2];
    if buf.len() < RT_MSGHDR_LEN {
        return Err(
            RouteParseError::Truncated { what: "rt_msghdr", need: RT_MSGHDR_LEN, got: buf.len() },
        );
    }
    if version != RTM_VERSION {
        return Err(RouteParseError::UnexpectedRtmVersion(version));
    }
    if len < RT_MSGHDR_LEN {
        return Err(
            RouteParseError::Truncated { what: "rt_msghdr", need: RT_MSGHDR_LEN, got: len },
        );
    }
    if len > buf.len() {
        return Err(
            RouteParseError::Truncated { what: "route message", need: len, got: buf.len() },
        );
    }
    Ok(len)
}

/// Parses one whole message into a route.
pub fn parse_message(message: &[u8]) -> (route: Option<ParsedRoute>)
    requires
        message@.len() >= RT_MSGHDR_LEN,
    ensures
        route_option_view(route) == message_entry(message@),
{
    let rtm_index: u16 = match le_u16(message, 4) {
        Some(v) => v,
        None => 0,
    };
    let rtm_flags: i32 = match le_i32(message, 8) {
        Some(v) => v,
        None => 0,
    };
    let rtm_addrs: i32 = match le_i32(message, 12) {
        Some(v) => v,
        None => 0,
    };
    if rtm_flags & RTF_WASCLONED != 0 {
        return None;
    }
    let body: &[u8] = slice_subrange(message, RT_MSGHDR_LEN, message.len());
    assert(body@ =~= message@.skip(RT_MSGHDR_LEN as int));
    parse_one(rtm_addrs, rtm_index, rtm_flags, body)
}

/// Parses a `NET_RT_DUMP` buffer into route entries.
///
/// An entry whose addresses cannot be used is skipped or loses its gateway; it
/// never fails the table.
///
/// # Errors
///
/// The framing errors of [`message_len`], for the first message that has one:
/// from there on the buffer cannot be trusted.
pub fn parse_route_messages(buf: &[u8]) -> (parsed: Result<Vec<ParsedRoute>, RouteParseError>)
    ensures
        match parsed {
            Ok(routes) => table(buf@) == Ok::<Seq<RouteView>, ErrorView>(routes_view(routes@)),
            Err(e) => table(buf@) == Err::<Seq<RouteView>, ErrorView>(e@),
        },
{
    let mut routes: Vec<ParsedRoute> = Vec::new();
    let mut offset: usize = 0;
    proof {
        assert(buf@.skip(0) =~= buf@);
        if let Ok(entries) = table(buf@) {
            assert(routes_view(routes@) + entries =~= entries);
        }
    }
    while offset < buf.len()
        invariant
            offset <= buf@.len(),
            match table(buf@.skip(offset as int)) {
                Ok(rest) => table(buf@) == Ok::<Seq<RouteView>, ErrorView>(
                    routes_view(routes@) + rest,
                ),
                Err(e) => table(buf@) == Err::<Seq<RouteView>, ErrorView>(e),
            },
        decreases buf@.len() - offset,
    {
        let rest: &[u8] = slice_subrange(buf, offset, buf.len());
        assert(rest@ =~= buf@.skip(offset as int));
        let len: usize = match message_len(rest) {
            Ok(n) => n,
            Err(e) => return Err(e),
        };
        let message: &[u8] = slice_subrange(rest, 0, len);
        assert(message@ =~= rest@.take(len as int));
        assert(rest@.skip(len as int) =~= buf@.skip(offset + len));
        let ghost before = routes@;
        match parse_message(message) {
            Some(route) => {
                routes.push(route);
                assert(routes_view(routes@) =~= routes_view(before) + message_entries(message@));
            },
            None => {
                assert(routes_view(routes@) =~= routes_view(before) + message_entries(message@));
            },
        }
        offset += len;
        proof {
            if let Ok(tail) = table(buf@.skip(offset as int)) {
                assert(routes_view(before) + (message_entries(message@) + tail) =~= routes_view(
                    routes@,
                ) + tail);
            }
        }
    }
    assert(routes_view(routes@) + seq![] =~= routes_view(routes@));
    Ok(routes)
}

} // verus!
