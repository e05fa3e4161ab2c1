//! The forwarding table of Windows, whose rows the system hands over decoded.

use vstd::prelude::*;

use crate::addr::{IpAddr, IpView, Ipv4Addr, Ipv6Addr};
use crate::names::{before_first, name_from_utf16, utf16_text};
use crate::route::{ip_option_view, route_option_view, routes_view, ParsedRoute, RouteView};

verus! {

/// A `SOCKADDR_INET`: a family, and the octets as each of the two families
/// places them.
#[derive(Debug, Clone, Copy, PartialEq, Eq)]
pub struct SockaddrInet {
    pub family: u16,
    pub ipv4: [u8; 4],
    pub ipv6: [u8; 16],
}

/// What a route needs of a `MIB_IPFORWARD_ROW2`.
#[derive(Debug, Clone, PartialEq, Eq)]
pub struct ForwardRow {
    pub destination: SockaddrInet,
    pub prefix_length: u8,
    pub next_hop: SockaddrInet,
    pub interface_index: u32,
    /// The zero-terminated UTF-16 name of the interface, where the system knows
    /// one.
    pub interface_name: Option<Vec<u16>>,
    pub metric: u32,
}

/// Reads `AF_INET` of `windows-sys`, the family of IPv4 on Windows, which is 2.
#[verifier::external_body]
fn af_inet() -> (family: u16)
    ensures
        family == 2,
{
    windows_sys::Win32::Networking::WinSock::AF_INET
}

/// Reads `AF_INET6` of `windows-sys`, the family of IPv6 on Windows, which is
/// 23.
#[verifier::external_body]
fn af_inet6() -> (family: u16)
    ensures
        family == 23,
{
    windows_sys::Win32::Networking::WinSock::AF_INET6
}

/// The address of a `SOCKADDR_INET`, or none for a family other than the two of
/// IP, which are 2 and 23 on Windows.
pub open spec fn inet_address(sa: SockaddrInet) -> Option<IpView> {
    if sa.family == 2 {
        Some(IpView::V4(sa.ipv4@))
    } else if sa.family == 23 {
        Some(IpView::V6(sa.ipv6@))
    } else {
        None
    }
}

/// Decodes a `SOCKADDR_INET`.
fn inet_to_ip(sa: SockaddrInet) -> (ip: Option<IpAddr>)
    ensures
        ip_option_view(ip) == inet_address(sa),
{
    if sa.family == af_inet() {
        Some(IpAddr::V4(Ipv4Addr { octets: sa.ipv4 }))
    } else if sa.family == af_inet6() {
        Some(IpAddr::V6(Ipv6Addr { octets: sa.ipv6 }))
    } else {
        None
    }
}

/// The gateway of a row: its next hop, unless that is unspecified, which means
/// that the destination is on-link.
pub open spec fn row_gateway(row: ForwardRow) -> Option<IpView> {
    match inet_address(row.next_hop) {
        Some(ip) if !ip.is_unspecified() => Some(ip),
        _ => None,
    }
}

/// The name in a row.
pub open spec fn row_name(row: ForwardRow) -> Option<Seq<char>> {
    match row.interface_name {
        Some(buf) => Some(utf16_text(before_first(buf@, 0))),
        None => None,
    }
}

/// The entry that a row stands for, or none where its destination is of another
/// family.
pub open spec fn row_entry(row: ForwardRow) -> Option<RouteView> {
    match inet_address(row.destination) {
        None => None,
        Some(destination) => Some(
            RouteView {
                destination,
                prefix: row.prefix_length as nat,
                gateway: row_gateway(row),
                ifindex: Some(row.interface_index),
                ifname: row_name(row),
                metric: Some(row.metric),
            },
        ),
    }
}

/// Whether a row stands for a route. Only then is the name of its interface
/// worth looking up.
pub fn stands_for_route(row: &ForwardRow) -> (stands: bool)
    ensures
        stands <==> row_entry(*row) is Some,
{
    inet_to_ip(row.destination).is_some()
}

/// Converts a row into a route.
pub fn row_to_route(row: &ForwardRow) -> (route: Option<ParsedRoute>)
    ensures
        route_option_view(route) == row_entry(*row),
{
    let destination: IpAddr = match inet_to_ip(row.destination) {
        Some(ip) => ip,
        None => return None,
    };
    let gateway: Option<IpAddr> = match inet_to_ip(row.next_hop) {
        Some(ip) => if ip.is_unspecified() {
            None
        } else {
            Some(ip)
        },
        None => None,
    };
    let ifname: Option<String> = match &row.interface_name {
        Some(buf) => Some(name_from_utf16(buf.as_slice())),
        None => None,
    };
    Some(
        ParsedRoute {
            destination,
            prefix: row.prefix_length,
            gateway,
            ifindex: Some(row.interface_index),
            ifname,
            metric: Some(row.metric),
        },
    )
}

/// The entries of `rows`, in order, without those rows that stand for none.
pub open spec fn rows_entries(rows: Seq<ForwardRow>) -> Seq<RouteView>
    decreases rows.len(),
{
    if rows.len() == 0 {
        seq![]
    } else {
        match row_entry(rows.last()) {
            Some(entry) => rows_entries(rows.drop_last()).push(entry),
            None => rows_entries(rows.drop_last()),
        }
    }
}

/// Converts the rows of a table into routes.
pub fn rows_to_routes(rows: &[ForwardRow]) -> (routes: Vec<ParsedRoute>)
    ensures
        routes_view(routes@) == rows_entries(rows@),
{
    let mut routes: Vec<ParsedRoute> = Vec::new();
    let mut i: usize = 0;
    while i < rows.len()
        invariant
            i <= rows@.len(),
            routes_view(routes@) == rows_entries(rows@.take(i as int)),
        decreases rows@.len() - i,
    {
        let ghost before = routes@;
        assert(rows@.take(i + 1).drop_last() =~= rows@.take(i as int));
        if let Some(route) = row_to_route(&rows[i]) {
            routes.push(route);
            assert(routes_view(routes@) =~= routes_view(before).push(route@));
        }
        i += 1;
    }
    assert(rows@.take(i as int) =~= rows@);
    routes
}

} // verus!
