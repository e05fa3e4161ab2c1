//! Route entries and the failures of parsing them.

use vstd::prelude::*;

use crate::addr::{IpAddr, IpView};

verus! {

/// One forwarding-table entry, whatever the platform.
///
/// The message parser fills every field but `ifname`, which is resolved once
/// the entry is known, and `metric`, which macOS does not report.
#[derive(Debug, Clone, PartialEq, Eq)]
pub struct ParsedRoute {
    /// Destination network address. `0.0.0.0` or `::` with `prefix == 0` is the
    /// default route.
    pub destination: IpAddr,
    /// Destination prefix length in bits.
    pub prefix: u8,
    /// Next-hop gateway, or `None` for an on-link destination.
    pub gateway: Option<IpAddr>,
    /// Egress interface index.
    pub ifindex: Option<u32>,
    /// Egress interface name, `None` until it is resolved.
    pub ifname: Option<String>,
    /// Route metric: `Some` on Windows, `None` on macOS.
    pub metric: Option<u32>,
}

/// Why a buffer or a sockaddr could not be parsed.
#[derive(Debug, Clone, PartialEq, Eq)]
pub enum RouteParseError {
    /// A header, a message or a sockaddr was shorter than it has to be.
    Truncated {
        /// Which structure was being read.
        what: &'static str,
        /// Bytes required.
        need: usize,
        /// Bytes available.
        got: usize,
    },
    /// A sockaddr carried an address family that is not handled.
    BadAddressFamily(u16),
    /// The version byte of a message header was not the expected one.
    UnexpectedRtmVersion(u8),
}

/// What a [`ParsedRoute`] says.
#[verifier::ext_equal]
pub struct RouteView {
    pub destination: IpView,
    pub prefix: nat,
    pub gateway: Option<IpView>,
    pub ifindex: Option<u32>,
    pub ifname: Option<Seq<char>>,
    pub metric: Option<u32>,
}

/// What a [`RouteParseError`] says.
#[verifier::ext_equal]
pub enum ErrorView {
    Truncated { what: Seq<char>, need: nat, got: nat },
    BadAddressFamily(u16),
    UnexpectedRtmVersion(u8),
}

/// The meaning of an optional address.
pub open spec fn ip_option_view(ip: Option<IpAddr>) -> Option<IpView> {
    match ip {
        Some(a) => Some(a@),
        None => None,
    }
}

/// The text of an optional string.
pub open spec fn text_option_view(text: Option<String>) -> Option<Seq<char>> {
    match text {
        Some(t) => Some(t@),
        None => None,
    }
}

impl View for ParsedRoute {
    type V = RouteView;

    open spec fn view(&self) -> RouteView {
        RouteView {
            destination: self.destination@,
            prefix: self.prefix as nat,
            gateway: ip_option_view(self.gateway),
            ifindex: self.ifindex,
            ifname: text_option_view(self.ifname),
            metric: self.metric,
        }
    }
}

impl View for RouteParseError {
    type V = ErrorView;

    open spec fn view(&self) -> ErrorView {
        match self {
            RouteParseError::Truncated { what, need, got } => ErrorView::Truncated {
                what: what@,
                need: *need as nat,
                got: *got as nat,
            },
            RouteParseError::BadAddressFamily(family) => ErrorView::BadAddressFamily(*family),
            RouteParseError::UnexpectedRtmVersion(version) => ErrorView::UnexpectedRtmVersion(
                *version,
            ),
        }
    }
}

/// The meaning of an optional route.
pub open spec fn route_option_view(route: Option<ParsedRoute>) -> Option<RouteView> {
    match route {
        Some(r) => Some(r@),
        None => None,
    }
}

/// The entries that a vector of routes holds, in order.
pub open spec fn routes_view(routes: Seq<ParsedRoute>) -> Seq<RouteView> {
    routes.map_values(|r: ParsedRoute| r@)
}

} // verus!
