//! Read-only access to the routing tables of macOS and Windows.
//!
//! The library is the part that computes: the parser for a macOS `NET_RT_DUMP`
//! buffer, the retry policy of the `sysctl` fetch, the conversion of Windows
//! forwarding rows, and the decoding of interface names. It makes no system
//! call.

pub mod addr;
pub mod bytes;
pub mod bytewise;
pub mod fetch;
pub mod forward_table;
pub mod laws;
pub mod names;
pub mod parse;
pub mod route;
pub mod sockaddr;

pub use addr::{IpAddr, Ipv4Addr, Ipv6Addr};
pub use parse::parse_route_messages;
pub use route::{ParsedRoute, RouteParseError};
