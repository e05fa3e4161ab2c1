use mapscan_route::fetch::{
    begin, next, sysctl_call, FetchAction, FetchEvent, FetchPhase, FetchState, SizeRaceCodes,
    SysctlCall, MAX_ATTEMPTS, SIZE_PAD,
};
use mapscan_route::forward_table::{
    row_to_route, rows_to_routes, stands_for_route, ForwardRow, SockaddrInet,
};
use mapscan_route::names::{name_from_utf16, name_from_utf8, name_interfaces};
use mapscan_route::{IpAddr, Ipv4Addr, Ipv6Addr, ParsedRoute};
use windows_sys::Win32::Networking::WinSock::{AF_INET, AF_INET6, AF_UNSPEC};

const CODES: SizeRaceCodes = SizeRaceCodes {
    enomem: 12,
    enobufs: 55,
};

#[test]
fn a_fetch_that_goes_well() {
    let (state, action) = begin();
    assert_eq!(action, FetchAction::AskSize);
    let (state, action) = next(state, FetchEvent::Sized(1000), CODES);
    assert_eq!(action, FetchAction::Fill(3048));
    let (state, action) = next(state, FetchEvent::Filled(900), CODES);
    assert_eq!(action, FetchAction::Keep(900));
    assert_eq!(state.phase, FetchPhase::Over);
}

#[test]
fn a_size_race_is_tried_three_times() {
    let (mut state, mut action) = begin();
    let mut sizings = 0;
    for code in [12, 55, 12] {
        assert_eq!(action, FetchAction::AskSize);
        sizings += 1;
        let sized = next(state, FetchEvent::Sized(10), CODES);
        assert_eq!(sized.1, FetchAction::Fill(10 + SIZE_PAD));
        let failed = next(sized.0, FetchEvent::FillingFailed(Some(code)), CODES);
        state = failed.0;
        action = failed.1;
    }
    assert_eq!(sizings, MAX_ATTEMPTS as i32);
    assert_eq!(action, FetchAction::GiveUp);
    assert_eq!(state.phase, FetchPhase::Over);
}

#[test]
fn other_failures_are_reported_at_once() {
    let (state, _) = begin();
    assert_eq!(
        next(state, FetchEvent::SizingFailed, CODES).1,
        FetchAction::Report
    );
    let filling = FetchState {
        attempt: 2,
        phase: FetchPhase::Filling,
    };
    for code in [Some(1), Some(13), None] {
        let (after, action) = next(filling, FetchEvent::FillingFailed(code), CODES);
        assert_eq!(action, FetchAction::Report);
        assert_eq!(after.phase, FetchPhase::Over);
    }
}

#[test]
fn fetch_calls_only_read_the_dump() {
    let name = [4, 17, 0, 0, 7, 0];
    assert_eq!(
        sysctl_call(FetchAction::AskSize),
        Some(SysctlCall {
            name,
            buffer: None,
            new_len: 0
        })
    );
    assert_eq!(
        sysctl_call(FetchAction::Fill(2100)),
        Some(SysctlCall {
            name,
            buffer: Some(2100),
            new_len: 0
        })
    );
    for action in [FetchAction::Keep(1), FetchAction::Report, FetchAction::GiveUp] {
        assert_eq!(sysctl_call(action), None);
    }
}

#[test]
fn utf8_names_end_at_the_first_zero() {
    assert_eq!(name_from_utf8(b"en0\0junk"), Some("en0".to_string()));
    assert_eq!(name_from_utf8(b"utun12"), Some("utun12".to_string()));
    assert_eq!(name_from_utf8(b"\0en0"), Some(String::new()));
    assert_eq!(name_from_utf8(&[0xc3, 0xa9, 0]), Some("\u{e9}".to_string()));
    assert_eq!(name_from_utf8(&[b'e', 0xff, 0]), None);
    assert_eq!(name_from_utf8(&[b'e', 0, 0xff]), Some("e".to_string()));
}

#[test]
fn utf16_names_end_at_the_first_zero() {
    let mut buf: Vec<u16> = "ethernet_32768".encode_utf16().collect();
    assert_eq!(name_from_utf16(&buf), "ethernet_32768");
    buf.push(0);
    buf.push(0x41);
    assert_eq!(name_from_utf16(&buf), "ethernet_32768");
    // A pair is one character, and what is left of a pair is replaced.
    let odd = [0xd834u16, 0xdd1e, 0x6d, 0xdd1e, 0x69, 0xd834];
    assert_eq!(name_from_utf16(&odd), "\u{1d11e}m\u{fffd}i\u{fffd}");
    let twice = [0xd834u16, 0xd834, 0xdd1e, 0xdc00, 0xdc00];
    assert_eq!(
        name_from_utf16(&twice),
        "\u{fffd}\u{1d11e}\u{fffd}\u{fffd}"
    );
}

fn route(ifindex: Option<u32>) -> ParsedRoute {
    ParsedRoute {
        destination: IpAddr::V4(Ipv4Addr::new(0, 0, 0, 0)),
        prefix: 0,
        gateway: None,
        ifindex,
        ifname: None,
        metric: None,
    }
}

#[test]
fn names_go_to_the_routes_that_have_an_index() {
    let mut routes = vec![route(Some(1)), route(None), route(Some(3))];
    let names = vec![Some("en0".to_string()), Some("en1".to_string()), None];
    name_interfaces(&mut routes, &names);
    let mut first = route(Some(1));
    first.ifname = Some("en0".to_string());
    assert_eq!(routes, vec![first, route(None), route(Some(3))]);
}

fn inet(family: u16, fill: u8) -> SockaddrInet {
    SockaddrInet {
        family,
        ipv4: [fill; 4],
        ipv6: [fill + 1; 16],
    }
}

fn row(destination: SockaddrInet, next_hop: SockaddrInet) -> ForwardRow {
    ForwardRow {
        destination,
        prefix_length: 24,
        next_hop,
        interface_index: 11,
        interface_name: Some("eth".encode_utf16().chain([0u16, 7]).collect()),
        metric: 25,
    }
}

#[test]
fn rows_become_routes() {
    let got = row_to_route(&row(inet(AF_INET, 10), inet(AF_INET6, 20)));
    assert_eq!(
        got,
        Some(ParsedRoute {
            destination: IpAddr::V4(Ipv4Addr::new(10, 10, 10, 10)),
            prefix: 24,
            gateway: Some(IpAddr::V6(Ipv6Addr { octets: [21; 16] })),
            ifindex: Some(11),
            ifname: Some("eth".to_string()),
            metric: Some(25),
        })
    );
    assert_eq!(AF_INET, 2);
    assert_eq!(AF_INET6, 23);
}

#[test]
fn rows_of_other_families_are_skipped() {
    assert_eq!(row_to_route(&row(inet(AF_UNSPEC, 1), inet(AF_INET, 1))), None);
    // 30 is the IPv6 family of macOS.
    assert_eq!(row_to_route(&row(inet(30, 1), inet(AF_INET, 1))), None);
    let rows = vec![
        row(inet(AF_INET, 1), inet(AF_INET, 2)),
        row(inet(AF_UNSPEC, 3), inet(AF_INET, 2)),
        row(inet(AF_INET6, 4), inet(AF_INET, 2)),
    ];
    assert!(stands_for_route(&rows[0]));
    assert!(!stands_for_route(&rows[1]));
    assert!(stands_for_route(&rows[2]));
    let routes = rows_to_routes(&rows);
    assert_eq!(routes.len(), 2);
    assert_eq!(Some(&routes[0]), row_to_route(&rows[0]).as_ref());
    assert_eq!(Some(&routes[1]), row_to_route(&rows[2]).as_ref());
}

#[test]
fn an_unspecified_next_hop_is_on_link() {
    let on_link = row_to_route(&row(inet(AF_INET, 1), inet(AF_INET, 0))).expect("a route");
    assert_eq!(on_link.gateway, None);
    let other = row_to_route(&row(inet(AF_INET, 1), inet(AF_UNSPEC, 9))).expect("a route");
    assert_eq!(other.gateway, None);
    let mut nameless = row(inet(AF_INET, 1), inet(AF_INET, 2));
    nameless.interface_name = None;
    assert_eq!(row_to_route(&nameless).expect("a route").ifname, None);
}
