use mapscan_route::parse::{
    message_len, parse_message, parse_one, sockaddr_slots, RTAX_DST, RTAX_GATEWAY, RTAX_NETMASK,
    RTF_HOST, RTF_WASCLONED, RTM_VERSION, RT_MSGHDR_LEN,
};
use mapscan_route::sockaddr::{AF_INET, AF_INET6, AF_LINK};
use mapscan_route::{
    parse_route_messages, IpAddr, Ipv4Addr, Ipv6Addr, ParsedRoute, RouteParseError,
};

// One rt_msghdr with the given fields, followed by the sockaddr blocks.
fn msg(rtm_addrs: i32, rtm_index: u16, rtm_flags: i32, sockaddrs: &[Vec<u8>]) -> Vec<u8> {
    let mut body: Vec<u8> = sockaddrs.iter().flatten().copied().collect();
    let msglen = (RT_MSGHDR_LEN + body.len()) as u16;
    let mut hdr = vec![0u8; RT_MSGHDR_LEN];
    hdr[0..2].copy_from_slice(&msglen.to_le_bytes());
    hdr[2] = RTM_VERSION;
    hdr[3] = 4;
    hdr[4..6].copy_from_slice(&rtm_index.to_le_bytes());
    hdr[8..12].copy_from_slice(&rtm_flags.to_le_bytes());
    hdr[12..16].copy_from_slice(&rtm_addrs.to_le_bytes());
    hdr.append(&mut body);
    hdr
}

// sockaddr_in: length 16, family, port, address, zeros.
fn sa_in(addr: Ipv4Addr) -> Vec<u8> {
    let mut v = vec![0u8; 16];
    v[0] = 16;
    v[1] = AF_INET as u8;
    v[4..8].copy_from_slice(&addr.octets);
    v
}

// sockaddr_in6: length 28, family, port, flow info, address, scope.
fn sa_in6(octets: [u8; 16]) -> Vec<u8> {
    let mut v = vec![0u8; 28];
    v[0] = 28;
    v[1] = AF_INET6 as u8;
    v[8..24].copy_from_slice(&octets);
    v
}

// sockaddr_dl, as the gateway of an on-link destination.
fn sa_dl() -> Vec<u8> {
    let mut v = vec![0u8; 20];
    v[0] = 20;
    v[1] = AF_LINK as u8;
    v
}

// A v4 netmask whose length counts the significant bytes only.
fn sa_in_masklen_v4(prefix: u8) -> Vec<u8> {
    let mask: u32 = if prefix == 0 {
        0
    } else {
        u32::MAX << (32 - prefix)
    };
    let bytes = mask.to_be_bytes();
    let significant = bytes.iter().rposition(|&b| b != 0).map_or(0, |i| i + 1);
    let mut v = vec![0u8; 4 + significant];
    v[0] = (4 + significant) as u8;
    v[1] = 0;
    v[4..4 + significant].copy_from_slice(&bytes[..significant]);
    v
}

fn v4(a: u8, b: u8, c: u8, d: u8) -> IpAddr {
    IpAddr::V4(Ipv4Addr::new(a, b, c, d))
}

fn v6(octets: [u8; 16]) -> IpAddr {
    IpAddr::V6(Ipv6Addr { octets })
}

fn default_route(index: u16) -> Vec<u8> {
    msg(
        (1 << RTAX_DST) | (1 << RTAX_GATEWAY),
        index,
        0,
        &[
            sa_in(Ipv4Addr::new(0, 0, 0, 0)),
            sa_in(Ipv4Addr::new(10, 0, 0, 1)),
        ],
    )
}

#[test]
fn parses_default_route_via_gateway() {
    let buf = msg(
        (1 << RTAX_DST) | (1 << RTAX_GATEWAY),
        5,
        0,
        &[
            sa_in(Ipv4Addr::new(0, 0, 0, 0)),
            sa_in(Ipv4Addr::new(10, 0, 0, 1)),
        ],
    );
    let routes = parse_route_messages(&buf).expect("valid table parses");
    assert_eq!(routes.len(), 1);
    assert_eq!(
        routes[0].destination,
        IpAddr::V4(Ipv4Addr::new(0, 0, 0, 0))
    );
    assert_eq!(
        routes[0].gateway,
        Some(IpAddr::V4(Ipv4Addr::new(10, 0, 0, 1)))
    );
    assert_eq!(routes[0].prefix, 0);
    assert_eq!(routes[0].ifindex, Some(5));
    assert_eq!(routes[0].ifname, None);
    assert_eq!(routes[0].metric, None);
}

#[test]
fn parses_onlink_v4_slash24_with_compressed_mask() {
    let buf = msg(
        (1 << RTAX_DST) | (1 << RTAX_NETMASK),
        7,
        0,
        &[sa_in(Ipv4Addr::new(192, 0, 2, 0)), sa_in_masklen_v4(24)],
    );
    let r = parse_route_messages(&buf).expect("parses");
    assert_eq!(r.len(), 1);
    assert_eq!(r[0].prefix, 24);
    assert_eq!(r[0].gateway, None);
    assert_eq!(r[0].ifindex, Some(7));
}

#[test]
fn truncated_buffer_is_not_a_panic() {
    let buf = vec![0xFFu8; RT_MSGHDR_LEN / 2];
    let _ = parse_route_messages(&buf);
}

#[test]
fn bad_rtm_version_is_an_error_not_panic() {
    let mut buf = msg(
        1 << RTAX_DST,
        1,
        0,
        &[sa_in(Ipv4Addr::new(0, 0, 0, 0))],
    );
    buf[2] = 99;
    assert!(matches!(
        parse_route_messages(&buf),
        Err(RouteParseError::UnexpectedRtmVersion(99))
    ));
}

#[test]
fn empty_dump_has_no_routes() {
    assert_eq!(parse_route_messages(&[]), Ok(vec![]));
}

#[test]
fn every_compressed_v4_mask_gives_its_prefix() {
    for prefix in 0..=32u8 {
        let buf = msg(
            (1 << RTAX_DST) | (1 << RTAX_NETMASK),
            1,
            0,
            &[sa_in(Ipv4Addr::new(10, 0, 0, 0)), sa_in_masklen_v4(prefix)],
        );
        let r = parse_route_messages(&buf).expect("parses");
        assert_eq!(r.len(), 1);
        assert_eq!(r[0].prefix, prefix);
    }
}

#[test]
fn a_dump_that_ends_within_a_message_is_truncated() {
    let first = default_route(1);
    let second = default_route(2);
    let mut whole = first.clone();
    whole.extend_from_slice(&second);
    assert_eq!(parse_route_messages(&whole).expect("parses").len(), 2);
    for cut in 1..second.len() {
        let got = parse_route_messages(&whole[..first.len() + cut]);
        assert!(matches!(got, Err(RouteParseError::Truncated { .. })));
    }
    assert_eq!(
        parse_route_messages(&whole[..1]),
        Err(RouteParseError::Truncated {
            what: "rtm_msglen",
            need: 2,
            got: 1
        })
    );
    assert_eq!(
        parse_route_messages(&whole[..2]),
        Err(RouteParseError::Truncated {
            what: "rtm_version",
            need: 3,
            got: 2
        })
    );
    assert_eq!(
        parse_route_messages(&whole[..91]),
        Err(RouteParseError::Truncated {
            what: "rt_msghdr",
            need: 92,
            got: 91
        })
    );
    assert_eq!(
        parse_route_messages(&whole[..100]),
        Err(RouteParseError::Truncated {
            what: "route message",
            need: 124,
            got: 100
        })
    );
}

#[test]
fn a_length_that_does_not_cover_the_header_is_truncation() {
    let mut buf = default_route(1);
    buf[0] = 91;
    buf[1] = 0;
    assert_eq!(
        parse_route_messages(&buf),
        Err(RouteParseError::Truncated {
            what: "rt_msghdr",
            need: 92,
            got: 91
        })
    );
    buf[0] = 0;
    assert!(message_len(&buf).is_err());
}

#[test]
fn a_message_is_as_long_as_it_says() {
    let one = default_route(1);
    let mut two = one.clone();
    two.extend_from_slice(&one);
    assert_eq!(message_len(&two), Ok(one.len()));
    assert_eq!(
        parse_message(&one),
        parse_route_messages(&one).expect("parses").pop()
    );
}

#[test]
fn tables_of_two_dumps_concatenate() {
    let a = default_route(3);
    let b = msg(
        (1 << RTAX_DST) | (1 << RTAX_NETMASK),
        4,
        0,
        &[sa_in(Ipv4Addr::new(172, 16, 0, 0)), sa_in_masklen_v4(12)],
    );
    let mut both = a.clone();
    both.extend_from_slice(&b);
    let mut expected = parse_route_messages(&a).expect("parses");
    expected.extend(parse_route_messages(&b).expect("parses"));
    assert_eq!(parse_route_messages(&both), Ok(expected));
}

#[test]
fn a_malformed_entry_is_skipped_alone() {
    let mut odd = sa_in(Ipv4Addr::new(1, 2, 3, 4));
    odd[1] = 77;
    let mut buf = default_route(1);
    buf.extend_from_slice(&msg(1 << RTAX_DST, 2, 0, &[odd]));
    buf.extend_from_slice(&msg(1 << RTAX_DST, 3, 0, &[sa_dl()]));
    buf.extend_from_slice(&msg(1 << RTAX_DST, 4, 0, &[]));
    buf.extend_from_slice(&msg(1 << RTAX_DST, 5, 0, &[vec![8, 2, 0, 0]]));
    buf.extend_from_slice(&default_route(6));
    let indexes: Vec<Option<u32>> = parse_route_messages(&buf)
        .expect("parses")
        .iter()
        .map(|r| r.ifindex)
        .collect();
    assert_eq!(indexes, vec![Some(1), Some(6)]);
}

#[test]
fn a_bad_version_fails_the_whole_table() {
    let mut buf = default_route(1);
    let mut bad = default_route(2);
    bad[2] = 4;
    buf.extend_from_slice(&bad);
    buf.extend_from_slice(&default_route(3));
    assert_eq!(
        parse_route_messages(&buf),
        Err(RouteParseError::UnexpectedRtmVersion(4))
    );
}

#[test]
fn a_bad_version_comes_before_the_stated_length() {
    for stated in [0u16, 91, 92, 200, u16::MAX] {
        let mut buf = vec![0u8; RT_MSGHDR_LEN];
        buf[0..2].copy_from_slice(&stated.to_le_bytes());
        buf[2] = 99;
        assert_eq!(
            parse_route_messages(&buf),
            Err(RouteParseError::UnexpectedRtmVersion(99))
        );
        buf.pop();
        assert_eq!(
            parse_route_messages(&buf),
            Err(RouteParseError::Truncated {
                what: "rt_msghdr",
                need: 92,
                got: 91
            })
        );
    }
}

#[test]
fn a_malformed_entry_leaves_the_error_after_it() {
    let mut odd = sa_in(Ipv4Addr::new(1, 2, 3, 4));
    odd[1] = 77;
    let mut bad = default_route(2);
    bad[2] = 6;
    let mut buf = default_route(1);
    buf.extend_from_slice(&msg(1 << RTAX_DST, 2, 0, &[odd]));
    buf.extend_from_slice(&bad);
    assert_eq!(
        parse_route_messages(&buf),
        Err(RouteParseError::UnexpectedRtmVersion(6))
    );
}

#[test]
fn cloned_entries_are_left_out() {
    let cloned = msg(
        1 << RTAX_DST,
        9,
        RTF_WASCLONED | RTF_HOST,
        &[sa_in(Ipv4Addr::new(10, 0, 0, 7))],
    );
    let mut buf = cloned.clone();
    buf.extend_from_slice(&default_route(1));
    buf.extend_from_slice(&cloned);
    assert_eq!(
        parse_route_messages(&buf),
        parse_route_messages(&default_route(1))
    );
}

#[test]
fn a_gateway_that_is_no_address_is_none() {
    let buf = msg(
        (1 << RTAX_DST) | (1 << RTAX_GATEWAY) | (1 << RTAX_NETMASK),
        4,
        0,
        &[
            sa_in(Ipv4Addr::new(10, 1, 0, 0)),
            sa_dl(),
            sa_in_masklen_v4(16),
        ],
    );
    let r = parse_route_messages(&buf).expect("parses");
    assert_eq!(
        r,
        vec![ParsedRoute {
            destination: v4(10, 1, 0, 0),
            prefix: 16,
            gateway: None,
            ifindex: Some(4),
            ifname: None,
            metric: None,
        }]
    );
    let mut unknown = sa_dl();
    unknown[1] = 99;
    let body: Vec<u8> = [sa_in(Ipv4Addr::new(10, 1, 0, 0)), unknown].concat();
    let r = parse_one(3, 1, 0, &body).expect("has a destination");
    assert_eq!(r.gateway, None);
}

#[test]
fn host_routes_without_a_netmask_are_whole() {
    let body = sa_in(Ipv4Addr::new(10, 0, 0, 9));
    assert_eq!(parse_one(1, 1, RTF_HOST, &body).expect("parses").prefix, 32);
    assert_eq!(parse_one(1, 1, 0, &body).expect("parses").prefix, 0);
    let mut octets = [0u8; 16];
    octets[15] = 1;
    let body = sa_in6(octets);
    assert_eq!(
        parse_one(1, 1, RTF_HOST, &body).expect("parses").prefix,
        128
    );
}

#[test]
fn a_netmask_that_is_claimed_and_missing_is_zero() {
    let body = sa_in(Ipv4Addr::new(10, 0, 0, 9));
    let addrs = (1 << RTAX_DST) | (1 << RTAX_NETMASK);
    assert_eq!(
        parse_one(addrs, 1, RTF_HOST, &body).expect("parses").prefix,
        0
    );
}

#[test]
fn v6_route_with_scoped_gateway() {
    let mut dst = [0u8; 16];
    dst[0] = 0x20;
    dst[1] = 0x01;
    let mut gw = [0u8; 16];
    gw[0] = 0xfe;
    gw[1] = 0x80;
    gw[3] = 4;
    gw[15] = 1;
    let mut mask = vec![0u8; 12];
    mask[0] = 12;
    mask[8..12].copy_from_slice(&[255, 255, 255, 0]);
    let buf = msg(7, 4, 0, &[sa_in6(dst), sa_in6(gw), mask]);
    let r = parse_route_messages(&buf).expect("parses");
    let mut clean = gw;
    clean[3] = 0;
    assert_eq!(r[0].destination, v6(dst));
    assert_eq!(r[0].gateway, Some(v6(clean)));
    assert_eq!(r[0].prefix, 24);
}

#[test]
fn sockaddrs_are_read_in_the_order_of_their_slots() {
    let a = sa_in(Ipv4Addr::new(1, 2, 3, 4));
    let b = sa_dl();
    let c = vec![7u8, 0, 0, 0, 255, 255, 255];
    let body: Vec<u8> = [a.clone(), b.clone(), c.clone()].concat();
    let slots = sockaddr_slots(7, &body);
    assert_eq!(slots.len(), 8);
    assert_eq!(slots[0], Some(a.as_slice()));
    assert_eq!(slots[1], Some(b.as_slice()));
    assert_eq!(slots[2], Some(c.as_slice()));
    assert_eq!(slots[3], None);
    // A sockaddr of length zero takes four bytes.
    let slots = sockaddr_slots(6, &[0, 0, 0, 0, 5, 1]);
    assert_eq!(slots[0], None);
    assert_eq!(slots[1], Some([0u8, 0, 0, 0].as_slice()));
    assert_eq!(slots[2], Some([5u8, 1].as_slice()));
    // Claims beyond the bytes come to nothing.
    let slots = sockaddr_slots(-1, &[4, 0, 0, 0]);
    assert_eq!(slots[0], Some([4u8, 0, 0, 0].as_slice()));
    assert!(slots[1..].iter().all(|s| s.is_none()));
}

#[test]
fn slots_beyond_the_netmask_do_not_matter() {
    let body: Vec<u8> = [sa_in(Ipv4Addr::new(1, 2, 3, 4)), sa_dl()].concat();
    assert_eq!(parse_one(1, 1, 0, &body), parse_one(1 | 0xf8, 1, 0, &body));
}

#[test]
fn every_short_input_is_answered() {
    // No input may panic: a small pseudo-random sweep.
    let mut seed: u32 = 1;
    for round in 0..2000usize {
        let len = round % 300;
        let mut buf = vec![0u8; len];
        for byte in buf.iter_mut() {
            seed = seed.wrapping_mul(1664525).wrapping_add(1013904223);
            *byte = (seed >> 24) as u8;
        }
        if len >= RT_MSGHDR_LEN {
            buf[0..2].copy_from_slice(&(len as u16).to_le_bytes());
            buf[2] = RTM_VERSION;
            let routes = parse_route_messages(&buf).expect("well framed");
            assert!(routes.len() <= 1);
        } else {
            assert_eq!(parse_route_messages(&buf).is_ok(), len == 0);
        }
    }
}
