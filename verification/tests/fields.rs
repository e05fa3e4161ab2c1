use mapscan_route::bytes::{le_i32, le_u16};
use mapscan_route::sockaddr::{mask_to_prefix, normalize_v6_scope, roundup, sa_to_ip};
use mapscan_route::{IpAddr, Ipv4Addr, Ipv6Addr, RouteParseError};

fn v6(octets: [u8; 16]) -> IpAddr {
    IpAddr::V6(Ipv6Addr { octets })
}

#[test]
fn little_endian_fields() {
    let b = [0x34u8, 0x12, 0xfe, 0xff, 0xff, 0xff];
    assert_eq!(le_u16(&b, 0), Some(0x1234));
    assert_eq!(le_u16(&b, 4), Some(0xffff));
    assert_eq!(le_u16(&b, 5), None);
    assert_eq!(le_u16(&b, 100), None);
    assert_eq!(le_i32(&b, 2), Some(-2));
    assert_eq!(le_i32(&b, 0), Some(i32::from_le_bytes([0x34, 0x12, 0xfe, 0xff])));
    assert_eq!(le_i32(&[0, 0, 0, 0x80], 0), Some(i32::MIN));
    assert_eq!(le_i32(&[0xff, 0xff, 0xff, 0x7f], 0), Some(i32::MAX));
    assert_eq!(le_i32(&b, 3), None);
}

#[test]
fn sockaddrs_are_padded_to_four() {
    assert_eq!(roundup(0), 4);
    assert_eq!(roundup(1), 4);
    assert_eq!(roundup(4), 4);
    assert_eq!(roundup(5), 8);
    assert_eq!(roundup(7), 8);
    assert_eq!(roundup(16), 16);
    assert_eq!(roundup(28), 28);
    assert_eq!(roundup(255), 256);
}

#[test]
fn sockaddrs_decode_by_family() {
    assert_eq!(sa_to_ip(&[]), Ok(None));
    assert_eq!(sa_to_ip(&[4]), Ok(None));
    assert_eq!(
        sa_to_ip(&[16, 2, 0, 0, 127, 0, 0, 1]),
        Ok(Some(IpAddr::V4(Ipv4Addr::new(127, 0, 0, 1))))
    );
    let mut sa = [0u8; 24];
    sa[1] = 30;
    sa[8] = 0x20;
    sa[23] = 7;
    let mut octets = [0u8; 16];
    octets[0] = 0x20;
    octets[15] = 7;
    assert_eq!(sa_to_ip(&sa), Ok(Some(v6(octets))));
    assert_eq!(sa_to_ip(&[20, 18]), Ok(None));
}

#[test]
fn sockaddrs_that_cannot_be_decoded() {
    assert_eq!(
        sa_to_ip(&[8, 2, 0, 0, 1, 2, 3]),
        Err(RouteParseError::Truncated {
            what: "sockaddr_in",
            need: 8,
            got: 7
        })
    );
    assert_eq!(
        sa_to_ip(&[28, 30, 0, 0]),
        Err(RouteParseError::Truncated {
            what: "sockaddr_in6",
            need: 24,
            got: 4
        })
    );
    // 10 is the IPv6 family elsewhere, not on macOS.
    assert_eq!(sa_to_ip(&[4, 10]), Err(RouteParseError::BadAddressFamily(10)));
    assert_eq!(sa_to_ip(&[4, 0]), Err(RouteParseError::BadAddressFamily(0)));
}

#[test]
fn stored_scopes_are_cleared() {
    let mut with = [9u8; 16];
    let mut without = [9u8; 16];
    without[2] = 0;
    without[3] = 0;
    for (first, second, cleared) in [
        (0xfeu8, 0x80u8, true),
        (0xff, 0x01, true),
        (0xff, 0x02, true),
        (0xff, 0x32, true),
        (0xff, 0x05, false),
        (0xff, 0x0e, false),
        (0xfe, 0x81, false),
        (0x20, 0x01, false),
    ] {
        with[0] = first;
        with[1] = second;
        without[0] = first;
        without[1] = second;
        let expected = if cleared { without } else { with };
        let once = normalize_v6_scope(Some(v6(with)));
        assert_eq!(once, Some(v6(expected)));
        assert_eq!(normalize_v6_scope(once), once);
    }
    let v4 = Some(IpAddr::V4(Ipv4Addr::new(0xfe, 0x80, 1, 2)));
    assert_eq!(normalize_v6_scope(v4), v4);
    assert_eq!(normalize_v6_scope(None), None);
}

#[test]
fn masks_give_their_leading_ones() {
    let v4 = IpAddr::V4(Ipv4Addr::new(10, 0, 0, 0));
    assert_eq!(mask_to_prefix(&[], v4), 0);
    assert_eq!(mask_to_prefix(&[0, 0, 0, 0], v4), 0);
    assert_eq!(mask_to_prefix(&[8, 2, 0, 0, 255, 255, 255, 255], v4), 32);
    assert_eq!(mask_to_prefix(&[16, 2, 0, 0, 255, 255, 240, 0, 0, 0, 0, 0, 0, 0, 0, 0], v4), 20);
    assert_eq!(mask_to_prefix(&[6, 0, 0, 0, 255, 128], v4), 9);
    // The ones behind the first zero do not count.
    assert_eq!(mask_to_prefix(&[8, 0, 0, 0, 255, 0, 255, 0], v4), 8);
    // More is announced than there is.
    assert_eq!(mask_to_prefix(&[8, 0, 0, 0, 255, 255], v4), 0);
    let mut full = [255u8; 28];
    full[0] = 28;
    assert_eq!(mask_to_prefix(&full, v6([0; 16])), 128);
    assert_eq!(mask_to_prefix(&[9, 0, 0, 0, 0, 0, 0, 0, 254], v6([0; 16])), 7);
}

#[test]
fn compressed_masks_are_whole_masks() {
    let dst = IpAddr::V4(Ipv4Addr::new(10, 0, 0, 0));
    let short = mask_to_prefix(&[6, 0, 0, 0, 255, 254], dst);
    let long = mask_to_prefix(&[8, 2, 9, 9, 255, 254, 0, 0], dst);
    assert_eq!(short, 15);
    assert_eq!(short, long);
}

#[test]
fn unspecified_addresses() {
    assert!(IpAddr::V4(Ipv4Addr::new(0, 0, 0, 0)).is_unspecified());
    assert!(!IpAddr::V4(Ipv4Addr::new(0, 0, 0, 1)).is_unspecified());
    assert!(v6([0; 16]).is_unspecified());
    let mut last = [0u8; 16];
    last[15] = 1;
    assert!(!v6(last).is_unspecified());
}
