use xdp_ip_counter::addr::{ipv4_from_be, ipv6_from_be, port_from_be, same_v4, same_v6, IpAddr};
use xdp_ip_counter::proto::{L3Proto, L4Proto};
use xdp_ip_counter::text::push_decimal;

fn decimal_string(n: u64) -> String {
    let mut text = String::new();
    push_decimal(&mut text, n);
    text
}

fn v6(segments: [u16; 8]) -> String {
    IpAddr::V6(segments).to_string()
}

#[test]
fn decimal_numerals() {
    assert_eq!(decimal_string(0), "0");
    assert_eq!(decimal_string(7), "7");
    assert_eq!(decimal_string(10), "10");
    assert_eq!(decimal_string(65535), "65535");
    assert_eq!(decimal_string(10240), "10240");
    assert_eq!(decimal_string(u64::MAX), "18446744073709551615");
}

#[test]
fn ipv4_text_is_dotted_decimal() {
    assert_eq!(IpAddr::V4([203, 0, 113, 5]).to_string(), "203.0.113.5");
    assert_eq!(IpAddr::V4([0, 0, 0, 0]).to_string(), "0.0.0.0");
    assert_eq!(IpAddr::V4([255, 255, 255, 255]).to_string(), "255.255.255.255");
    assert_eq!(IpAddr::V4([8, 8, 4, 4]).to_string(), "8.8.4.4");
    assert_eq!(IpAddr::V4([100, 10, 1, 0]).to_string(), "100.10.1.0");
}

#[test]
fn ipv6_text_compresses_the_longest_zero_run() {
    assert_eq!(v6([0x2001, 0xdb8, 0, 0, 0, 0, 0, 1]), "2001:db8::1");
    assert_eq!(v6([0, 0, 0, 0, 0, 0, 0, 1]), "::1");
    assert_eq!(v6([0, 0, 0, 0, 0, 0, 0, 0]), "::");
    assert_eq!(v6([1, 0, 0, 0, 0, 0, 0, 0]), "1::");
    assert_eq!(v6([0xfe80, 0, 0, 0, 0x0202, 0xb3ff, 0xfe1e, 0x8329]), "fe80::202:b3ff:fe1e:8329");
    assert_eq!(v6([1, 0, 0, 2, 0, 0, 0, 3]), "1:0:0:2::3");
    assert_eq!(v6([0, 0, 1, 0, 0, 0, 0, 1]), "0:0:1::1");
}

#[test]
fn ipv6_text_takes_the_leftmost_of_equal_runs() {
    assert_eq!(v6([0x2001, 0xdb8, 0, 0, 1, 0, 0, 1]), "2001:db8::1:0:0:1");
    assert_eq!(v6([0, 0, 1, 1, 1, 1, 0, 0]), "::1:1:1:1:0:0");
}

#[test]
fn ipv6_text_leaves_a_single_zero_segment() {
    assert_eq!(v6([0x2001, 0xdb8, 0, 1, 1, 1, 1, 1]), "2001:db8:0:1:1:1:1:1");
    assert_eq!(v6([1, 0, 1, 0, 1, 0, 1, 0]), "1:0:1:0:1:0:1:0");
    assert_eq!(
        v6([0xffff, 0xffff, 0xffff, 0xffff, 0xffff, 0xffff, 0xffff, 0xffff]),
        "ffff:ffff:ffff:ffff:ffff:ffff:ffff:ffff"
    );
    assert_eq!(v6([0x1, 0x20, 0x300, 0x4000, 0xa, 0xb0, 0xc00, 0xd000]), "1:20:300:4000:a:b0:c00:d000");
}

#[test]
fn ipv6_text_of_an_ipv4_mapped_address() {
    assert_eq!(v6([0, 0, 0, 0, 0, 0xffff, 0xc000, 0x0280]), "::ffff:192.0.2.128");
    assert_eq!(v6([0, 0, 0, 0, 0, 0xffff, 0, 0]), "::ffff:0.0.0.0");
    // Not mapped: the sixth segment is not ffff.
    assert_eq!(v6([0, 0, 0, 0, 0, 0xfffe, 0xc000, 0x0280]), "::fffe:c000:280");
}

#[test]
fn wire_order_to_host_order() {
    assert_eq!(port_from_be(&[0x01, 0xbb]), 443);
    assert_eq!(port_from_be(&[0x00, 0x16]), 22);
    assert_eq!(port_from_be(&[0xff, 0xff]), 65535);
    assert_eq!(port_from_be(&[0x50, 0x00]), 0x5000);
    assert_eq!(ipv4_from_be(&[203, 0, 113, 5]), [203, 0, 113, 5]);
    assert_eq!(
        ipv6_from_be(&[0x20, 0x01, 0x0d, 0xb8, 0, 0, 0, 0, 0, 0, 0, 0, 0, 0, 0, 0x01]),
        [0x2001, 0xdb8, 0, 0, 0, 0, 0, 1]
    );
    assert_eq!(
        ipv6_from_be(&[1, 2, 3, 4, 5, 6, 7, 8, 9, 10, 11, 12, 13, 14, 15, 16]),
        [0x0102, 0x0304, 0x0506, 0x0708, 0x090a, 0x0b0c, 0x0d0e, 0x0f10]
    );
}

#[test]
fn round_trip_through_wire_order_keeps_the_text() {
    let all: [[u16; 8]; 5] = [
        [0x2001, 0xdb8, 0, 0, 0, 0, 0, 1],
        [0, 0, 0, 0, 0, 0, 0, 1],
        [0xfe80, 0, 0, 0, 0x0202, 0xb3ff, 0xfe1e, 0x8329],
        [0x00ff, 0xff00, 0x1234, 0x0001, 0x0100, 0, 0, 0xabcd],
        [0, 0, 0, 0, 0, 0xffff, 0xcb00, 0x7105],
    ];
    for segments in all {
        let mut wire = [0u8; 16];
        for (i, segment) in segments.iter().enumerate() {
            let bytes = segment.to_be_bytes();
            wire[2 * i] = bytes[0];
            wire[2 * i + 1] = bytes[1];
        }
        let back = ipv6_from_be(&wire);
        assert_eq!(back, segments);
        assert_eq!(IpAddr::V6(back).to_string(), IpAddr::V6(segments).to_string());
    }
    for octets in [[203, 0, 113, 5], [10, 0, 0, 1], [0, 0, 0, 0], [255, 1, 2, 3]] {
        let back = ipv4_from_be(&octets);
        assert_eq!(IpAddr::V4(back).to_string(), IpAddr::V4(octets).to_string());
    }
}

#[test]
fn scope_of_ipv4_addresses() {
    for private in [[10, 0, 0, 1], [10, 255, 255, 255], [172, 16, 0, 1], [172, 31, 255, 255], [192, 168, 1, 1]] {
        let ip = IpAddr::V4(private);
        assert!(ip.is_private(), "{private:?}");
        assert!(!ip.is_global(), "{private:?}");
    }
    for loopback in [[127, 0, 0, 1], [127, 255, 255, 255]] {
        assert!(IpAddr::V4(loopback).is_loopback());
        assert!(!IpAddr::V4(loopback).is_global());
    }
    for link_local in [[169, 254, 0, 1], [169, 254, 255, 255]] {
        assert!(IpAddr::V4(link_local).is_link_local());
        assert!(!IpAddr::V4(link_local).is_global());
    }
    for global in [
        [8, 8, 8, 8],
        [203, 0, 113, 5],
        [203, 0, 113, 9],
        [172, 15, 255, 255],
        [172, 32, 0, 1],
        [192, 167, 1, 1],
        [192, 169, 1, 1],
        [169, 253, 1, 1],
        [11, 0, 0, 1],
        [126, 0, 0, 1],
        [128, 0, 0, 1],
    ] {
        assert!(IpAddr::V4(global).is_global(), "{global:?}");
    }
}

#[test]
fn scope_of_ipv6_addresses() {
    assert!(IpAddr::V6([0, 0, 0, 0, 0, 0, 0, 1]).is_loopback());
    assert!(!IpAddr::V6([0, 0, 0, 0, 0, 0, 0, 1]).is_global());
    assert!(!IpAddr::V6([0, 0, 0, 0, 0, 0, 0, 2]).is_loopback());
    for link_local in [0xfe80, 0xfe81, 0xfebf] {
        let ip = IpAddr::V6([link_local, 0, 0, 0, 0, 0, 0, 1]);
        assert!(ip.is_link_local());
        assert!(!ip.is_global());
    }
    for private in [0xfc00, 0xfd00, 0xfdff] {
        let ip = IpAddr::V6([private, 0, 0, 0, 0, 0, 0, 1]);
        assert!(ip.is_private());
        assert!(!ip.is_global());
    }
    for global in [0x2001, 0x2a00, 0xfe7f, 0xfec0, 0xfbff, 0xfe00] {
        assert!(IpAddr::V6([global, 0xdb8, 0, 0, 0, 0, 0, 1]).is_global(), "{global:x}");
    }
}

#[test]
fn addresses_are_compared_by_family_and_value() {
    assert!(IpAddr::V4([1, 2, 3, 4]).same(&IpAddr::V4([1, 2, 3, 4])));
    assert!(!IpAddr::V4([1, 2, 3, 4]).same(&IpAddr::V4([1, 2, 3, 5])));
    assert!(!IpAddr::V4([0, 0, 0, 1]).same(&IpAddr::V6([0, 0, 0, 0, 0, 0, 0, 1])));
    assert!(IpAddr::V6([1, 2, 3, 4, 5, 6, 7, 8]).same(&IpAddr::V6([1, 2, 3, 4, 5, 6, 7, 8])));
    assert!(!IpAddr::V6([1, 2, 3, 4, 5, 6, 7, 8]).same(&IpAddr::V6([1, 2, 3, 4, 5, 6, 7, 9])));
    assert!(same_v4(&[9, 9, 9, 9], &[9, 9, 9, 9]));
    assert!(!same_v4(&[9, 9, 9, 9], &[8, 9, 9, 9]));
    assert!(same_v6(&[0; 8], &[0; 8]));
    assert!(!same_v6(&[0; 8], &[0, 0, 0, 0, 1, 0, 0, 0]));
    assert_eq!(IpAddr::V4([1, 2, 3, 4]).network(), L3Proto::Ipv4);
    assert_eq!(IpAddr::V6([0; 8]).network(), L3Proto::Ipv6);
}

#[test]
fn protocol_names() {
    assert_eq!(L3Proto::Ipv4.to_string(), "IPv4");
    assert_eq!(L3Proto::Ipv6.to_string(), "IPv6");
    assert_eq!(L4Proto::Tcp(443).to_string(), "TCP");
    assert_eq!(L4Proto::Udp(53).to_string(), "UDP");
    assert_eq!(L4Proto::Tcp(443).port(), 443);
    assert_eq!(L4Proto::Udp(53).port(), 53);
}

/// The canonical text written out the long way: the longest run of two or
/// more zero segments, the first of its length, becomes `::`.
fn expected_v6(s: [u16; 8]) -> String {
    let join = |part: &[u16]| {
        part.iter().map(|segment| format!("{segment:x}")).collect::<Vec<_>>().join(":")
    };
    for len in (2..=8).rev() {
        for start in 0..=(8 - len) {
            if s[start..start + len].iter().all(|segment| *segment == 0) {
                return format!("{}::{}", join(&s[..start]), join(&s[start + len..]));
            }
        }
    }
    join(&s)
}

#[test]
fn ipv6_text_of_every_pattern_of_zero_segments() {
    for pattern in 0..256u32 {
        let mut s = [0u16; 8];
        for (i, segment) in s.iter_mut().enumerate() {
            if pattern & (1 << i) != 0 {
                *segment = 0x1a2b + i as u16;
            }
        }
        assert_eq!(v6(s), expected_v6(s), "{s:x?}");
    }
}

#[test]
fn ipv6_text_of_varied_segments() {
    let mut state: u64 = 0x1234_5678_9abc_def1;
    for _ in 0..5000 {
        let mut s = [0u16; 8];
        for segment in s.iter_mut() {
            state ^= state << 13;
            state ^= state >> 7;
            state ^= state << 17;
            *segment = match state % 5 {
                0 | 1 => 0,
                2 => (state >> 8) as u16 & 0xff,
                3 => 0xffff,
                _ => (state >> 16) as u16,
            };
        }
        if s[..5] == [0, 0, 0, 0, 0] && s[5] == 0xffff {
            let expected =
                format!("::ffff:{}.{}.{}.{}", s[6] >> 8, s[6] & 0xff, s[7] >> 8, s[7] & 0xff);
            assert_eq!(v6(s), expected);
        } else {
            assert_eq!(v6(s), expected_v6(s), "{s:x?}");
        }
    }
}
