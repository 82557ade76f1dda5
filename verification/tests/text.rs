use xdp_ip_counter::addr::IpAddr;
use xdp_ip_counter::classifier::{parse_frame, ClassifyError, TableId};
use xdp_ip_counter::proto::{L3Proto, L4Proto};
use xdp_ip_counter::text::{
    chars_of, digit, is_whitespace, push_decimal, push_hexadecimal, read_numeral, trim_chars,
    Numeral,
};

fn read(text: &str, max: u64) -> Numeral {
    let chars: Vec<char> = text.chars().collect();
    read_numeral(&chars, 0, chars.len(), max)
}

fn trim(text: &str) -> String {
    trim_chars(&text.chars().collect()).into_iter().collect()
}

#[test]
fn digits_up_to_fifteen() {
    let all: String = (0..16).map(digit).collect();
    assert_eq!(all, "0123456789abcdef");
    assert_eq!(digit(10), "a");
}

#[test]
fn numerals_are_appended() {
    let mut text = String::from("n=");
    push_decimal(&mut text, 1203);
    text.push(' ');
    push_hexadecimal(&mut text, 0xbeef);
    text.push(' ');
    push_hexadecimal(&mut text, 0);
    text.push(' ');
    push_hexadecimal(&mut text, 0x0a0);
    text.push(' ');
    push_decimal(&mut text, 0);
    assert_eq!(text, "n=1203 beef 0 a0 0");
}

#[test]
fn characters_of_a_string() {
    assert_eq!(chars_of(""), Vec::<char>::new());
    assert_eq!(chars_of("a,b"), vec!['a', ',', 'b']);
    assert_eq!(chars_of("é٣\u{3000}"), vec!['é', '٣', '\u{3000}']);
}

#[test]
fn white_space_is_what_trimming_removes() {
    for c in ['\t', '\n', '\u{b}', '\u{c}', '\r', ' ', '\u{85}', '\u{a0}', '\u{1680}', '\u{2000}',
        '\u{200a}', '\u{2028}', '\u{2029}', '\u{202f}', '\u{205f}', '\u{3000}']
    {
        assert!(is_whitespace(c), "{:x}", c as u32);
        assert!(c.is_whitespace());
    }
    for c in ['a', '0', ',', '\u{8}', '\u{e}', '\u{1f}', '\u{200b}', '\u{2060}', '\u{feff}', '\u{180e}'] {
        assert!(!is_whitespace(c), "{:x}", c as u32);
        assert!(!c.is_whitespace());
    }
    // The same characters as the standard library removes.
    for n in 0..0x3100u32 {
        if let Some(c) = char::from_u32(n) {
            assert_eq!(is_whitespace(c), c.is_whitespace(), "{n:x}");
        }
    }
}

#[test]
fn trimming() {
    assert_eq!(trim(""), "");
    assert_eq!(trim("   "), "");
    assert_eq!(trim("60"), "60");
    assert_eq!(trim("  60\t\n"), "60");
    assert_eq!(trim(" 6 0 "), "6 0");
    assert_eq!(trim("\u{a0}80,443\u{2003}"), "80,443");
    for text in ["", " a", "a ", " a b ", "\n\n", "x\u{3000}", "\u{feff} a"] {
        assert_eq!(trim(text), text.trim(), "{text:?}");
    }
}

#[test]
fn reading_numerals() {
    assert_eq!(read("0", 10), Numeral::Value(0));
    assert_eq!(read("10", 10), Numeral::Value(10));
    assert_eq!(read("11", 10), Numeral::TooLarge);
    assert_eq!(read("+7", 10), Numeral::Value(7));
    assert_eq!(read("007", 10), Numeral::Value(7));
    assert_eq!(read("18446744073709551615", u64::MAX), Numeral::Value(u64::MAX));
    assert_eq!(read("18446744073709551616", u64::MAX), Numeral::TooLarge);
    assert_eq!(read("99999999999999999999999999999999999999999999999999", u64::MAX), Numeral::TooLarge);
    for bad in ["", "+", "-1", "++1", "1+", " 1", "1 ", "0x10", "1e3", "١"] {
        assert_eq!(read(bad, u64::MAX), Numeral::Malformed, "{bad:?}");
    }
    // A numeral that is too large and ends badly is no numeral.
    assert_eq!(read("99999999999999999999999x", 10), Numeral::Malformed);
}

#[test]
fn reading_a_part_of_the_text() {
    let chars: Vec<char> = "80,443,x".chars().collect();
    assert_eq!(read_numeral(&chars, 0, 2, 65535), Numeral::Value(80));
    assert_eq!(read_numeral(&chars, 3, 6, 65535), Numeral::Value(443));
    assert_eq!(read_numeral(&chars, 3, 6, 442), Numeral::TooLarge);
    assert_eq!(read_numeral(&chars, 2, 6, 65535), Numeral::Malformed);
    assert_eq!(read_numeral(&chars, 7, 8, 65535), Numeral::Malformed);
    assert_eq!(read_numeral(&chars, 4, 4, 65535), Numeral::Malformed);
}

#[test]
fn reading_agrees_with_the_standard_library() {
    for text in ["0", "65535", "65536", "+1", "+", "", "12a", "-0", "00000000000000000000001"] {
        let expected = match text.parse::<u16>() {
            Ok(value) => Numeral::Value(value as u64),
            Err(err) => match err.kind() {
                std::num::IntErrorKind::PosOverflow => Numeral::TooLarge,
                _ => Numeral::Malformed,
            },
        };
        assert_eq!(read(text, u16::MAX as u64), expected, "{text:?}");
    }
}

#[test]
fn tables_and_their_protocols() {
    assert_eq!(TableId::TcpV4.l3_proto(), L3Proto::Ipv4);
    assert_eq!(TableId::UdpV4.l3_proto(), L3Proto::Ipv4);
    assert_eq!(TableId::TcpV6.l3_proto(), L3Proto::Ipv6);
    assert_eq!(TableId::UdpV6.l3_proto(), L3Proto::Ipv6);
    assert_eq!(TableId::TcpV4.l4_proto(443), L4Proto::Tcp(443));
    assert_eq!(TableId::UdpV4.l4_proto(53), L4Proto::Udp(53));
    assert_eq!(TableId::TcpV6.l4_proto(80), L4Proto::Tcp(80));
    assert_eq!(TableId::UdpV6.l4_proto(123), L4Proto::Udp(123));
}

#[test]
fn parsing_a_frame() {
    let mut frame = vec![0u8; 12];
    frame.extend_from_slice(&[0x86, 0xdd, 0x60, 0, 0, 0, 0, 8, 17, 64]);
    frame.extend_from_slice(&[0x20, 0x01, 0x0d, 0xb8, 0, 0, 0, 0, 0, 0, 0, 0, 0, 0, 0xab, 0xcd]);
    frame.extend_from_slice(&[0u8; 16]);
    frame.extend_from_slice(&[0x30, 0x39, 0x00, 0x35, 0, 8, 0, 0]);
    let key = parse_frame(&frame).unwrap().unwrap();
    assert!(key.ip.same(&IpAddr::V6([0x2001, 0xdb8, 0, 0, 0, 0, 0, 0xabcd])));
    assert_eq!(key.l4_proto, L4Proto::Udp(53));

    frame[20] = 6;
    assert_eq!(parse_frame(&frame).map(|key| key.is_some()), Err(ClassifyError::OutOfBounds));
    frame.extend_from_slice(&[0u8; 12]);
    assert_eq!(parse_frame(&frame).unwrap().unwrap().l4_proto, L4Proto::Tcp(53));
    frame[20] = 58;
    assert_eq!(
        parse_frame(&frame).map(|key| key.is_some()),
        Err(ClassifyError::UnsupportedTransport)
    );
    frame[12] = 0x08;
    frame[13] = 0x06;
    assert_eq!(parse_frame(&frame).map(|key| key.is_some()), Ok(false));
    assert_eq!(parse_frame(&[]).map(|key| key.is_some()), Err(ClassifyError::OutOfBounds));
}
