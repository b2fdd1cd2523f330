use dak::ip::IpAddress;

#[test]
fn parses_ipv4_dotted_quads() {
    assert_eq!(IpAddress::parse("127.0.0.1"), Some(IpAddress::V4(127, 0, 0, 1)));
    assert_eq!(IpAddress::parse("0.0.0.0"), Some(IpAddress::V4(0, 0, 0, 0)));
    assert_eq!(
        IpAddress::parse("255.255.255.255"),
        Some(IpAddress::V4(255, 255, 255, 255))
    );
    assert_eq!(IpAddress::parse("192.168.1.42"), Some(IpAddress::V4(192, 168, 1, 42)));
}

#[test]
fn rejects_malformed_ipv4() {
    assert_eq!(IpAddress::parse(""), None);
    assert_eq!(IpAddress::parse("1.2.3"), None);
    assert_eq!(IpAddress::parse("1.2.3.4.5"), None);
    assert_eq!(IpAddress::parse("256.0.0.1"), None);
    assert_eq!(IpAddress::parse("1..2.3"), None);
    assert_eq!(IpAddress::parse("01.2.3.4"), None);
    assert_eq!(IpAddress::parse("1.2.3.4 "), None);
    assert_eq!(IpAddress::parse(" 1.2.3.4"), None);
    assert_eq!(IpAddress::parse("1.2.3.-4"), None);
    assert_eq!(IpAddress::parse("a.b.c.d"), None);
    assert_eq!(IpAddress::parse("1.2.3.1000"), None);
    assert_eq!(IpAddress::parse("localhost"), None);
}

#[test]
fn parses_full_ipv6() {
    assert_eq!(
        IpAddress::parse("1:2:3:4:5:6:7:8"),
        Some(IpAddress::V6(1, 2, 3, 4, 5, 6, 7, 8))
    );
    assert_eq!(
        IpAddress::parse("0:0:0:0:0:0:0:1"),
        Some(IpAddress::V6(0, 0, 0, 0, 0, 0, 0, 1))
    );
    assert_eq!(
        IpAddress::parse("fedc:ba98:7654:3210:FEDC:BA98:7654:3210"),
        Some(IpAddress::V6(0xfedc, 0xba98, 0x7654, 0x3210, 0xfedc, 0xba98, 0x7654, 0x3210))
    );
}

#[test]
fn parses_compressed_ipv6() {
    assert_eq!(IpAddress::parse("::"), Some(IpAddress::V6(0, 0, 0, 0, 0, 0, 0, 0)));
    assert_eq!(IpAddress::parse("::1"), Some(IpAddress::V6(0, 0, 0, 0, 0, 0, 0, 1)));
    assert_eq!(IpAddress::parse("1::"), Some(IpAddress::V6(1, 0, 0, 0, 0, 0, 0, 0)));
    assert_eq!(
        IpAddress::parse("2001:db8::8a2e:370:7334"),
        Some(IpAddress::V6(0x2001, 0xdb8, 0, 0, 0, 0x8a2e, 0x370, 0x7334))
    );
    assert_eq!(
        IpAddress::parse("1:2:3:4:5:6:7::"),
        Some(IpAddress::V6(1, 2, 3, 4, 5, 6, 7, 0))
    );
    assert_eq!(
        IpAddress::parse("::1:2:3:4:5:6:7"),
        Some(IpAddress::V6(0, 1, 2, 3, 4, 5, 6, 7))
    );
    assert_eq!(IpAddress::parse("a::f"), Some(IpAddress::V6(0xa, 0, 0, 0, 0, 0, 0, 0xf)));
}

#[test]
fn rejects_malformed_ipv6() {
    assert_eq!(IpAddress::parse(":"), None);
    assert_eq!(IpAddress::parse(":::"), None);
    assert_eq!(IpAddress::parse("1::2::3"), None);
    assert_eq!(IpAddress::parse(":1:2:3:4:5:6:7"), None);
    assert_eq!(IpAddress::parse("1:2:3:4:5:6:7"), None);
    assert_eq!(IpAddress::parse("1:2:3:4:5:6:7:8:9"), None);
    assert_eq!(IpAddress::parse("1:2:3:4:5:6:7:8::"), None);
    assert_eq!(IpAddress::parse("::1:2:3:4:5:6:7:8"), None);
    assert_eq!(IpAddress::parse("12345::"), None);
    assert_eq!(IpAddress::parse("g::1"), None);
    assert_eq!(IpAddress::parse("1:"), None);
    assert_eq!(IpAddress::parse("fe80::1%eth0"), None);
}

#[test]
fn parses_ipv6_with_embedded_dotted_quad() {
    assert_eq!(
        IpAddress::parse("::ffff:192.0.2.1"),
        Some(IpAddress::V6(0, 0, 0, 0, 0, 0xffff, 0xc000, 0x0201))
    );
    assert_eq!(
        IpAddress::parse("::127.0.0.1"),
        Some(IpAddress::V6(0, 0, 0, 0, 0, 0, 0x7f00, 0x0001))
    );
    assert_eq!(
        IpAddress::parse("1:2:3:4:5:6:1.2.3.4"),
        Some(IpAddress::V6(1, 2, 3, 4, 5, 6, 0x0102, 0x0304))
    );
    assert_eq!(
        IpAddress::parse("64:ff9b::192.0.2.33"),
        Some(IpAddress::V6(0x64, 0xff9b, 0, 0, 0, 0, 0xc000, 0x0221))
    );
    assert_eq!(
        IpAddress::parse("1::255.255.255.255"),
        Some(IpAddress::V6(1, 0, 0, 0, 0, 0, 0xffff, 0xffff))
    );
}

#[test]
fn rejects_malformed_embedded_dotted_quad() {
    assert_eq!(IpAddress::parse("1.2.3.4::"), None);
    assert_eq!(IpAddress::parse("::1.2.3.4.5"), None);
    assert_eq!(IpAddress::parse("::1.2.3.400"), None);
    assert_eq!(IpAddress::parse("::1.2.3.4:5"), None);
    assert_eq!(IpAddress::parse("1:2:3:4:5:6:7:1.2.3.4"), None);
    assert_eq!(IpAddress::parse("1:2:3:4:5:6:7::1.2.3.4"), None);
    assert_eq!(IpAddress::parse("1.2.3.4:80"), None);
}

#[test]
fn hex_case_is_insensitive_in_groups() {
    assert_eq!(IpAddress::parse("AbCd::"), IpAddress::parse("abcd::"));
    assert_eq!(IpAddress::parse("FF::"), Some(IpAddress::V6(0xff, 0, 0, 0, 0, 0, 0, 0)));
}
