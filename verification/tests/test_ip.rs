use netsand::ip::IpAddress;

fn v4(a: u32, b: u32, c: u32, d: u32) -> Option<IpAddress> {
    Some(IpAddress::V4((a << 24) | (b << 16) | (c << 8) | d))
}

fn v6(g: [u16; 8]) -> Option<IpAddress> {
    let mut v: u128 = 0;
    for x in g {
        v = (v << 16) | x as u128;
    }
    Some(IpAddress::V6(v))
}

#[test]
fn ipv4_forms() {
    assert_eq!(IpAddress::parse("52.84.123.45"), v4(52, 84, 123, 45));
    assert_eq!(IpAddress::parse("0.0.0.0"), v4(0, 0, 0, 0));
    assert_eq!(IpAddress::parse("255.255.255.255"), v4(255, 255, 255, 255));
    assert_eq!(IpAddress::parse("256.1.1.1"), None);
    assert_eq!(IpAddress::parse("01.1.1.1"), None);
    assert_eq!(IpAddress::parse("1.1.1"), None);
    assert_eq!(IpAddress::parse("1.1.1.1."), None);
    assert_eq!(IpAddress::parse("1.1.1.1.1"), None);
    assert_eq!(IpAddress::parse("1..1.1"), None);
    assert_eq!(IpAddress::parse(" 1.1.1.1"), None);
    assert_eq!(IpAddress::parse("1.1.1.1x"), None);
    assert_eq!(IpAddress::parse(""), None);
    assert_eq!(IpAddress::parse("localhost"), None);
}

#[test]
fn ipv6_forms() {
    assert_eq!(IpAddress::parse("::1"), v6([0, 0, 0, 0, 0, 0, 0, 1]));
    assert_eq!(IpAddress::parse("::"), v6([0; 8]));
    assert_eq!(IpAddress::parse("1::"), v6([1, 0, 0, 0, 0, 0, 0, 0]));
    assert_eq!(IpAddress::parse("1:2:3:4:5:6:7:8"), v6([1, 2, 3, 4, 5, 6, 7, 8]));
    assert_eq!(IpAddress::parse("1:2:3:4:5:6:7::"), v6([1, 2, 3, 4, 5, 6, 7, 0]));
    assert_eq!(IpAddress::parse("::2:3:4:5:6:7:8"), v6([0, 2, 3, 4, 5, 6, 7, 8]));
    assert_eq!(IpAddress::parse("FFFF::abcd"), v6([0xffff, 0, 0, 0, 0, 0, 0, 0xabcd]));
    assert_eq!(IpAddress::parse("::ffff:1.2.3.4"), v6([0, 0, 0, 0, 0, 0xffff, 0x0102, 0x0304]));
    assert_eq!(IpAddress::parse("1:2:3:4:5:6:1.2.3.4"), v6([1, 2, 3, 4, 5, 6, 0x0102, 0x0304]));
    assert_eq!(IpAddress::parse("1:2:3:4:5:6:7:8:9"), None);
    assert_eq!(IpAddress::parse("1::2::3"), None);
    assert_eq!(IpAddress::parse(":::"), None);
    assert_eq!(IpAddress::parse("1:::2"), None);
    assert_eq!(IpAddress::parse(":1::"), None);
    assert_eq!(IpAddress::parse("12345::"), None);
    assert_eq!(IpAddress::parse("1::2:3:4:5:6:7:8"), None);
    assert_eq!(IpAddress::parse("1:2:3:4:5:6:7:8::"), None);
    assert_eq!(IpAddress::parse("1.2.3.4::"), None);
    assert_eq!(IpAddress::parse("1:2:3:4:5:1.2.3.4:6"), None);
    assert_eq!(IpAddress::parse("1:2:3:4:5:6:7:1.2.3.4"), None);
    assert_eq!(IpAddress::parse("[::1]"), None);
    assert_eq!(IpAddress::parse("g::"), None);
}

#[test]
fn v4_and_v6_differ() {
    assert_ne!(IpAddress::parse("1.2.3.4"), IpAddress::parse("::ffff:1.2.3.4"));
}

#[test]
fn dotted_decimal_reads_back() {
    for a in [0u32, 1, 9, 10, 99, 100, 199, 255] {
        for b in [0u32, 7, 64, 255] {
            let text = format!("{}.{}.{}.{}", a, b, 255 - b, a);
            let value = (a << 24) | (b << 16) | ((255 - b) << 8) | a;
            assert_eq!(IpAddress::parse(&text), Some(IpAddress::V4(value)), "{}", text);
        }
    }
}
