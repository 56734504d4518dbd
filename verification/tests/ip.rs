use rustscan::ip::{literal_from, parse_ip, Inet, IpAddress, Network};

#[test]
fn octets_spell_the_number() {
    assert_eq!(IpAddress::v4(192, 168, 1, 2), IpAddress::V4(0xc0a8_0102));
    assert_eq!(IpAddress::v4(0, 0, 0, 0), IpAddress::V4(0));
    assert_eq!(IpAddress::v4(255, 255, 255, 255), IpAddress::V4(u32::MAX));
    assert_eq!(IpAddress::v4(1, 2, 3, 4).number(), 0x0102_0304);
    assert_eq!(IpAddress::V6(u128::MAX).number(), u128::MAX);
    assert_eq!(IpAddress::V4(0).width(), 32);
    assert_eq!(IpAddress::V6(0).width(), 128);
}

#[test]
fn strict_literals() {
    assert_eq!(parse_ip("127.0.0.1"), Some(IpAddress::v4(127, 0, 0, 1)));
    assert_eq!(parse_ip("::ffff:1.2.3.4"), Some(IpAddress::V6(0xffff_0102_0304)));
    assert_eq!(parse_ip("fe80::1"), Some(IpAddress::V6(0xfe80 << 112 | 1)));
    assert_eq!(parse_ip("127.0.0.1/32"), None);
    assert_eq!(parse_ip("127.0.0"), None);
    assert_eq!(parse_ip("10"), None);
    assert_eq!(parse_ip("300.10.1.1"), None);
    assert_eq!(parse_ip("01.2.3.4"), None);
    assert_eq!(parse_ip(" 1.2.3.4"), None);
    assert_eq!(parse_ip(""), None);
    assert_eq!(parse_ip("im_wrong"), None);
}

#[test]
fn network_of_a_host() {
    let inet = Inet::new(IpAddress::v4(10, 20, 30, 40), 12).unwrap();
    assert_eq!(inet.network(), Network { first: IpAddress::v4(10, 16, 0, 0), prefix: 12 });
    let whole = Inet::new(IpAddress::v4(10, 20, 30, 40), 0).unwrap();
    assert_eq!(whole.network(), Network { first: IpAddress::v4(0, 0, 0, 0), prefix: 0 });
    let host = Inet::new(IpAddress::v4(10, 20, 30, 40), 32).unwrap();
    assert_eq!(host.network(), Network { first: IpAddress::v4(10, 20, 30, 40), prefix: 32 });
    let six = Inet::new(IpAddress::V6(u128::MAX), 0).unwrap();
    assert_eq!(six.network(), Network { first: IpAddress::V6(0), prefix: 0 });
    let six = Inet::new(IpAddress::V6(u128::MAX), 127).unwrap();
    assert_eq!(six.network(), Network { first: IpAddress::V6(u128::MAX - 1), prefix: 127 });
    let long = Inet { address: IpAddress::v4(10, 20, 30, 40), prefix: 40 };
    assert_eq!(long.network(), Network { first: IpAddress::v4(10, 20, 30, 40), prefix: 40 });
    assert_eq!(Inet::new(IpAddress::V4(0), 33), None);
    assert_eq!(Inet::new(IpAddress::V6(0), 129), None);
}

#[test]
fn network_new_checks_alignment() {
    assert!(Network::new(IpAddress::v4(10, 0, 0, 0), 8).is_some());
    assert!(Network::new(IpAddress::v4(10, 0, 0, 1), 8).is_none());
    assert!(Network::new(IpAddress::v4(10, 0, 0, 1), 32).is_some());
    assert!(Network::new(IpAddress::v4(10, 0, 0, 0), 33).is_none());
    assert!(Network::new(IpAddress::V6(0), 0).is_some());
    assert!(Network::new(IpAddress::V6(1), 0).is_none());
    assert!(Network::new(IpAddress::V4(0), 0).is_some());
    assert!(Network::new(IpAddress::V4(0x8000_0000), 1).is_some());
    assert!(Network::new(IpAddress::V4(0x4000_0000), 1).is_none());
}

#[test]
fn contains_is_by_family_and_range() {
    let net = Network::new(IpAddress::v4(192, 168, 0, 0), 30).unwrap();
    assert!(net.contains(&IpAddress::v4(192, 168, 0, 0)));
    assert!(net.contains(&IpAddress::v4(192, 168, 0, 3)));
    assert!(!net.contains(&IpAddress::v4(192, 168, 0, 4)));
    assert!(!net.contains(&IpAddress::v4(192, 167, 255, 255)));
    assert!(!net.contains(&IpAddress::V6(0xc0a8_0000)));
    let all = Network::new(IpAddress::V6(0), 0).unwrap();
    assert!(all.contains(&IpAddress::V6(0)));
    assert!(all.contains(&IpAddress::V6(u128::MAX)));
    assert!(!all.contains(&IpAddress::V4(0)));
    let host = Network::host(IpAddress::V6(5));
    assert!(host.contains(&IpAddress::V6(5)));
    assert!(!host.contains(&IpAddress::V6(4)));
    assert!(!host.contains(&IpAddress::V6(6)));
}

#[test]
fn addresses_of_a_block() {
    let net = Network::new(IpAddress::v4(10, 0, 0, 252), 30).unwrap();
    assert_eq!(
        net.addresses(),
        [
            IpAddress::v4(10, 0, 0, 252),
            IpAddress::v4(10, 0, 0, 253),
            IpAddress::v4(10, 0, 0, 254),
            IpAddress::v4(10, 0, 0, 255),
        ]
    );
    let top = Network::new(IpAddress::V4(u32::MAX - 1), 31).unwrap();
    assert_eq!(top.addresses(), [IpAddress::V4(u32::MAX - 1), IpAddress::V4(u32::MAX)]);
    let top6 = Network::new(IpAddress::V6(u128::MAX - 1), 127).unwrap();
    assert_eq!(top6.addresses(), [IpAddress::V6(u128::MAX - 1), IpAddress::V6(u128::MAX)]);
    assert_eq!(Network::host(IpAddress::V4(7)).addresses(), [IpAddress::V4(7)]);
}

#[test]
fn strict_literals_by_the_dozen() {
    let refused = [
        "256.0.0.0", "1.2.3", "1.2.3.4.5", "1.2.3.4 ", "1..3.4", "+1.2.3.4", "1.2.3.04",
        "0x1.2.3.4", "1:2:3:4:5:6:7:8:9", "fe80::1%eth0", "[::1]", "::g", "12345::",
        "1.2.3.4/32", "::1/128", "/", "", "localhost", "::1.2.3", "1::2::3",
    ];
    for text in refused {
        assert_eq!(parse_ip(text), None, "{text:?}");
    }
    let accepted = [
        ("0.0.0.0", IpAddress::V4(0)),
        ("255.255.255.255", IpAddress::V4(u32::MAX)),
        ("::", IpAddress::V6(0)),
        ("::1", IpAddress::V6(1)),
        ("1::", IpAddress::V6(1 << 112)),
        ("1:2:3:4:5:6:7:8", IpAddress::V6(0x0001_0002_0003_0004_0005_0006_0007_0008)),
        ("1:2:3:4:5:6:7::", IpAddress::V6(0x0001_0002_0003_0004_0005_0006_0007_0000)),
        ("::ffff:1.2.3.4", IpAddress::V6(0xffff_0102_0304)),
        ("1:2:3:4:5:6:1.2.3.4", IpAddress::V6(0x0001_0002_0003_0004_0005_0006_0102_0304)),
        ("0:0:0:0:0:0:0:0", IpAddress::V6(0)),
        ("FFFF::ffff", IpAddress::V6(0xffff << 112 | 0xffff)),
    ];
    for (text, ip) in accepted {
        assert_eq!(parse_ip(text), Some(ip), "{text:?}");
    }
}

#[test]
fn literal_from_what_the_strict_reader_made() {
    let host = Inet { address: IpAddress::v4(1, 2, 3, 4), prefix: 32 };
    assert_eq!(literal_from("1.2.3.4", Some(host)), Some(IpAddress::v4(1, 2, 3, 4)));
    assert_eq!(literal_from("1.2.3.4/32", Some(host)), None);
    assert_eq!(literal_from("1.2.3.4", None), None);
    assert_eq!(literal_from("/", None), None);
}
