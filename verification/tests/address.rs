use service_binding::SocketAddress;
fn v6(groups: [u16; 8], port: u16, scope_id: u32) -> SocketAddress {
    match SocketAddress::v6(groups, port) {
        SocketAddress::V6 { ip, port, flowinfo, .. } => {
            SocketAddress::V6 { ip, port, flowinfo, scope_id }
        }
        other => other,
    }
}

#[test]
fn address_literals_accepted() {
    let cases = vec![
        ("127.0.0.1:8081", SocketAddress::v4([127, 0, 0, 1], 8081)),
        ("0.0.0.0:0", SocketAddress::v4([0, 0, 0, 0], 0)),
        ("255.255.255.255:65535", SocketAddress::v4([255, 255, 255, 255], 65535)),
        ("1.2.3.4:0080", SocketAddress::v4([1, 2, 3, 4], 80)),
        ("[::1]:8081", v6([0, 0, 0, 0, 0, 0, 0, 1], 8081, 0)),
        ("[::]:0", v6([0; 8], 0, 0)),
        ("[1:2:3:4:5:6:7:8]:80", v6([1, 2, 3, 4, 5, 6, 7, 8], 80, 0)),
        ("[1:2:3:4:5:6:7::]:80", v6([1, 2, 3, 4, 5, 6, 7, 0], 80, 0)),
        ("[::2:3:4:5:6:7:8]:80", v6([0, 2, 3, 4, 5, 6, 7, 8], 80, 0)),
        ("[1:2:3::5:6:7:8]:80", v6([1, 2, 3, 0, 5, 6, 7, 8], 80, 0)),
        ("[::ffff:1.2.3.4]:80", v6([0, 0, 0, 0, 0, 0xffff, 0x0102, 0x0304], 80, 0)),
        ("[::1.2.3.4]:80", v6([0, 0, 0, 0, 0, 0, 0x0102, 0x0304], 80, 0)),
        ("[1:2:3:4:5:6:1.2.3.4]:80", v6([1, 2, 3, 4, 5, 6, 0x0102, 0x0304], 80, 0)),
        ("[1:2:3:4:5::1.2.3.4]:80", v6([1, 2, 3, 4, 5, 0, 0x0102, 0x0304], 80, 0)),
        ("[a:b:c:d:e::1.2.3.4]:1", v6([10, 11, 12, 13, 14, 0, 0x0102, 0x0304], 1, 0)),
        ("[::255.255.255.255]:1", v6([0, 0, 0, 0, 0, 0, 0xffff, 0xffff], 1, 0)),
        ("[fe80::1%3]:80", v6([0xfe80, 0, 0, 0, 0, 0, 0, 1], 80, 3)),
        ("[fe80::1%03]:080", v6([0xfe80, 0, 0, 0, 0, 0, 0, 1], 80, 3)),
        ("[fe80::1%4294967295]:80", v6([0xfe80, 0, 0, 0, 0, 0, 0, 1], 80, 4294967295)),
        ("[FE80::AbCd]:80", v6([0xfe80, 0, 0, 0, 0, 0, 0, 0xabcd], 80, 0)),
        ("[0001::]:80", v6([1, 0, 0, 0, 0, 0, 0, 0], 80, 0)),
        ("[1:2:3:4:5:6:7:8%1]:1", v6([1, 2, 3, 4, 5, 6, 7, 8], 1, 1)),
    ];
    for (input, expected) in cases {
        assert_eq!(SocketAddress::parse(input), Some(expected), "{:?}", input);
    }
}

#[test]
fn address_literals_refused() {
    let inputs = [
        "256.0.0.1:80",
        "1.2.3:80",
        "1.2.3.4.5:80",
        "1.2.3.4",
        "1.2.3.4:",
        "1.2.3.4:65536",
        "1.2.3.4:+80",
        "1.2.3.4:80 ",
        " 1.2.3.4:80",
        "01.2.3.4:80",
        "1.02.3.4:80",
        "0.0.0.00:80",
        "1..3.4:80",
        "1.2.3.4:8a",
        "1234.2.3.4:80",
        "[1:2:3:4:5:6:7:8:9]:80",
        "[1:2:3:4:5:6:7]:80",
        "[1::2:3:4:5:6:7:8]:80",
        "[1:2:3:4::5:6:7:8]:80",
        "[1.2.3.4::]:80",
        "[1:2:3:4:5:6:7:1.2.3.4]:80",
        "[1:2:3:4:5:1.2.3.4]:80",
        "[1:2:3:4:5:1.2.3.4::]:80",
        "[::1.2.3.4:5]:80",
        "[fe80::1%]:80",
        "[fe80::1%4294967296]:80",
        "[fe80::1%eth0]:80",
        "[12345::]:80",
        "[00001::]:80",
        "[g::]:80",
        "[:::]:80",
        "[::1::]:80",
        "[1:::2]:80",
        "[:1]:80",
        "[1:]:80",
        "[::1]",
        "[::1]:",
        "::1:80",
        "[::1:80",
        "[]:80",
        "[:]:80",
        "",
        ":",
        "localhost:80",
        "1:2:3:4:5:6:7:8:80",
        "[::256.255.255.255]:1",
        "[::1.2.3]:1",
        "[::01.2.3.4]:1",
        "[1::1.2.3.4:5]:1",
        "[a:b:c:d:e:f:0:1.2.3.4]:1",
        "[a:b:c:d:e:f::1.2.3.4]:1",
        "[a:b:c:d:e:f:1.2.3.4::]:1",
        "é.0.0.1:80",
        "1.2.3.4:８０",
    ];
    for input in inputs {
        assert_eq!(SocketAddress::parse(input), None, "{:?}", input);
    }
}

#[test]
fn address_constructors() {
    assert_eq!(
        SocketAddress::v4([127, 0, 0, 1], 8081),
        SocketAddress::V4 { ip: 0x7f00_0001, port: 8081 }
    );
    assert_eq!(
        SocketAddress::v6([0, 0, 0, 0, 0, 0, 0, 1], 8081),
        SocketAddress::V6 { ip: 1, port: 8081, flowinfo: 0, scope_id: 0 }
    );
    assert_eq!(
        SocketAddress::v6([0xfe80, 1, 2, 3, 4, 5, 6, 0xffff], 1),
        SocketAddress::V6 {
            ip: 0xfe80_0001_0002_0003_0004_0005_0006_ffff,
            port: 1,
            flowinfo: 0,
            scope_id: 0
        }
    );
    assert_eq!(SocketAddress::v4([1, 2, 3, 4], 80).port(), 80);
    assert_eq!(SocketAddress::v6([0; 8], 443).port(), 443);
}

#[test]
fn address_parse_values() {
    assert_eq!(
        SocketAddress::parse("127.0.0.1:8081"),
        Some(SocketAddress::v4([127, 0, 0, 1], 8081))
    );
    assert_eq!(SocketAddress::parse("[::1]:8081"), Some(SocketAddress::v6([0, 0, 0, 0, 0, 0, 0, 1], 8081)));
    assert_eq!(
        SocketAddress::parse("[1:2::7:8%9]:10"),
        Some(SocketAddress::V6 {
            ip: 0x0001_0002_0000_0000_0000_0000_0007_0008,
            port: 10,
            flowinfo: 0,
            scope_id: 9
        })
    );
    assert_eq!(
        SocketAddress::parse("[::ffff:1.2.3.4]:80"),
        Some(SocketAddress::v6([0, 0, 0, 0, 0, 0xffff, 0x0102, 0x0304], 80))
    );
    assert_eq!(SocketAddress::parse("localhost:80"), None);
}

#[test]
fn address_literal_round_trip() {
    let addresses = vec![
        SocketAddress::v4([127, 0, 0, 1], 8081),
        SocketAddress::v4([0, 0, 0, 0], 0),
        SocketAddress::v4([255, 255, 255, 255], 65535),
        SocketAddress::v4([10, 100, 9, 99], 10),
        SocketAddress::v6([0, 0, 0, 0, 0, 0, 0, 1], 8081),
        SocketAddress::v6([0; 8], 0),
        SocketAddress::v6([0xffff; 8], 65535),
        SocketAddress::v6([0xfe80, 0, 0x10, 0x100, 0x1000, 0xa, 0xab, 0xabc], 443),
        SocketAddress::V6 { ip: 1, port: 1, flowinfo: 0, scope_id: 7 },
        SocketAddress::V6 { ip: u128::MAX, port: 1, flowinfo: 0, scope_id: u32::MAX },
    ];
    for address in addresses {
        assert_eq!(SocketAddress::parse(&address.literal()), Some(address));
    }
}

#[test]
fn address_literal_values() {
    assert_eq!(SocketAddress::v4([127, 0, 0, 1], 8081).literal(), "127.0.0.1:8081");
    assert_eq!(SocketAddress::v4([0, 10, 100, 255], 0).literal(), "0.10.100.255:0");
    assert_eq!(
        SocketAddress::v6([0, 0, 0, 0, 0, 0, 0, 1], 8081).literal(),
        "[0:0:0:0:0:0:0:1]:8081"
    );
    assert_eq!(
        SocketAddress::v6([0xfe80, 0, 0x10, 0x100, 0x1000, 0xa, 0xab, 0xabcd], 443).literal(),
        "[fe80:0:10:100:1000:a:ab:abcd]:443"
    );
    assert_eq!(
        SocketAddress::V6 { ip: 1, port: 80, flowinfo: 0, scope_id: 12 }.literal(),
        "[0:0:0:0:0:0:0:1%12]:80"
    );
}
