use snowflake_proxy::net::{parse_ip_address, parse_socket_address, IpAddress, SocketAddress};

fn v6(s: [u16; 8]) -> Option<IpAddress> {
    Some(IpAddress::V6(s))
}

#[test]
fn parses_ipv4() {
    assert_eq!(parse_ip_address("192.168.1.1"), Some(IpAddress::V4([192, 168, 1, 1])));
    assert_eq!(parse_ip_address("0.0.0.0"), Some(IpAddress::V4([0, 0, 0, 0])));
    assert_eq!(parse_ip_address("255.255.255.255"), Some(IpAddress::V4([255; 4])));
    assert_eq!(parse_ip_address("256.1.1.1"), None);
    assert_eq!(parse_ip_address("01.2.3.4"), None);
    assert_eq!(parse_ip_address("1.2.3"), None);
    assert_eq!(parse_ip_address("1.2.3.4.5"), None);
    assert_eq!(parse_ip_address("1.2.3.4 "), None);
    assert_eq!(parse_ip_address("1..3.4"), None);
    assert_eq!(parse_ip_address("1.2.3.0004"), None);
    assert_eq!(parse_ip_address(""), None);
    assert_eq!(parse_ip_address("a.b.c.d"), None);
}

#[test]
fn parses_ipv6() {
    assert_eq!(parse_ip_address("::"), v6([0; 8]));
    assert_eq!(parse_ip_address("::1"), v6([0, 0, 0, 0, 0, 0, 0, 1]));
    assert_eq!(parse_ip_address("1::"), v6([1, 0, 0, 0, 0, 0, 0, 0]));
    assert_eq!(parse_ip_address("fe80::1:2"), v6([0xfe80, 0, 0, 0, 0, 0, 1, 2]));
    assert_eq!(parse_ip_address("1:2:3:4:5:6:7:8"), v6([1, 2, 3, 4, 5, 6, 7, 8]));
    assert_eq!(parse_ip_address("1:2:3:4:5:6:7::"), v6([1, 2, 3, 4, 5, 6, 7, 0]));
    assert_eq!(parse_ip_address("::2:3:4:5:6:7:8"), v6([0, 2, 3, 4, 5, 6, 7, 8]));
    assert_eq!(parse_ip_address("FFFF:abcd::0001"), v6([0xffff, 0xabcd, 0, 0, 0, 0, 0, 1]));
    assert_eq!(
        parse_ip_address("::ffff:192.168.1.2"),
        v6([0, 0, 0, 0, 0, 0xffff, 0xc0a8, 0x0102])
    );
    assert_eq!(parse_ip_address("1:2:3:4:5:6:1.2.3.4"), v6([1, 2, 3, 4, 5, 6, 0x0102, 0x0304]));
    assert_eq!(parse_ip_address("1:2:3:4:5::1.2.3.4"), v6([1, 2, 3, 4, 5, 0, 0x0102, 0x0304]));
    assert_eq!(parse_ip_address("1:2::3:4.5.6.7"), v6([1, 2, 0, 0, 0, 3, 0x0405, 0x0607]));
    assert_eq!(parse_ip_address("0:0:0:0:0:0:0:0"), v6([0; 8]));
    assert_eq!(parse_ip_address("0000:0:0:0:0:0:0:000f"), v6([0, 0, 0, 0, 0, 0, 0, 15]));
}

#[test]
fn refuses_bad_ipv6() {
    for s in [
        ":::",
        "1:::2",
        "1::2::3",
        "12345::",
        "1:2:3:4:5:6:7:8:9",
        "1:2:3:4:5:6:7",
        "1::2:3:4:5:6:7:8",
        "1:2:3:4:5:6:7:8::",
        "1:2:3:4:5:6::1.2.3.4",
        "1:2:3:4:5:1.2.3.4",
        "::1.2.3.4:5",
        "1.2.3.4::",
        ":1::",
        "::1%3",
        "g::",
        "::1 ",
        "00000::",
        "::0001.2.3.4",
        "::1.2.3.256",
        "::ffff:01.2.3.4",
        "::%",
        "+1.2.3.4",
        "1:2:3:4:5:6:7:1.2.3.4",
        "[::1]",
    ] {
        assert_eq!(parse_ip_address(s), None, "{}", s);
    }
}

#[test]
fn parses_socket_addresses() {
    assert_eq!(
        parse_socket_address("127.0.0.1:9000"),
        Some(SocketAddress::V4 { ip: [127, 0, 0, 1], port: 9000 })
    );
    assert_eq!(
        parse_socket_address("1.2.3.4:0065535"),
        Some(SocketAddress::V4 { ip: [1, 2, 3, 4], port: 65535 })
    );
    assert_eq!(
        parse_socket_address("[::1]:80"),
        Some(SocketAddress::V6 { ip: [0, 0, 0, 0, 0, 0, 0, 1], port: 80, scope_id: 0 })
    );
    assert_eq!(
        parse_socket_address("[fe80::1%2]:443"),
        Some(SocketAddress::V6 { ip: [0xfe80, 0, 0, 0, 0, 0, 0, 1], port: 443, scope_id: 2 })
    );
    assert_eq!(
        parse_socket_address("[fe80::1%4294967295]:1"),
        Some(SocketAddress::V6 { ip: [0xfe80, 0, 0, 0, 0, 0, 0, 1], port: 1, scope_id: u32::MAX })
    );
    assert_eq!(
        parse_socket_address("[::ffff:1.2.3.4]:7"),
        Some(SocketAddress::V6 { ip: [0, 0, 0, 0, 0, 0xffff, 0x0102, 0x0304], port: 7, scope_id: 0 })
    );
    assert_eq!(
        parse_socket_address("0.0.0.0:0"),
        Some(SocketAddress::V4 { ip: [0, 0, 0, 0], port: 0 })
    );
    for s in [
        "127.0.0.1",
        "127.0.0.1:",
        "1.2.3.4:65536",
        "[::1]",
        "[::1]80",
        "::1:80",
        "[::1%]:80",
        "[::1%x]:80",
        "[1.2.3.4]:80",
        "1.2.3.4:+80",
        "[fe80::1%4294967296]:1",
        "[::1]:",
        "1.2.3.4:5:6",
        "[::1]:8]:9",
        "[[::1]]:80",
    ] {
        assert_eq!(parse_socket_address(s), None, "{}", s);
    }
}
