use snowflake_proxy::net::SocketAddress;
use snowflake_proxy::pt::{server_setup, smethod_line};

#[test]
fn server_setup_requires_variables_in_order() {
    assert_eq!(
        server_setup(None, None, None, None).unwrap_err(),
        "TOR_PT_MANAGED_TRANSPORT_VER not set"
    );
    assert_eq!(
        server_setup(Some("1"), None, Some("x"), None).unwrap_err(),
        "TOR_PT_SERVER_TRANSPORTS not set"
    );
    assert_eq!(
        server_setup(Some("1"), Some("snowflake"), None, None).unwrap_err(),
        "TOR_PT_SERVER_BINDADDRS not set"
    );
}

#[test]
fn server_setup_reads_bindaddrs() {
    let info = server_setup(
        Some("1"),
        Some("snowflake,obfs4"),
        Some("snowflake-127.0.0.1:8080,meek-0.0.0.0:1,obfs4-[::1]:9,bad,snowflake-nohost:1,a-b-c"),
        Some("127.0.0.1:9001"),
    )
    .unwrap();
    assert_eq!(info.bindaddrs.len(), 2);
    assert_eq!(info.bindaddrs[0].method_name, "snowflake");
    assert_eq!(info.bindaddrs[0].addr, SocketAddress::V4 { ip: [127, 0, 0, 1], port: 8080 });
    assert_eq!(info.bindaddrs[1].method_name, "obfs4");
    assert_eq!(
        info.bindaddrs[1].addr,
        SocketAddress::V6 { ip: [0, 0, 0, 0, 0, 0, 0, 1], port: 9, scope_id: 0 }
    );
    assert_eq!(info.or_port, Some(SocketAddress::V4 { ip: [127, 0, 0, 1], port: 9001 }));
}

#[test]
fn server_setup_method_is_a_substring_match() {
    let info = server_setup(Some("1"), Some("snowflake"), Some("flake-1.2.3.4:5,-1.2.3.4:6"), Some("junk"))
        .unwrap();
    assert_eq!(info.bindaddrs.len(), 2);
    assert_eq!(info.bindaddrs[0].method_name, "flake");
    assert_eq!(info.bindaddrs[1].method_name, "");
    assert_eq!(info.or_port, None);
}

#[test]
fn smethod_lines() {
    let v4 = SocketAddress::V4 { ip: [127, 0, 0, 1], port: 8080 };
    assert_eq!(smethod_line("snowflake", v4), "SMETHOD snowflake 127.0.0.1:8080");
    let cases: [([u16; 8], u16, u32, &str); 11] = [
        ([0, 0, 0, 0, 0, 0, 0, 1], 80, 0, "[::1]:80"),
        ([0; 8], 0, 0, "[::]:0"),
        ([0xfe80, 0, 0, 0, 0, 0, 0, 1], 443, 2, "[fe80::1%2]:443"),
        ([1, 0, 0, 2, 0, 0, 0, 3], 9, 0, "[1:0:0:2::3]:9"),
        ([1, 0, 0, 1, 0, 0, 1, 1], 9, 0, "[1::1:0:0:1:1]:9"),
        ([0, 1, 0, 1, 0, 1, 0, 1], 9, 0, "[0:1:0:1:0:1:0:1]:9"),
        ([1, 0, 0, 0, 0, 0, 0, 0], 1, 0, "[1::]:1"),
        ([0, 0, 0, 0, 0, 0xffff, 0x0102, 0x0304], 7, 0, "[::ffff:1.2.3.4]:7"),
        ([0xabcd, 0xef01, 0, 0, 0, 0, 0, 0], 65535, 4294967295, "[abcd:ef01::%4294967295]:65535"),
        ([0x2001, 0xdb8, 0, 0, 8, 0x800, 0x200c, 0x417a], 1, 0, "[2001:db8::8:800:200c:417a]:1"),
        ([1, 2, 3, 4, 5, 6, 7, 8], 10, 0, "[1:2:3:4:5:6:7:8]:10"),
    ];
    for (ip, port, scope_id, text) in cases {
        let a = SocketAddress::V6 { ip, port, scope_id };
        assert_eq!(smethod_line("m", a), format!("SMETHOD m {}", text));
    }
    assert_eq!(
        smethod_line("x", SocketAddress::V4 { ip: [0, 10, 200, 255], port: 0 }),
        "SMETHOD x 0.10.200.255:0"
    );
}
