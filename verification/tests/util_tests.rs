use snowflake_proxy::util::strip_padding;
use snowflake_proxy::net::IpAddress;
use snowflake_proxy::util::{
    gen_session_id, is_local, is_loopback, is_unspecified, session_id_from_bytes,
    strip_local_addresses,
};

#[test]
fn test_is_local() {
    assert!(is_local(IpAddress::V4([192, 168, 1, 1])));
    assert!(is_local(IpAddress::V4([10, 0, 0, 1])));
    assert!(!is_local(IpAddress::V4([8, 8, 8, 8])));
}

#[test]
fn test_strip_local_addresses() {
    let sdp = "v=0\r\na=candidate:1 1 UDP 2130706431 192.168.1.1 12345 typ host\r\na=candidate:2 1 UDP 2130706431 8.8.8.8 12345 typ host\r\n";
    let stripped = strip_local_addresses(sdp);
    assert!(!stripped.contains("192.168.1.1"));
    assert!(stripped.contains("8.8.8.8"));
}

#[test]
fn is_local_ranges() {
    assert!(is_local(IpAddress::V4([172, 16, 0, 1])));
    assert!(is_local(IpAddress::V4([172, 31, 255, 255])));
    assert!(!is_local(IpAddress::V4([172, 32, 0, 1])));
    assert!(!is_local(IpAddress::V4([172, 15, 0, 1])));
    assert!(is_local(IpAddress::V4([100, 64, 0, 1])));
    assert!(is_local(IpAddress::V4([100, 127, 0, 1])));
    assert!(!is_local(IpAddress::V4([100, 128, 0, 1])));
    assert!(is_local(IpAddress::V4([169, 254, 3, 4])));
    assert!(!is_local(IpAddress::V4([169, 253, 3, 4])));
    assert!(!is_local(IpAddress::V4([192, 169, 1, 1])));
    assert!(is_local(IpAddress::V6([0xfc00, 0, 0, 0, 0, 0, 0, 1])));
    assert!(is_local(IpAddress::V6([0xfdff, 0, 0, 0, 0, 0, 0, 1])));
    assert!(!is_local(IpAddress::V6([0xfe80, 0, 0, 0, 0, 0, 0, 1])));
    assert!(!is_local(IpAddress::V6([0, 0, 0, 0, 0, 0, 0, 1])));
}

#[test]
fn unspecified_and_loopback() {
    assert!(is_unspecified(IpAddress::V4([0, 0, 0, 0])));
    assert!(!is_unspecified(IpAddress::V4([0, 0, 0, 1])));
    assert!(is_unspecified(IpAddress::V6([0; 8])));
    assert!(!is_unspecified(IpAddress::V6([0, 0, 0, 0, 0, 0, 0, 1])));
    assert!(is_loopback(IpAddress::V4([127, 0, 0, 1])));
    assert!(is_loopback(IpAddress::V4([127, 9, 9, 9])));
    assert!(!is_loopback(IpAddress::V4([128, 0, 0, 1])));
    assert!(is_loopback(IpAddress::V6([0, 0, 0, 0, 0, 0, 0, 1])));
    assert!(!is_loopback(IpAddress::V6([0, 0, 0, 0, 0, 0, 0, 2])));
    assert!(!is_loopback(IpAddress::V6([0, 0, 0, 0, 0, 0xffff, 0x7f00, 1])));
}

#[test]
fn strip_exact_output() {
    let sdp = "v=0\r\na=candidate:1 1 UDP 2130706431 192.168.1.1 12345 typ host\r\na=candidate:2 1 UDP 2130706431 8.8.8.8 12345 typ host\r\n";
    assert_eq!(
        strip_local_addresses(sdp),
        "v=0\r\na=candidate:2 1 UDP 2130706431 8.8.8.8 12345 typ host\r\n"
    );
}

#[test]
fn strip_removes_loopback_unspecified_and_ipv6_local() {
    let sdp = "a=candidate:1 1 udp 1 127.0.0.1 1 typ host\n\
               a=candidate:2 1 udp 1 0.0.0.0 1 typ host\n\
               a=candidate:3 1 udp 1 ::1 1 typ host\n\
               a=candidate:4 1 udp 1 fd00::5 1 typ host\n\
               a=candidate:5 1 udp 1 :: 1 typ host\n\
               a=candidate:6 1 udp 1 2001:db8::1 1 typ host\n";
    assert_eq!(
        strip_local_addresses(sdp),
        "a=candidate:6 1 udp 1 2001:db8::1 1 typ host\r\n"
    );
}

#[test]
fn strip_keeps_non_host_and_short_and_unparsable_lines() {
    let sdp = "a=candidate:1 1 udp 1 192.168.0.2 1 typ srflx\r\n\
               a=candidate:2 1 udp 1 10.0.0.1 1 typ\r\n\
               a=candidate:3 1 udp 1 host.local 1 typ host\r\n\
               x=candidate:4 1 udp 1 10.0.0.1 1 typ host";
    assert_eq!(
        strip_local_addresses(sdp),
        "a=candidate:1 1 udp 1 192.168.0.2 1 typ srflx\r\n\
         a=candidate:2 1 udp 1 10.0.0.1 1 typ\r\n\
         a=candidate:3 1 udp 1 host.local 1 typ host\r\n\
         x=candidate:4 1 udp 1 10.0.0.1 1 typ host\r\n"
    );
}

#[test]
fn strip_splits_on_any_whitespace() {
    let sdp = "a=candidate:1\t1  udp 1\u{a0}10.1.2.3 1 typ   host  \r\n";
    assert_eq!(strip_local_addresses(sdp), "\r\n");
}

#[test]
fn strip_line_endings() {
    assert_eq!(strip_local_addresses(""), "\r\n");
    assert_eq!(strip_local_addresses("\n"), "\r\n");
    assert_eq!(strip_local_addresses("a\nb"), "a\r\nb\r\n");
    assert_eq!(strip_local_addresses("a\r\n\r\nb\r"), "a\r\n\r\nb\r\r\n");
    assert_eq!(strip_local_addresses("a\r\r\n"), "a\r\r\n");
}

#[test]
fn strip_is_idempotent_on_example() {
    let sdp = "v=0\na=candidate:1 1 UDP 2 10.0.0.1 5 typ host\nx\r\n";
    let once = strip_local_addresses(sdp);
    assert_eq!(once, "v=0\r\nx\r\n");
    assert_eq!(strip_local_addresses(&once), once);
}

#[test]
fn session_id_of_known_bytes() {
    assert_eq!(session_id_from_bytes(&[0u8; 16]), "AAAAAAAAAAAAAAAAAAAAAA");
    assert_eq!(session_id_from_bytes(&[0xffu8; 16]), "/////////////////////w");
    let bytes: [u8; 16] = [
        0xfb, 0xff, 0xbf, 0x00, 0x01, 0x02, 0x03, 0x04, 0x05, 0x06, 0x07, 0x08, 0x09, 0x0a, 0x0b,
        0x0c,
    ];
    assert_eq!(session_id_from_bytes(&bytes), "+/+/AAECAwQFBgcICQoLDA");
}

#[test]
fn generated_session_ids_are_unpadded() {
    for _ in 0..20 {
        let id = gen_session_id();
        assert_eq!(id.len(), 22);
        assert!(!id.contains('='));
        assert!(id.chars().all(|c| c.is_ascii_alphanumeric() || c == '+' || c == '/'));
    }
}

#[test]
fn padding_is_removed_everywhere() {
    assert_eq!(strip_padding("ab=="), "ab");
    assert_eq!(strip_padding("=a=b="), "ab");
    assert_eq!(strip_padding(""), "");
    assert_eq!(strip_padding("==="), "");
}
