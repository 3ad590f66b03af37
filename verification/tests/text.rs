use yxorp::addr::{parse_ipv4, IpAddr, SocketAddr};
use yxorp::octets::{ascii_contains, bytes_eq, discard_buffer_prefix, find};
use yxorp::text::{
    char_is_space, decimal_text, eq_ignore_case, parse_number, split_at_char, split_words, trim,
    trim_end_char, trim_start_char,
};
use yxorp::uri::{authority_host, parse_authority_host, AuthorityParts};

#[test]
fn white_space_is_that_of_std() {
    for c in (0u32..0x3100).filter_map(char::from_u32) {
        assert_eq!(char_is_space(c), c.is_whitespace(), "{c:?}");
    }
}

#[test]
fn trimming_is_that_of_std() {
    for s in ["", " ", " a ", "\u{3000}x y\n", "none", "\t\r\n", "a\u{85}"] {
        assert_eq!(trim(s), s.trim());
        assert_eq!(split_words(s), s.split_whitespace().collect::<Vec<_>>());
    }
    assert_eq!(trim_start_char("//a/", '/'), "a/");
    assert_eq!(trim_end_char("/a//", '/'), "/a");
}

#[test]
fn splitting_is_that_of_std() {
    for s in ["", ",", "a", "a,b", ",a,,b,", "ü,ß"] {
        assert_eq!(split_at_char(s, ','), s.split(',').collect::<Vec<_>>());
    }
    assert_eq!(split_words(" a  b\tc\n"), vec!["a", "b", "c"]);
}

#[test]
fn numbers_are_read_as_std_reads_them() {
    for s in ["", "+", "-1", "+5", "++5", "007", "255", "256", "18446744073709551615",
        "18446744073709551616", "1 ", "a", "ff", "FF", "+ff", "0x1", "_1"] {
        assert_eq!(parse_number(s, 10, u64::MAX), s.parse::<u64>().ok(), "{s}");
        assert_eq!(parse_number(s, 16, u64::MAX), u64::from_str_radix(s, 16).ok(), "{s}");
        assert_eq!(parse_number(s, 16, 255).map(|n| n as u8), u8::from_str_radix(s, 16).ok(), "{s}");
    }
}

#[test]
fn numbers_read_back() {
    for n in [0u64, 1, 9, 10, 99, 100, 12345, u64::MAX] {
        assert_eq!(decimal_text(n), n.to_string());
        assert_eq!(parse_number(&decimal_text(n), 10, u64::MAX), Some(n));
    }
}

#[test]
fn case_is_ignored_for_ascii_only() {
    assert!(eq_ignore_case("Content-Length", "content-length"));
    assert!(!eq_ignore_case("Ä", "ä"));
    assert!(!eq_ignore_case("a", "ab"));
    assert!(ascii_contains(b"Keep-Alive, Close", b"close"));
    assert!(!ascii_contains(b"clos", b"close"));
}

#[test]
fn bytes_are_found() {
    assert_eq!(find(b"abcabc", b"bc"), Some(1));
    assert_eq!(find(b"abcabc", b"x"), None);
    assert_eq!(find(b"", b""), Some(0));
    assert!(bytes_eq(b"ab", b"ab"));
    assert!(!bytes_eq(b"ab", b"ac"));
    let mut buf = b"hello".to_vec();
    discard_buffer_prefix(&mut buf, 2);
    assert_eq!(buf, b"llo");
    discard_buffer_prefix(&mut buf, 9);
    assert!(buf.is_empty());
}

#[test]
fn addresses_are_written_in_canonical_form() {
    for (bits, text) in [
        (0u32, "0.0.0.0"),
        (1, "0.0.0.1"),
        (0x7f00_0001, "127.0.0.1"),
        (0xffff_ffff, "255.255.255.255"),
        (0xc000_020a, "192.0.2.10"),
    ] {
        assert_eq!(IpAddr::V4(bits).to_text(), text);
        assert_eq!(parse_ipv4(text), Some(bits));
    }
    for (bits, text) in [
        (0u128, "::"),
        (1, "::1"),
        (0xffff_0a00_0001, "::ffff:10.0.0.1"),
        (0x2001_0db8_0000_0000_0000_0000_0000_0001, "2001:db8::1"),
        (0x2001_0db8_0000_0001_0000_0000_0000_0001, "2001:db8:0:1::1"),
        (0x0001_0000_0000_0001_0000_0000_0000_0001, "1:0:0:1::1"),
        (0x0001_0000_0000_0001_0001_0000_0000_0001, "1::1:1:0:0:1"),
        (0x0001_0000_0002_0000_0003_0000_0004_0005, "1:0:2:0:3:0:4:5"),
        (0xfe80_0000_0000_0000_0000_0000_0000_0000, "fe80::"),
        (0x0a00_0001, "::a00:1"),
        (u128::MAX, "ffff:ffff:ffff:ffff:ffff:ffff:ffff:ffff"),
    ] {
        assert_eq!(IpAddr::V6(bits).to_text(), text);
    }
    assert_eq!(SocketAddr::new(IpAddr::V6(1), 80).to_text(), "[::1]:80");
    let scoped = SocketAddr::V6 { ip: 1, port: 80, flowinfo: 7, scope_id: 3 };
    assert_eq!(scoped.to_text(), "[::1%3]:80");
    assert_eq!(scoped.ip(), IpAddr::V6(1));
    assert_eq!(scoped.port(), 80);
    assert!(IpAddr::v4(127, 9, 9, 9).is_loopback());
    assert!(!IpAddr::v4(128, 0, 0, 1).is_loopback());
    assert!(IpAddr::v4(1, 2, 3, 4).is_ipv4());
}

#[test]
fn ipv4_addresses_are_read() {
    assert_eq!(parse_ipv4("1.2.3.4"), Some(0x0102_0304));
    for bad in ["01.2.3.4", "1.2.3", "1.2.3.4.5", "256.1.1.1", "", "1..2.3", "+1.2.3.4",
        "1.2.3.4 ", "a.b.c.d", "1.2.3.0004"] {
        assert_eq!(parse_ipv4(bad), None, "{bad}");
    }
}

#[test]
fn host_keys() {
    assert_eq!(parse_authority_host("Example.COM:443").as_deref(), Some("example.com"));
    assert_eq!(parse_authority_host("[::1]:80").as_deref(), Some("[::1]"));
    assert_eq!(parse_authority_host("example.com").as_deref(), Some("example.com"));
    for bad in ["", "example.com:", "example.com:bad", "user@example.com", ":80", "a b", "a/b"] {
        assert_eq!(parse_authority_host(bad), None, "{bad}");
    }
}

#[test]
fn host_keys_from_parts() {
    let parts = |host: &str, port: Option<u16>| Some(AuthorityParts { host: host.to_string(), port });
    assert_eq!(authority_host("A:1", parts("A", Some(1))).as_deref(), Some("a"));
    assert_eq!(authority_host("A:x", parts("A", None)), None);
    assert_eq!(authority_host("A", parts("A", None)).as_deref(), Some("a"));
    assert_eq!(authority_host("A", parts("B", None)), None);
    assert_eq!(authority_host("A", parts("", None)), None);
    assert_eq!(authority_host("A", None), None);
    assert_eq!(authority_host("u@A", parts("A", None)), None);
}
