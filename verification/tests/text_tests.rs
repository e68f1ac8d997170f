use procfast::display::{bytes_to_str, decimal_string, format_ipv4, push_decimal, tcp_state_str};
use procfast::text::{
    has_infix, has_prefix, parse_u32, parse_u64, parse_usize, same_bytes, same_text, split_lines,
    split_words, whitespace_len,
};

#[test]
fn lines_follow_str_lines() {
    let text = "a\nbb\r\n\nlast";
    let got = split_lines(text.as_bytes());
    let want: Vec<Vec<u8>> = text.lines().map(|l| l.as_bytes().to_vec()).collect();
    assert_eq!(got, want);
    assert_eq!(split_lines(b"one\n"), vec![b"one".to_vec()]);
    assert!(split_lines(b"").is_empty());
    assert_eq!(split_lines(b"x\r"), vec![b"x\r".to_vec()]);
}

#[test]
fn words_follow_split_whitespace() {
    let text = "  CPU0 \t CPU1\u{a0}x  \u{3000}end ";
    let got = split_words(text.as_bytes());
    let want: Vec<Vec<u8>> = text.split_whitespace().map(|w| w.as_bytes().to_vec()).collect();
    assert_eq!(got, want);
    assert!(split_words(b"   ").is_empty());
}

#[test]
fn whitespace_widths() {
    let text = " \u{a0}\u{3000}x".as_bytes();
    assert_eq!(whitespace_len(text, 0), 1);
    assert_eq!(whitespace_len(text, 1), 2);
    assert_eq!(whitespace_len(text, 3), 3);
    assert_eq!(whitespace_len(text, 6), 0);
}

#[test]
fn unsigned_numbers_follow_from_str() {
    assert_eq!(parse_u64(b"0"), Some(0));
    assert_eq!(parse_u64(b"+42"), Some(42));
    assert_eq!(parse_u64(b"18446744073709551615"), Some(u64::MAX));
    assert_eq!(parse_u64(b"18446744073709551616"), None);
    assert_eq!(parse_u64(b""), None);
    assert_eq!(parse_u64(b"+"), None);
    assert_eq!(parse_u64(b"-1"), None);
    assert_eq!(parse_u64(b"12a"), None);
    assert_eq!(parse_u64(b" 1"), None);
    assert_eq!(parse_u32(b"4294967295"), Some(u32::MAX));
    assert_eq!(parse_u32(b"4294967296"), None);
    assert_eq!(parse_usize(b"007"), Some(7));
    for s in ["1", "+9", "99999999999999999999", "", "x"] {
        assert_eq!(parse_u64(s.as_bytes()), s.parse::<u64>().ok());
    }
}

#[test]
fn text_comparisons() {
    assert!(same_bytes(b"abc", b"abc"));
    assert!(!same_bytes(b"abc", b"abd"));
    assert!(!same_bytes(b"ab", b"abc"));
    assert!(same_text("--fd", "--fd"));
    assert!(!same_text("--fd", "--f"));
    assert!(has_infix(b"fox", b"firefox"));
    assert!(has_infix(b"", b"x"));
    assert!(!has_infix(b"fix", b"firefox"));
    assert!(!has_infix(b"longer", b"long"));
    assert!(has_prefix(b"/tmp", b"/tmp/a"));
    assert!(!has_prefix(b"/tmp/", b"/tmp"));
    assert!(has_prefix(b"", b""));
}

#[test]
fn name_fields_stop_at_nul() {
    assert_eq!(bytes_to_str(b"eth0\0\0\0\0"), "eth0");
    assert_eq!(bytes_to_str(b"lo"), "lo");
    assert_eq!(bytes_to_str(b"\0abc"), "");
    assert_eq!(bytes_to_str(b"\xff\xfe\0"), "?");
    assert_eq!(bytes_to_str(b"ok\0\xff"), "ok");
}

#[test]
fn decimal_text() {
    assert_eq!(decimal_string(0), "0");
    assert_eq!(decimal_string(9), "9");
    assert_eq!(decimal_string(10), "10");
    assert_eq!(decimal_string(u64::MAX), u64::MAX.to_string());
    let mut s = String::from("n=");
    push_decimal(&mut s, 305);
    assert_eq!(s, "n=305");
}

#[test]
fn ipv4_addresses() {
    assert_eq!(format_ipv4(0x0100007f), "127.0.0.1");
    assert_eq!(format_ipv4(0), "0.0.0.0");
    assert_eq!(format_ipv4(0xffffffff), "255.255.255.255");
    assert_eq!(format_ipv4(0x0a01a8c0), "192.168.1.10");
}

#[test]
fn tcp_state_names() {
    assert_eq!(tcp_state_str(1), "ESTABLISHED");
    assert_eq!(tcp_state_str(6), "TIME_WAIT");
    assert_eq!(tcp_state_str(10), "LISTEN");
    assert_eq!(tcp_state_str(11), "CLOSING");
    assert_eq!(tcp_state_str(0), "UNKNOWN");
    assert_eq!(tcp_state_str(12), "UNKNOWN");
}
