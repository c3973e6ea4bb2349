use readsb::net::protocols::hex::{encode_hex_output, line_cuts_char, parse_line};

#[test]
fn hex_output_line() {
    assert_eq!(encode_hex_output(&[0x8d, 0x0a, 0xff]), b"*8D0AFF;\n".to_vec());
    assert_eq!(encode_hex_output(&[]), b"*;\n".to_vec());
}

#[test]
fn parse_star_and_at_lines() {
    assert_eq!(parse_line("*8D4840D6;"), Some(vec![0x8d, 0x48, 0x40, 0xd6]));
    assert_eq!(parse_line("@00ff;"), Some(vec![0x00, 0xff]));
    assert_eq!(parse_line("  *0a0B;\r\n"), Some(vec![0x0a, 0x0b]));
    assert_eq!(parse_line("*;"), Some(vec![]));
}

#[test]
fn parse_rejects_malformed_lines() {
    assert_eq!(parse_line(""), None);
    assert_eq!(parse_line("   "), None);
    assert_eq!(parse_line("8D48;"), None);
    assert_eq!(parse_line("*8D48"), None);
    assert_eq!(parse_line("*8D4;"), None);
    assert_eq!(parse_line("*8G;"), None);
    assert_eq!(parse_line("*"), None);
}

#[test]
fn parse_field_sign_rules() {
    assert_eq!(parse_line("*+5;"), Some(vec![5]));
    assert_eq!(parse_line("*-5;"), None);
    assert_eq!(parse_line("*++;"), None);
}

#[test]
fn parse_non_ascii_lines() {
    assert!(!line_cuts_char("*é;"));
    assert_eq!(parse_line("*é;"), None);
    assert!(line_cuts_char("*€0;"));
    assert!(line_cuts_char("*0é1;"));
    assert!(!line_cuts_char("*zzé;"));
    assert!(!line_cuts_char("*8D48;"));
    assert_eq!(parse_line("\u{a0}*12;\u{2003}"), Some(vec![0x12]));
}

#[test]
fn parse_reads_what_is_written() {
    let data = vec![0x8d, 0x48, 0x40, 0xd6, 0x20, 0x2c, 0xc3];
    let line = String::from_utf8(encode_hex_output(&data)).unwrap();
    assert_eq!(parse_line(&line), Some(data));
}
