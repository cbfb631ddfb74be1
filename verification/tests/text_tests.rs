use dwarf_varloc::text::{
    bytes_eq, contains, parse_signed_decimal, parse_unsigned, position_of, split_line,
    split_words, starts_with, strip_prefixes, trim,
};

#[test]
fn words_are_split_at_blanks() {
    let words = split_words(b"  %ebp\t16 \n - ");
    assert_eq!(words, vec![b"%ebp".to_vec(), b"16".to_vec(), b"-".to_vec()]);
    assert!(split_words(b"").is_empty());
    assert!(split_words(b" \t ").is_empty());
}

#[test]
fn signed_decimal_numbers() {
    assert_eq!(parse_signed_decimal(b"16"), Some(16));
    assert_eq!(parse_signed_decimal(b"+16"), Some(16));
    assert_eq!(parse_signed_decimal(b"-8"), Some(-8));
    assert_eq!(parse_signed_decimal(b"007"), Some(7));
    assert_eq!(parse_signed_decimal(b"9223372036854775807"), Some(i64::MAX));
    assert_eq!(parse_signed_decimal(b"-9223372036854775808"), Some(i64::MIN));
    assert_eq!(parse_signed_decimal(b"9223372036854775808"), None);
    assert_eq!(parse_signed_decimal(b"-9223372036854775809"), None);
    assert_eq!(parse_signed_decimal(b""), None);
    assert_eq!(parse_signed_decimal(b"-"), None);
    assert_eq!(parse_signed_decimal(b"+"), None);
    assert_eq!(parse_signed_decimal(b"-+1"), None);
    assert_eq!(parse_signed_decimal(b"1x"), None);
}

#[test]
fn unsigned_numbers_in_two_bases() {
    assert_eq!(parse_unsigned(b"ff", 16, u64::MAX), Some(255));
    assert_eq!(parse_unsigned(b"FF", 16, u64::MAX), Some(255));
    assert_eq!(parse_unsigned(b"+10", 16, u64::MAX), Some(16));
    assert_eq!(parse_unsigned(b"ffffffffffffffff", 16, u64::MAX), Some(u64::MAX));
    assert_eq!(parse_unsigned(b"10000000000000000", 16, u64::MAX), None);
    assert_eq!(parse_unsigned(b"g", 16, u64::MAX), None);
    assert_eq!(parse_unsigned(b"a", 10, u64::MAX), None);
    assert_eq!(parse_unsigned(b"65535", 10, 65535), Some(65535));
    assert_eq!(parse_unsigned(b"65536", 10, 65535), None);
    assert_eq!(parse_unsigned(b"-1", 10, 65535), None);
    assert_eq!(parse_unsigned(b"", 10, 65535), None);
}

#[test]
fn trimming_and_prefixes() {
    assert_eq!(trim(b"  0x10\r\n"), b"0x10");
    assert_eq!(trim(b"\x0b x \x0c"), b"x");
    assert_eq!(trim(b"   "), b"");
    assert_eq!(strip_prefixes(b"0x0x1f", b"0x"), b"1f");
    assert_eq!(strip_prefixes(b"1f", b"0x"), b"1f");
    assert_eq!(strip_prefixes(b"0x", b"0x"), b"");
    assert!(starts_with(b"symbol1", b"symbol"));
    assert!(!starts_with(b"sym", b"symbol"));
    assert!(contains(b"a.phi.b", b"phi"));
    assert!(!contains(b"a.ph", b"phi"));
    assert!(bytes_eq(b"abc", b"abc"));
    assert!(!bytes_eq(b"abc", b"abd"));
    assert_eq!(position_of(b"a:b:c", b':'), 1);
    assert_eq!(position_of(b"abc", b':'), 3);
}

#[test]
fn lines_end_at_line_feeds() {
    let (line, rest) = split_line(b"one\r\ntwo\nthree\r");
    assert_eq!(line, b"one");
    let (line, rest) = split_line(rest);
    assert_eq!(line, b"two");
    let (line, rest) = split_line(rest);
    assert_eq!(line, b"three\r");
    assert!(rest.is_empty());
    let (line, rest) = split_line(b"\n");
    assert_eq!(line, b"");
    assert!(rest.is_empty());
}

#[test]
fn trimming_takes_every_blank_character_of_unicode() {
    assert_eq!(trim("\u{a0} x\u{2003}\u{3000}".as_bytes()), b"x");
    assert_eq!(trim("\u{85}main\u{2028}\u{2029}".as_bytes()), b"main");
    assert_eq!(trim("\u{1680}\u{202f}a b\u{205f}".as_bytes()), b"a b");
    // a blank inside stays, and so does what only looks like the start of one
    assert_eq!(trim("a\u{a0}b".as_bytes()), "a\u{a0}b".as_bytes());
    assert_eq!(trim("\u{e9}".as_bytes()), "\u{e9}".as_bytes());
    assert_eq!(trim("\u{200b}x\u{200b}".as_bytes()), "\u{200b}x\u{200b}".as_bytes());
}

#[test]
fn trimming_agrees_with_the_standard_library_on_every_character() {
    let mut code: u32 = 0;
    while code <= 0x10ffff {
        if let Some(c) = char::from_u32(code) {
            let mut text = String::new();
            text.push(c);
            text.push('a');
            text.push(c);
            text.push(c);
            assert_eq!(trim(text.as_bytes()), text.trim().as_bytes(), "U+{:04X}", code);
            let mut lone = String::new();
            lone.push(c);
            assert_eq!(trim(lone.as_bytes()), lone.trim().as_bytes(), "U+{:04X}", code);
        }
        code += 1;
    }
}
