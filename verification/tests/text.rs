use longlens::text::{
    char_to_utf16, chars_of, decode_utf16, encode_utf16, push_decimal, push_hex8, str_contains,
    str_equals, string_from_chars,
};

#[test]
fn chars_round_trip() {
    let chars = chars_of("aé\u{1F600}");
    assert_eq!(chars, vec!['a', 'é', '\u{1F600}']);
    assert_eq!(string_from_chars(&chars), "aé\u{1F600}");
}

#[test]
fn utf16_matches_std() {
    for text in ["", "abc", "Grüße", "\u{1F600}x\u{10FFFF}"] {
        let std_units: Vec<u16> = text.encode_utf16().collect();
        assert_eq!(encode_utf16(text), std_units);
        assert_eq!(decode_utf16(&std_units).as_deref(), Some(text));
    }
    assert_eq!(char_to_utf16('\u{1F600}'), vec![0xd83d, 0xde00]);
    assert_eq!(char_to_utf16('z'), vec![0x7a]);
    assert_eq!(decode_utf16(&[0xdc00]), None);
    assert_eq!(decode_utf16(&[0xd800, 0x41]), None);
}

#[test]
fn numbers_as_text() {
    let mut s = String::from("#");
    push_decimal(&mut s, 0);
    push_decimal(&mut s, 3389);
    push_decimal(&mut s, u64::MAX);
    assert_eq!(s, format!("#03389{}", u64::MAX));
    let mut h = String::new();
    push_hex8(&mut h, 0xdead_beef);
    push_hex8(&mut h, 0x1f);
    assert_eq!(h, "deadbeef0000001f");
}

#[test]
fn comparisons() {
    assert!(str_equals("abc", "abc"));
    assert!(!str_equals("abc", "abd"));
    assert!(!str_equals("abc", "ab"));
    assert!(str_contains("office.example.com", "example"));
    assert!(str_contains("abc", ""));
    assert!(!str_contains("abc", "abcd"));
    assert!(!str_contains("abc", "ac"));
}
