use agent_wallet::encoding::{copy_bytes, decode_text, push_big_endian, unsigned_bits};
use agent_wallet::text::{
    comes_before, contains_char, copy_texts, decimal, is_white_space, join2, join3, list_contains, same_bytes, same_text,
    starts_with, strip_prefix, trim, trim_end_of,
};
use agent_wallet::time::{saturating_difference, saturating_sum, unix_timestamp};
use base64::{engine::general_purpose::STANDARD as BASE64, Engine};

#[test]
fn white_space_is_that_of_the_standard_library() {
    for code in 0..=0x10_ffff_u32 {
        if let Some(c) = char::from_u32(code) {
            assert_eq!(is_white_space(c), c.is_whitespace(), "{code:x}");
        }
    }
}

#[test]
fn trims_as_the_standard_library_does() {
    for text in ["", " ", "a", " a ", "\u{a0}\u{2003}a b\u{3000}\n", "a\u{200b}", "\r\n\r\n", "é è "] {
        assert_eq!(trim(text), text.trim());
        assert_eq!(trim_end_of(text, "\r\n"), text.trim_end_matches(['\r', '\n']));
    }
    assert_eq!(trim_end_of("a//", "/"), "a");
}

#[test]
fn prefixes_end_at_characters() {
    assert!(starts_with("héllo", "hé"));
    assert!(!starts_with("h", "hé"));
    assert_eq!(strip_prefix("héllo", "hé"), Some("llo"));
    assert_eq!(strip_prefix("hello", "hé"), None);
    assert_eq!(strip_prefix("a", ""), Some("a"));
    assert_eq!(strip_prefix("a", "a"), Some(""));
}

#[test]
fn texts_are_compared_and_joined() {
    assert!(same_text("é", "é"));
    assert!(!same_text("e", "é"));
    assert!(same_bytes(&[1, 2], &[1, 2]));
    assert!(!same_bytes(&[1, 2], &[1, 2, 3]));
    assert!(contains_char("a/é", 'é'));
    assert!(!contains_char("a/é", 'e'));
    assert_eq!(join2("a", "b"), "ab");
    assert_eq!(join3("a", "", "c"), "ac");
    let list = vec!["a".to_owned(), "b".to_owned()];
    assert!(list_contains(&list, "b"));
    assert!(!list_contains(&list, "c"));
    assert_eq!(copy_texts(&list), list);
}

#[test]
fn order_of_texts_is_that_of_the_standard_library() {
    let texts = ["", "a", "aa", "ab", "b", "é", "z", "\u{ffff}", "\u{10000}", "A"];
    for left in texts {
        for right in texts {
            assert_eq!(comes_before(left, right), left < right);
        }
    }
}

#[test]
fn numbers_are_written_in_decimal() {
    for number in [0, 7, 10, 255, 256, 65_536, u64::MAX] {
        assert_eq!(decimal(number), number.to_string());
    }
}

#[test]
fn base64_is_strict() {
    assert_eq!(decode_text("").as_deref(), Some(&[][..]));
    assert_eq!(decode_text("Zg==").as_deref(), Some(&b"f"[..]));
    assert_eq!(decode_text("Zm8=").as_deref(), Some(&b"fo"[..]));
    assert_eq!(decode_text("Zm9v").as_deref(), Some(&b"foo"[..]));
    assert_eq!(decode_text("+/+/").as_deref(), Some(&[0xfb, 0xff, 0xbf][..]));
    for broken in ["Zg", "Zg=", "Zh==", "Zm9", "Zm9v\n", "-_-_", "Zg==Zg==", "===="] {
        assert_eq!(decode_text(broken), None, "{broken}");
    }
    for length in 0..70_usize {
        let data: Vec<u8> = (0..length).map(|i| u8::try_from(i * 37 % 256).unwrap()).collect();
        assert_eq!(decode_text(&BASE64.encode(&data)), Some(data));
    }
}

#[test]
fn numbers_are_written_with_the_greatest_byte_first() {
    let mut output = vec![9];
    push_big_endian(&mut output, 0x0102_0304, 8);
    assert_eq!(output, [9, 0, 0, 0, 0, 1, 2, 3, 4]);
    let mut output = Vec::new();
    push_big_endian(&mut output, u128::MAX - 1, 16);
    assert_eq!(output, (u128::MAX - 1).to_be_bytes());
    for value in [0, 1, -1, i64::MIN, i64::MAX] {
        assert_eq!(unsigned_bits(value).to_be_bytes(), value.to_be_bytes());
    }
}

#[test]
fn arrays_are_filled() {
    let mut target = [0_u8; 3];
    copy_bytes(&mut target, &[1, 2, 3]);
    assert_eq!(target, [1, 2, 3]);
    copy_bytes(&mut [0_u8; 0], &[]);
}

#[test]
fn time_saturates() {
    assert_eq!(saturating_sum(i64::MAX, 1), i64::MAX);
    assert_eq!(saturating_sum(i64::MIN, -1), i64::MIN);
    assert_eq!(saturating_sum(5, -7), -2);
    assert_eq!(saturating_difference(i64::MIN, 1), i64::MIN);
    assert_eq!(saturating_difference(i64::MAX, -1), i64::MAX);
    assert_eq!(saturating_difference(5, 7), -2);
    assert_eq!(unix_timestamp(None), 0);
    assert_eq!(unix_timestamp(Some(1_700_000_000)), 1_700_000_000);
    assert_eq!(unix_timestamp(Some(u64::MAX)), i64::MAX);
}
