use maws_menu::args::{parse_usize, validate_usize};

#[test]
fn digits_are_a_number() {
    assert_eq!(parse_usize("0"), Some(0));
    assert_eq!(parse_usize("5"), Some(5));
    assert_eq!(parse_usize("42"), Some(42));
    assert_eq!(parse_usize("1234567890"), Some(1234567890));
    assert_eq!(parse_usize("007"), Some(7));
}

#[test]
fn plus_sign_may_lead() {
    assert_eq!(parse_usize("+5"), Some(5));
    assert_eq!(parse_usize("+0"), Some(0));
    assert_eq!(parse_usize("+"), None);
    assert_eq!(parse_usize("++5"), None);
    assert_eq!(parse_usize("5+"), None);
}

#[test]
fn anything_else_is_no_number() {
    for text in ["", " ", "-1", "-0", "abc", "1a", "a1", " 5", "5 ", "1.0", "1_000", "0x10", "\u{663}", "1\u{e9}"] {
        assert_eq!(parse_usize(text), None, "{:?}", text);
    }
}

#[test]
fn largest_number_is_accepted_and_the_next_is_not() {
    let largest = usize::MAX.to_string();
    assert_eq!(parse_usize(&largest), Some(usize::MAX));
    let mut digits: Vec<u8> = largest.clone().into_bytes();
    let last = digits.len() - 1;
    digits[last] += 1;
    let next = String::from_utf8(digits).unwrap();
    assert_eq!(parse_usize(&next), None);
    assert_eq!(parse_usize(&format!("{}0", largest)), None);
    assert_eq!(parse_usize("99999999999999999999999999999999999999999999"), None);
    assert_eq!(parse_usize(&format!("000000000000000000000000{}", largest)), Some(usize::MAX));
}

#[test]
fn parsing_agrees_with_the_standard_library() {
    let samples = [
        "", "0", "1", "9", "10", "+1", "-1", "+", "-", "+-1", "00", "18446744073709551615",
        "18446744073709551616", "4294967295", "4294967296", "12a", "a12", " 1", "1 ", "\t1",
        "1\n", "\u{663}", "1e3", "0b1", "\u{660}", "+00012", "184467440737095516150", "2147483648",
    ];
    for text in samples {
        assert_eq!(parse_usize(text), text.parse::<usize>().ok(), "{:?}", text);
    }
    for n in 0..2000usize {
        let text = n.to_string();
        assert_eq!(parse_usize(&text), Some(n));
    }
}

#[test]
fn validation_accepts_numbers() {
    assert_eq!(validate_usize("5".to_string()), Ok(()));
    assert_eq!(validate_usize("+17".to_string()), Ok(()));
    assert_eq!(validate_usize("0".to_string()), Ok(()));
}

#[test]
fn validation_complains_about_anything_else() {
    for text in ["", "-5", "five", "5.5", "99999999999999999999999999"] {
        assert_eq!(
            validate_usize(text.to_string()),
            Err("must be a non-negative integral number".to_string())
        );
    }
}
