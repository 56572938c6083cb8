use desubot::text::{
    chars_of, contains, i64_decimal, replace_all, split_on, starts_with, string_of, trim,
    u64_decimal, utf8_len_exceeds,
};

fn s(v: &Vec<char>) -> String {
    string_of(v)
}

#[test]
fn replace_all_left_to_right_without_overlap() {
    let t = chars_of("aaaa");
    let p = chars_of("aa");
    let r = chars_of("b");
    assert_eq!(s(&replace_all(&t, &p, &r)), "aaaa".replace("aa", "b"));
    let t = chars_of("hello @bot, @bot!");
    assert_eq!(s(&replace_all(&t, &chars_of("@bot"), &vec![])), "hello , !");
    let t = chars_of("xyz");
    assert_eq!(s(&replace_all(&t, &chars_of("xyzw"), &chars_of("q"))), "xyz");
}

#[test]
fn split_matches_std() {
    for text in ["a;b;;c", ";", "", "no sep", ";x;"] {
        let pieces: Vec<String> = split_on(&chars_of(text), ';').iter().map(|p| s(p)).collect();
        let expected: Vec<String> = text.split(';').map(|x| x.to_string()).collect();
        assert_eq!(pieces, expected);
    }
}

#[test]
fn trim_matches_std() {
    for text in ["  a b \n", "\u{3000}x\u{85}", "   ", "", "q"] {
        assert_eq!(s(&trim(&chars_of(text))), text.trim());
    }
}

#[test]
fn decimals() {
    assert_eq!(s(&u64_decimal(0)), "0");
    assert_eq!(s(&u64_decimal(1234567890)), "1234567890");
    assert_eq!(s(&u64_decimal(u64::MAX)), u64::MAX.to_string());
    assert_eq!(s(&i64_decimal(-5)), "-5");
    assert_eq!(s(&i64_decimal(i64::MIN)), i64::MIN.to_string());
}

#[test]
fn prefix_and_search() {
    let t = chars_of("/sql select");
    assert!(starts_with(&t, &chars_of("/sql")));
    assert!(!starts_with(&t, &chars_of("/sqlx")));
    assert!(contains(&t, &chars_of("sel")));
    assert!(!contains(&t, &chars_of("zzz")));
    assert!(contains(&t, &vec![]));
}

#[test]
fn byte_lengths() {
    assert!(!utf8_len_exceeds(&chars_of("abcdefghij"), 10));
    assert!(utf8_len_exceeds(&chars_of("abcdefghijk"), 10));
    // six Cyrillic letters take twelve bytes
    assert!(utf8_len_exceeds(&chars_of("яяяяяя"), 10));
    assert!(!utf8_len_exceeds(&chars_of("яяяяя"), 10));
    assert!(utf8_len_exceeds(&chars_of("🚫🚫🚫"), 11));
}

