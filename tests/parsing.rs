use istream::{is_whitespace, FromToken, IStream};

fn read<T: FromToken>(text: &str) -> Option<T> {
    let chars: Vec<char> = text.chars().collect();
    T::from_token(&chars)
}

#[test]
fn signed_integers() {
    assert_eq!(read::<i32>("64"), Some(64));
    assert_eq!(read::<i32>("+7"), Some(7));
    assert_eq!(read::<i32>("-7"), Some(-7));
    assert_eq!(read::<i32>("007"), Some(7));
    assert_eq!(read::<i32>("-2147483648"), Some(i32::MIN));
    assert_eq!(read::<i32>("2147483647"), Some(i32::MAX));
    assert_eq!(read::<i32>("2147483648"), None);
    assert_eq!(read::<i32>("-2147483649"), None);
    assert_eq!(read::<i8>("-128"), Some(-128));
    assert_eq!(read::<i8>("-129"), None);
    assert_eq!(read::<i64>("-9223372036854775808"), Some(i64::MIN));
    assert_eq!(read::<i16>("32767"), Some(i16::MAX));
    assert_eq!(read::<isize>("-1"), Some(-1));
}

#[test]
fn unsigned_integers() {
    assert_eq!(read::<u64>("18446744073709551615"), Some(u64::MAX));
    assert_eq!(read::<u64>("18446744073709551616"), None);
    assert_eq!(read::<u32>("-7"), None);
    assert_eq!(read::<u32>("-0"), None);
    assert_eq!(read::<u32>("+0"), Some(0));
    assert_eq!(read::<u8>("255"), Some(255));
    assert_eq!(read::<u8>("256"), None);
    assert_eq!(read::<u16>("65535"), Some(65535));
    assert_eq!(read::<usize>("12"), Some(12));
}

#[test]
fn wide_integers() {
    assert_eq!(
        read::<i128>("-170141183460469231731687303715884105728"),
        Some(i128::MIN)
    );
    assert_eq!(
        read::<i128>("170141183460469231731687303715884105727"),
        Some(i128::MAX)
    );
    assert_eq!(read::<i128>("170141183460469231731687303715884105728"), None);
    assert_eq!(read::<i128>("-170141183460469231731687303715884105729"), None);
    assert_eq!(read::<i128>("-42"), Some(-42));
    assert_eq!(
        read::<u128>("340282366920938463463374607431768211455"),
        Some(u128::MAX)
    );
    assert_eq!(read::<u128>("340282366920938463463374607431768211456"), None);
    assert_eq!(read::<u128>("99999999999999999999999999999999999999999"), None);
    assert_eq!(read::<u128>("-1"), None);
    let mut s = IStream::from("18446744073709551616 x");
    assert_eq!(s.next::<u128>(), Some(18446744073709551616));
}

#[test]
fn malformed_integers() {
    assert_eq!(read::<i32>(""), None);
    assert_eq!(read::<i32>("+"), None);
    assert_eq!(read::<i32>("-"), None);
    assert_eq!(read::<i32>("+-1"), None);
    assert_eq!(read::<i32>("1x"), None);
    assert_eq!(read::<i32>("please"), None);
    assert_eq!(read::<i32>(" 1"), None);
    assert_eq!(read::<i32>("\u{0661}"), None);
}

#[test]
fn other_token_types() {
    assert_eq!(read::<bool>("true"), Some(true));
    assert_eq!(read::<bool>("false"), Some(false));
    assert_eq!(read::<bool>("True"), None);
    assert_eq!(read::<char>("x"), Some('x'));
    assert_eq!(read::<char>("xy"), None);
    assert_eq!(read::<char>(""), None);
    assert_eq!(read::<String>(""), Some(String::new()));
    assert_eq!(read::<String>("a b"), Some(String::from("a b")));
}

#[test]
fn typed_reads_from_a_stream() {
    let mut s = IStream::from("true x 300 -5 é");
    assert_eq!(s.next::<bool>(), Some(true));
    assert_eq!(s.next::<char>(), Some('x'));
    assert_eq!(s.next::<u8>(), None);
    assert_eq!(s.next::<i64>(), Some(-5));
    assert_eq!(s.next::<char>(), Some('é'));
}

#[test]
fn whitespace_classes() {
    for c in [' ', '\t', '\n', '\r', '\u{0B}', '\u{0C}', '\u{85}', '\u{A0}', '\u{2000}', '\u{200A}', '\u{3000}'] {
        assert!(is_whitespace(c));
        assert!(c.is_whitespace());
    }
    for c in ['a', '\u{200B}', '_', ';'] {
        assert!(!is_whitespace(c));
    }
}
