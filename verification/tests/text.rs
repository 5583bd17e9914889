use kita::frontend::sema::Type;
use kita::text::{char_is_digit, push_bool, push_decimal, push_decimal_digits};

#[test]
fn only_the_ten_ascii_digits_are_digits() {
    for c in "0123456789".chars() {
        assert!(char_is_digit(c));
        assert!(c.is_digit(10));
    }
    for c in "/:aA_ -\u{663}\u{ff11}\0".chars() {
        assert!(!char_is_digit(c));
        assert!(!c.is_digit(10));
    }
}

#[test]
fn decimal_digits_are_appended_most_significant_first() {
    let cases: Vec<(u64, &str)> = vec![
        (0, "0"),
        (9, "9"),
        (10, "10"),
        (909, "909"),
        (1000000, "1000000"),
        (u64::MAX, "18446744073709551615"),
    ];
    for (n, text) in cases {
        let mut out = String::from("n=");
        push_decimal_digits(&mut out, n);
        assert_eq!(out, format!("n={}", text));
        assert_eq!(text, n.to_string());
    }
}

#[test]
fn decimal_text_carries_the_sign() {
    let cases: Vec<(i64, &str)> = vec![
        (0, "0"),
        (5, "5"),
        (-5, "-5"),
        (-10, "-10"),
        (i64::MAX, "9223372036854775807"),
        (i64::MIN, "-9223372036854775808"),
        (i64::MIN + 1, "-9223372036854775807"),
    ];
    for (n, text) in cases {
        let mut out = String::new();
        push_decimal(&mut out, n);
        assert_eq!(out, text);
        assert_eq!(out, n.to_string());
    }
}

#[test]
fn booleans_are_written_as_words() {
    let mut out = String::from("<");
    push_bool(&mut out, true);
    push_bool(&mut out, false);
    assert_eq!(out, "<truefalse");
}

#[test]
fn type_names_are_their_debug_text() {
    for ty in [Type::Int, Type::Bool, Type::Function, Type::Unknown] {
        let mut out = String::new();
        ty.push_name(&mut out);
        assert_eq!(out, format!("{:?}", ty));
    }
    let mut out = String::new();
    Type::Unknown.push_name(&mut out);
    assert_eq!(out, "Unknown");
}
