use tokio_console::text::{decimal_string, push_decimal, str_eq, str_le};

#[test]
fn decimal_of_small_and_large_numbers() {
    assert_eq!(decimal_string(0), "0");
    assert_eq!(decimal_string(7), "7");
    assert_eq!(decimal_string(10), "10");
    assert_eq!(decimal_string(86), "86");
    assert_eq!(decimal_string(1024), "1024");
    assert_eq!(decimal_string(18_446_744_073_709_551_615), "18446744073709551615");
    assert_eq!(decimal_string(u128::MAX), "340282366920938463463374607431768211455");
}

#[test]
fn decimal_agrees_with_std() {
    let mut n: u128 = 1;
    for _ in 0..38 {
        assert_eq!(decimal_string(n), format!("{}", n));
        assert_eq!(decimal_string(n - 1), format!("{}", n - 1));
        n *= 10;
    }
}

#[test]
fn push_decimal_appends() {
    let mut s = String::from("id=");
    push_decimal(&mut s, 42);
    assert_eq!(s, "id=42");
    push_decimal(&mut s, 0);
    assert_eq!(s, "id=420");
}

#[test]
fn str_eq_compares_texts() {
    assert!(str_eq("", ""));
    assert!(str_eq("abc", "abc"));
    assert!(!str_eq("abc", "abd"));
    assert!(!str_eq("abc", "ab"));
    assert!(!str_eq("", "a"));
    assert!(str_eq("\u{238B} esc", "\u{238B} esc"));
    assert!(!str_eq("\u{238B}", "\u{238C}"));
}

#[test]
fn str_le_is_the_order_of_strings() {
    let samples = [
        "", "a", "ab", "abc", "abd", "b", "B", "Z", "z", "src/lib.rs", "src/main.rs", "\u{e9}",
        "\u{238B} esc", "zz", "\u{10348}",
    ];
    for a in samples.iter() {
        for b in samples.iter() {
            assert_eq!(str_le(a, b), a <= b);
        }
    }
}

#[test]
fn str_le_prefix_comes_first() {
    assert!(str_le("task", "task-1"));
    assert!(!str_le("task-1", "task"));
    assert!(str_le("same", "same"));
}
