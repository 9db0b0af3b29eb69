use terminal_demo::layouts::layout_name_from_input;
use terminal_demo::text::{push_decimal, remove_commas, str_eq, str_lt};

#[test]
fn lexicographic_order_matches_string_order() {
    let words = ["", "A", "Alpha", "alpha", "b", "Beta", "é", "z", "Ab", "AB"];
    for a in words {
        for b in words {
            assert_eq!(str_lt(a, b), a < b, "{a:?} < {b:?}");
            assert_eq!(str_eq(a, b), a == b);
        }
    }
}

#[test]
fn trim_removes_unicode_whitespace() {
    assert_eq!(layout_name_from_input("  x y \n"), Some("x y".to_string()));
    assert_eq!(layout_name_from_input("\u{3000}\u{00a0}z\u{2029}"), Some("z".to_string()));
    assert_eq!(layout_name_from_input("\t\r\n \u{85}"), None);
}

#[test]
fn decimal_and_commas() {
    let mut s = String::from("n=");
    push_decimal(&mut s, 0);
    push_decimal(&mut s, 1000);
    assert_eq!(s, "n=01000");
    assert_eq!(remove_commas("1,234,567.8"), "1234567.8");
    assert_eq!(remove_commas(",,"), "");
}
