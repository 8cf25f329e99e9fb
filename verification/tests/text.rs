use backup::text::{
    append_chars, chars_of, comes_first, matches_at, push_decimal, replace, replace_chars, separated,
    signed_decimal_string, string_of, two_digit_string, without_root,
};

#[test]
fn chars_and_strings_convert_both_ways() {
    let chars = chars_of("a\u{e9}\u{4e2d}z");
    assert_eq!(chars, vec!['a', '\u{e9}', '\u{4e2d}', 'z']);
    assert_eq!(string_of(&chars), "a\u{e9}\u{4e2d}z");
    assert_eq!(string_of(&Vec::new()), "");
    assert_eq!(chars_of(""), Vec::<char>::new());
}

#[test]
fn append_chars_keeps_what_was_there() {
    let mut out = vec!['a'];
    append_chars(&mut out, &vec!['b', 'c']);
    assert_eq!(out, vec!['a', 'b', 'c']);
}

#[test]
fn matches_at_looks_at_one_position() {
    let text = chars_of("abcabc");
    let pattern = chars_of("bc");
    assert!(matches_at(&text, 1, &pattern));
    assert!(matches_at(&text, 4, &pattern));
    assert!(!matches_at(&text, 0, &pattern));
    assert!(!matches_at(&text, 5, &pattern));
    assert!(!matches_at(&text, 7, &pattern));
    assert!(matches_at(&text, 6, &Vec::new()));
}

#[test]
fn replace_substitutes_every_occurrence() {
    assert_eq!(replace("a-{x}-b-{x}", "{x}", "12"), "a-12-b-12");
    assert_eq!(replace("{x}{x}", "{x}", ""), "");
    assert_eq!(replace("nothing here", "{x}", "12"), "nothing here");
    assert_eq!(replace("", "{x}", "12"), "");
    assert_eq!(replace("{x", "{x}", "12"), "{x");
}

#[test]
fn replace_goes_on_after_the_replaced_part() {
    assert_eq!(replace("aaa", "aa", "b"), "ba");
    assert_eq!(replace("aaaa", "aa", "a"), "aa");
    assert_eq!(replace("abab", "ab", "abab"), "abababab");
}

#[test]
fn replace_with_empty_pattern_keeps_the_text() {
    assert_eq!(replace("abc", "", "x"), "abc");
    assert_eq!(replace_chars(&chars_of("abc"), &Vec::new(), &chars_of("x")), chars_of("abc"));
}

#[test]
fn replace_agrees_with_the_standard_library_on_tokens() {
    for text in ["%T%", "a%T%b", "%T%%T%", "%T", "T%", "%%T%%", "x%T%y%T%z%"] {
        assert_eq!(replace(text, "%T%", "/tmp/f"), text.replace("%T%", "/tmp/f"));
    }
}

#[test]
fn separated_closes_a_path() {
    assert_eq!(separated(""), "");
    assert_eq!(separated("out"), "out/");
    assert_eq!(separated("out/"), "out/");
    assert_eq!(separated("/"), "/");
    assert_eq!(separated("a/b"), "a/b/");
}

#[test]
fn two_digits_pad_with_one_zero() {
    assert_eq!(two_digit_string(0), "00");
    assert_eq!(two_digit_string(5), "05");
    assert_eq!(two_digit_string(9), "09");
    assert_eq!(two_digit_string(10), "10");
    assert_eq!(two_digit_string(59), "59");
    assert_eq!(two_digit_string(123), "123");
    assert_eq!(two_digit_string(u32::MAX), "4294967295");
}

#[test]
fn signed_decimal_writes_the_sign() {
    assert_eq!(signed_decimal_string(0), "0");
    assert_eq!(signed_decimal_string(2024), "2024");
    assert_eq!(signed_decimal_string(-5), "-5");
    assert_eq!(signed_decimal_string(i32::MAX), "2147483647");
    assert_eq!(signed_decimal_string(i32::MIN), "-2147483648");
}

#[test]
fn push_decimal_appends_the_digits() {
    let mut out = vec!['n', '='];
    push_decimal(&mut out, 1980);
    assert_eq!(string_of(&out), "n=1980");
    let mut big = Vec::new();
    push_decimal(&mut big, u64::MAX);
    assert_eq!(string_of(&big), "18446744073709551615");
}

#[test]
fn comes_first_is_the_order_of_a_dictionary() {
    let words = ["", "a", "a.txt", "ab", "b", "B", "Z", "z", "\u{e9}", "sub", "sub2", "su"];
    for x in words {
        for y in words {
            assert_eq!(comes_first(&chars_of(x), &chars_of(y)), x <= y, "{:?} {:?}", x, y);
        }
    }
}

#[test]
fn without_root_drops_the_separators_at_the_front() {
    assert_eq!(without_root(""), "");
    assert_eq!(without_root("sub"), "sub");
    assert_eq!(without_root("/sub"), "sub");
    assert_eq!(without_root("///sub/deep/"), "sub/deep/");
    assert_eq!(without_root("/"), "");
    assert_eq!(without_root("a/b"), "a/b");
}
