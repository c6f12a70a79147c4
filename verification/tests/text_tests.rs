use ossido_bench::text::{chars_of, decimal, find, join, split_lines, string_of, trim};

#[test]
fn trim_drops_surrounding_whitespace() {
    assert_eq!(trim("  a b \n\t"), "a b");
    assert_eq!(trim("\u{3000}x\u{a0}"), "x");
    assert_eq!(trim("   "), "");
    assert_eq!(trim(""), "");
}

#[test]
fn decimal_numerals() {
    assert_eq!(decimal(0), "0");
    assert_eq!(decimal(7), "7");
    assert_eq!(decimal(1234), "1234");
    assert_eq!(decimal(u64::MAX), "18446744073709551615");
}

#[test]
fn find_gives_first_occurrence() {
    let hay = chars_of("abcabc");
    assert_eq!(find(&hay, &chars_of("bc")), Some(1));
    assert_eq!(find(&hay, &chars_of("x")), None);
    assert_eq!(find(&hay, &chars_of("")), Some(0));
    assert_eq!(find(&chars_of("ab"), &chars_of("abc")), None);
}

#[test]
fn lines_split_like_str_lines() {
    for text in ["a\r\nb\n", "a\n\nb", "", "\n", "x\r", "one", "a\r\r\nb", "\n\n"] {
        let got: Vec<String> = split_lines(&chars_of(text)).iter().map(|l| string_of(l)).collect();
        let want: Vec<String> = text.lines().map(|l| l.to_string()).collect();
        assert_eq!(got, want, "lines of {:?}", text);
    }
}

#[test]
fn join_with_separator() {
    let parts = vec!["a".to_string(), "b".to_string(), "c".to_string()];
    assert_eq!(join(&parts, ", "), "a, b, c");
    assert_eq!(join(&Vec::new(), ", "), "");
    assert_eq!(join(&vec!["x".to_string()], "-"), "x");
}
