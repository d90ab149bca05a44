use papers::text::{
    char_is_whitespace,
    append, chars_of, contains, contains_whitespace, decimal, join, rank, split, string_of,
    string_of_range, trim, Rank,
};

#[test]
fn text_characters_round_trip() {
    let s = "héllo wörld";
    assert_eq!(chars_of(s), s.chars().collect::<Vec<char>>());
    assert_eq!(string_of(&chars_of(s)), s);
    assert_eq!(string_of_range(&chars_of(s), 1, 5), "éllo");
    assert_eq!(append("ab", "cd"), "abcd");
}

#[test]
fn text_trim_removes_whitespace_at_both_ends() {
    assert_eq!(trim("  a b \t\n"), "a b");
    assert_eq!(trim("\u{2003}x\u{00a0}"), "x");
    assert_eq!(trim("   "), "");
    assert_eq!(trim(""), "");
    assert_eq!(trim("x"), "x");
    for s in ["  a b \t\n", "\u{2003}x\u{00a0}", " ", "", "x", " é "] {
        assert_eq!(trim(s), s.trim());
        assert_eq!(trim(&trim(s)), trim(s));
    }
}

#[test]
fn text_whitespace_is_found_anywhere() {
    assert!(contains_whitespace("a b"));
    assert!(contains_whitespace("a\tb"));
    assert!(contains_whitespace(" "));
    assert!(!contains_whitespace("ab"));
    assert!(!contains_whitespace(""));
}

#[test]
fn text_contains_finds_a_piece() {
    assert!(contains("hello world", "lo w"));
    assert!(contains("hello", "hello"));
    assert!(contains("hello", ""));
    assert!(contains("", ""));
    assert!(!contains("hello", "world"));
    assert!(!contains("hel", "hello"));
    assert!(contains("aaab", "aab"));
}

#[test]
fn text_rank_is_the_order_of_str() {
    let words = ["", "a", "ab", "b", "B", "é", "z", "aa", "a b"];
    for a in words {
        for b in words {
            let expected = match a.cmp(b) {
                std::cmp::Ordering::Less => Rank::Before,
                std::cmp::Ordering::Equal => Rank::Same,
                std::cmp::Ordering::Greater => Rank::After,
            };
            assert_eq!(rank(a, b), expected, "for {:?} {:?}", a, b);
        }
    }
}

#[test]
fn text_split_parts_at_every_separator() {
    assert_eq!(split("a,b,c", ","), vec!["a", "b", "c"]);
    assert_eq!(split("a,,c,", ","), vec!["a", "", "c", ""]);
    assert_eq!(split("", ","), vec![""]);
    assert_eq!(split("abc", ","), vec!["abc"]);
    assert_eq!(split("a--b---c", "--"), vec!["a", "b", "-c"]);
    assert_eq!(split("abc", ""), vec!["", "a", "b", "c", ""]);
    assert_eq!(split("", ""), vec!["", ""]);
}

#[test]
fn text_split_agrees_with_std() {
    for (s, sep) in [("a,b,c", ","), ("a,,c,", ","), ("", ","), ("aaa", "aa"), ("a--b---c", "--"), ("abc", ""), ("x y  z", " ")] {
        let std: Vec<String> = s.split(sep).map(|p| p.to_owned()).collect();
        assert_eq!(split(s, sep), std, "for {:?} {:?}", s, sep);
    }
}

#[test]
fn text_join_puts_the_separator_between() {
    assert_eq!(join(&vec!["a".to_owned(), "b".to_owned(), "c".to_owned()], ", "), "a, b, c");
    assert_eq!(join(&vec!["a".to_owned()], ", "), "a");
    assert_eq!(join(&vec![], ", "), "");
    assert_eq!(join(&vec!["".to_owned(), "".to_owned()], "-"), "-");
}

#[test]
fn text_decimal_writes_numbers() {
    assert_eq!(decimal(0), "0");
    assert_eq!(decimal(7), "7");
    assert_eq!(decimal(10), "10");
    assert_eq!(decimal(1234567890), "1234567890");
    assert_eq!(decimal(u64::MAX), "18446744073709551615");
}

#[test]
fn text_whitespace_is_what_std_calls_whitespace() {
    for n in 0..=0x10FFFFu32 {
        if let Some(c) = char::from_u32(n) {
            assert_eq!(char_is_whitespace(c), c.is_whitespace(), "for U+{:04X}", n);
        }
    }
}
