use markdown_grid::numbers::{parse_bool, parse_usize, push_decimal, push_signed_decimal};
use markdown_grid::offsets::{char_index, insert_text, remove_char, split_text, width_of};
use markdown_grid::strings::{
    char_is_whitespace, cut_chars, from_chars, range_is_blank, replace_chars, split_fields,
    split_lines, to_chars, trim_range,
};

fn chars(text: &str) -> Vec<char> {
    text.chars().collect()
}

fn texts(pieces: Vec<Vec<char>>) -> Vec<String> {
    pieces.into_iter().map(|piece| piece.into_iter().collect()).collect()
}

#[test]
fn white_space_is_what_the_standard_library_says() {
    for code in 0..=0x10FFFFu32 {
        if let Some(c) = char::from_u32(code) {
            assert_eq!(char_is_whitespace(c), c.is_whitespace(), "U+{code:04X}");
        }
    }
}

#[test]
fn width_is_what_the_standard_library_says() {
    for code in 0..=0x10FFFFu32 {
        if let Some(c) = char::from_u32(code) {
            assert_eq!(width_of(c), c.len_utf8(), "U+{code:04X}");
        }
    }
}

#[test]
fn chars_and_back() {
    let v = to_chars("héllo");
    assert_eq!(v, chars("héllo"));
    assert_eq!(from_chars(&v, 1, 4), "éll");
    assert_eq!(from_chars(&v, 2, 2), "");
}

#[test]
fn replace_is_leftmost_and_does_not_overlap() {
    let replace = |s: &str, pat: &str, rep: &str| -> String {
        replace_chars(&chars(s), &chars(pat), &chars(rep)).into_iter().collect()
    };
    assert_eq!(replace("aaa", "aa", "b"), "ba");
    assert_eq!(replace("abcabc", "bc", ""), "aa");
    assert_eq!(replace("abc", "", "x"), "abc");
    assert_eq!(replace("", "a", "x"), "");
    assert_eq!(replace("a\r\nb\r", "\r\n", "\n"), "a\nb\r");
    for (s, pat, rep) in [("xxyxxxy", "xx", "z"), ("abab", "ab", "ba"), ("a.b.c", ".", "..")] {
        assert_eq!(replace(s, pat, rep), s.replace(pat, rep));
    }
}

#[test]
fn lines_end_at_line_feeds() {
    let lines = |s: &str| texts(split_lines(&chars(s)));
    assert_eq!(lines(""), Vec::<String>::new());
    assert_eq!(lines("a"), vec!["a"]);
    assert_eq!(lines("a\n"), vec!["a"]);
    assert_eq!(lines("\n"), vec![""]);
    assert_eq!(lines("a\n\nb"), vec!["a", "", "b"]);
    assert_eq!(lines("\n\n"), vec!["", ""]);
}

#[test]
fn fields_lie_between_separators() {
    let fields = |s: &str| texts(split_fields(&chars(s), ','));
    assert_eq!(fields(""), vec![""]);
    assert_eq!(fields("a"), vec!["a"]);
    assert_eq!(fields("a,"), vec!["a", ""]);
    assert_eq!(fields(",a"), vec!["", "a"]);
    assert_eq!(fields("1,22,333"), vec!["1", "22", "333"]);
}

#[test]
fn cut_falls_at_the_first_separator() {
    let cut = |s: &str| {
        cut_chars(&chars(s), '|').map(|(head, tail)| {
            (head.into_iter().collect::<String>(), tail.into_iter().collect::<String>())
        })
    };
    assert_eq!(cut("a|b|c"), Some(("a".to_string(), "b|c".to_string())));
    assert_eq!(cut("|"), Some((String::new(), String::new())));
    assert_eq!(cut("abc"), None);
    assert_eq!(cut(""), None);
}

#[test]
fn blank_ranges_and_trimming() {
    let v = chars("  a b \u{3000}");
    assert!(range_is_blank(&v, 0, 2));
    assert!(range_is_blank(&v, 3, 3));
    assert!(!range_is_blank(&v, 0, 3));
    assert_eq!(trim_range(&v, 0, v.len()), (2, 5));
    assert_eq!(trim_range(&v, 0, 2), (2, 2));
    assert_eq!(trim_range(&v, 5, v.len()), (7, 7));
    assert_eq!(trim_range(&v, 2, 5), (2, 5));
}

#[test]
fn decimal_digits() {
    let show = |n: usize| {
        let mut out = String::from("n=");
        push_decimal(&mut out, n);
        out
    };
    assert_eq!(show(0), "n=0");
    assert_eq!(show(7), "n=7");
    assert_eq!(show(10), "n=10");
    assert_eq!(show(9075), "n=9075");
    assert_eq!(show(usize::MAX), format!("n={}", usize::MAX));
}

#[test]
fn signed_decimal_digits() {
    let show = |n: i32| {
        let mut out = String::new();
        push_signed_decimal(&mut out, n);
        out
    };
    assert_eq!(show(0), "0");
    assert_eq!(show(-1), "-1");
    assert_eq!(show(42), "42");
    assert_eq!(show(i32::MAX), "2147483647");
    assert_eq!(show(i32::MIN), "-2147483648");
}

#[test]
fn numbers_are_read_as_the_standard_library_reads_them() {
    let max = usize::MAX.to_string();
    let over = format!("{}0", usize::MAX);
    let mut next = max.clone().into_bytes();
    let last = next.len() - 1;
    next[last] += 1;
    let next = String::from_utf8(next).unwrap();
    for text in [
        "", "0", "7", "007", "+5", "+", "-0", "-1", "12a", "a12", " 1", "1 ", "1,2", "++1",
        "18446744073709551616", "99999999999999999999999", max.as_str(), over.as_str(),
        next.as_str(),
    ] {
        assert_eq!(parse_usize(&chars(text)), text.parse::<usize>().ok(), "{text:?}");
    }
}

#[test]
fn a_written_number_reads_back() {
    for n in [0usize, 1, 9, 10, 99, 100, 12345, usize::MAX - 1, usize::MAX] {
        let mut text = String::new();
        push_decimal(&mut text, n);
        assert_eq!(parse_usize(&chars(&text)), Some(n));
    }
}

#[test]
fn truth_values_are_read_exactly() {
    assert_eq!(parse_bool(&chars("true")), Some(true));
    assert_eq!(parse_bool(&chars("false")), Some(false));
    for text in ["", "True", "true ", "1", "fals", "falsey", "tru"] {
        assert_eq!(parse_bool(&chars(text)), None, "{text:?}");
    }
}

#[test]
fn boundaries_lie_between_characters() {
    let v = chars("héllo");
    assert_eq!(char_index(&v, 0), Some(0));
    assert_eq!(char_index(&v, 1), Some(1));
    assert_eq!(char_index(&v, 2), None);
    assert_eq!(char_index(&v, 3), Some(2));
    assert_eq!(char_index(&v, 6), Some(5));
    assert_eq!(char_index(&v, 7), None);
    assert_eq!(char_index(&v, usize::MAX), None);
    for text in ["", "a", "héllo", "日本語", "a\u{1F600}b"] {
        let v = chars(text);
        for p in 0..text.len() + 3 {
            assert_eq!(char_index(&v, p).is_some(), text.is_char_boundary(p), "{text:?} at {p}");
        }
    }
}

#[test]
fn split_at_a_byte_offset() {
    assert_eq!(split_text("héllo", 1), Some(("h".to_string(), "éllo".to_string())));
    assert_eq!(split_text("héllo", 2), None);
    assert_eq!(split_text("héllo", 3), Some(("hé".to_string(), "llo".to_string())));
    assert_eq!(split_text("héllo", 0), Some((String::new(), "héllo".to_string())));
    assert_eq!(split_text("héllo", 6), Some(("héllo".to_string(), String::new())));
    assert_eq!(split_text("héllo", 7), None);
    assert_eq!(split_text("", 0), Some((String::new(), String::new())));
}

#[test]
fn insert_at_a_byte_offset() {
    assert_eq!(insert_text("ab", 1, "X"), Some("aXb".to_string()));
    assert_eq!(insert_text("ab", 0, "é"), Some("éab".to_string()));
    assert_eq!(insert_text("ab", 2, ""), Some("ab".to_string()));
    assert_eq!(insert_text("é", 1, "x"), None);
    assert_eq!(insert_text("ab", 3, "x"), None);
}

#[test]
fn remove_the_character_at_a_byte_offset() {
    assert_eq!(remove_char("héllo", 1), Some("hllo".to_string()));
    assert_eq!(remove_char("héllo", 0), Some("éllo".to_string()));
    assert_eq!(remove_char("héllo", 5), Some("héll".to_string()));
    assert_eq!(remove_char("héllo", 2), None);
    assert_eq!(remove_char("ab", 2), None);
    assert_eq!(remove_char("", 0), None);
}
