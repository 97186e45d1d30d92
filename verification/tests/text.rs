use treeview::lines::{copy_range, join_lines, split_lines, split_with_endings};
use treeview::scan::{count_digits, count_run, count_spaces, count_spaces_before, is_whitespace};
use treeview::text::{
    append_all, append_decimal, append_padding, append_range, append_str, chars_of, spells,
    string_of, string_of_range,
};

fn as_chars(s: &str) -> Vec<char> {
    s.chars().collect()
}

fn as_text(lines: &Vec<Vec<char>>) -> Vec<String> {
    lines.iter().map(|l| l.iter().collect()).collect()
}

#[test]
fn characters_and_strings_convert_both_ways() {
    for s in ["", "a", "hello", "grüße → 日本\n"] {
        assert_eq!(chars_of(s), as_chars(s));
        assert_eq!(string_of(&as_chars(s)), s);
    }
    assert_eq!(string_of_range(&as_chars("hello"), 1, 3), "el");
    assert_eq!(string_of_range(&as_chars("hello"), 2, 2), "");
}

#[test]
fn appending() {
    let mut out = as_chars("ab");
    append_str(&mut out, "cd");
    append_all(&mut out, &as_chars("ef"));
    append_range(&mut out, &as_chars("0123456"), 2, 4);
    append_padding(&mut out, 2);
    append_decimal(&mut out, 0);
    append_decimal(&mut out, 7);
    append_decimal(&mut out, 1203);
    append_decimal(&mut out, u64::MAX);
    assert_eq!(string_of(&out), "abcdef23    07120318446744073709551615");
}

#[test]
fn spelling() {
    assert!(spells(&as_chars("md"), "md"));
    assert!(!spells(&as_chars("md"), "mdx"));
    assert!(!spells(&as_chars("mdx"), "md"));
    assert!(!spells(&as_chars("mD"), "md"));
    assert!(spells(&as_chars(""), ""));
}

#[test]
fn white_space_is_what_unicode_says() {
    for code in 0..=0x10FFFFu32 {
        if let Some(c) = char::from_u32(code) {
            assert_eq!(is_whitespace(c), c.is_whitespace(), "U+{:04X}", code);
        }
    }
}

#[test]
fn counting_runs() {
    let s = as_chars("##  12ab \t");
    assert_eq!(count_run(&s, 0, '#'), 2);
    assert_eq!(count_run(&s, 1, '#'), 1);
    assert_eq!(count_run(&s, 2, '#'), 0);
    assert_eq!(count_spaces(&s, 2), 2);
    assert_eq!(count_spaces(&s, 0), 0);
    assert_eq!(count_digits(&s, 4), 2);
    assert_eq!(count_digits(&s, 6), 0);
    assert_eq!(count_spaces_before(&s, 0, s.len()), 2);
    assert_eq!(count_spaces_before(&s, 9, s.len()), 1);
    assert_eq!(count_spaces_before(&s, 0, 8), 0);
    assert_eq!(count_run(&s, s.len(), '#'), 0);
}

#[test]
fn lines_are_split_as_std_splits_them() {
    for s in [
        "", "a", "a\nb", "a\nb\n", "a\r\nb\r\n", "\n", "\n\n", "a\n\nb", "a\r", "\r\n", "a\rb\nc",
        "\r", "x\r\r\ny", "last line without end",
    ] {
        let expected: Vec<String> = s.lines().map(|l| l.to_string()).collect();
        assert_eq!(as_text(&split_lines(&as_chars(s))), expected, "{:?}", s);
    }
}

#[test]
fn lines_keep_their_endings() {
    for s in ["", "a", "a\nb", "a\nb\n", "a\r\nb\r\n", "\n", "\n\n", "a\n\nb"] {
        let expected: Vec<String> =
            syntect::util::LinesWithEndings::from(s).map(|l| l.to_string()).collect();
        assert_eq!(as_text(&split_with_endings(&as_chars(s))), expected, "{:?}", s);
    }
    assert_eq!(
        as_text(&split_with_endings(&as_chars("foo\nbar\nbaz"))),
        vec!["foo\n", "bar\n", "baz"]
    );
}

#[test]
fn joining_lines() {
    let lines: Vec<Vec<char>> = vec![as_chars("a"), as_chars(""), as_chars("c"), as_chars("d")];
    assert_eq!(string_of(&join_lines(&lines, 0, 4)), "a\n\nc\nd");
    assert_eq!(string_of(&join_lines(&lines, 1, 3)), "\nc");
    assert_eq!(string_of(&join_lines(&lines, 2, 3)), "c");
    assert_eq!(string_of(&join_lines(&lines, 2, 2)), "");
    assert_eq!(copy_range(&as_chars("hello"), 1, 4), as_chars("ell"));
}
