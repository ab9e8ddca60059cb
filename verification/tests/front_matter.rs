use ezekiel::preamble::extract_front_matter;
use std::io::BufRead;
use ezekiel::text::{chars_of, lines_of, replace_all, split_chars, string_of};

fn lines(text: &str) -> Vec<String> {
    lines_of(&chars_of(text)).iter().map(string_of).collect()
}

fn pieces(text: &str, sep: char) -> Vec<String> {
    split_chars(&chars_of(text), sep).iter().map(string_of).collect()
}

fn replace(text: &str, pattern: &str, with: &str) -> String {
    string_of(&replace_all(&chars_of(text), &chars_of(pattern), &chars_of(with)))
}

#[test]
fn characters_round_trip() {
    for text in ["", "abc", "naïve ☃ text\n", "\u{1F600}"] {
        assert_eq!(chars_of(text), text.chars().collect::<Vec<char>>());
        assert_eq!(string_of(&chars_of(text)), text);
    }
}

#[test]
fn split_gives_one_more_piece_than_separators() {
    assert_eq!(pieces("", '/'), vec![""]);
    assert_eq!(pieces("a", '/'), vec!["a"]);
    assert_eq!(pieces("a/b", '/'), vec!["a", "b"]);
    assert_eq!(pieces("/a//b/", '/'), vec!["", "a", "", "b", ""]);
}

#[test]
fn lines_end_at_line_feeds() {
    assert_eq!(lines(""), Vec::<String>::new());
    assert_eq!(lines("a"), vec!["a"]);
    assert_eq!(lines("a\n"), vec!["a"]);
    assert_eq!(lines("a\nb"), vec!["a", "b"]);
    assert_eq!(lines("\n"), vec![""]);
    assert_eq!(lines("\n\nx\n\n"), vec!["", "", "x", ""]);
}

#[test]
fn lines_drop_one_carriage_return_before_a_line_feed() {
    assert_eq!(lines("a\r\nb\r\n"), vec!["a", "b"]);
    assert_eq!(lines("a\r\r\n"), vec!["a\r"]);
    assert_eq!(lines("a\rb\n"), vec!["a\rb"]);
    assert_eq!(lines("a\r"), vec!["a\r"]);
    assert_eq!(lines("\r\n"), vec![""]);
}

#[test]
fn lines_agree_with_the_standard_reader() {
    for text in ["", "x", "x\n", "\n\n", "a\r\nb\rc\n\rd", "---\nk: v\n---\nbody\n", "é\n☃"] {
        let expected: Vec<String> = text.as_bytes().lines().map(|line| line.unwrap()).collect();
        assert_eq!(lines(text), expected, "{text:?}");
    }
}

#[test]
fn replace_all_agrees_with_the_standard_replace() {
    let cases = [
        ("", "ab", "X"),
        ("ab", "ab", "X"),
        ("xaby", "ab", ""),
        ("aaa", "aa", "b"),
        ("aaaa", "aa", "b"),
        ("abcabc", "bc", "bcbc"),
        ("no match", "zz", "y"),
        ("short", "longer than the text", "y"),
        ("ééé", "é", "e"),
    ];
    assert_eq!(replace("abc", "", "X"), "abc");
    assert_eq!(replace("", "", "X"), "");
    for (text, pattern, with) in cases {
        assert_eq!(replace(text, pattern, with), text.replace(pattern, with), "{text:?}");
    }
}

#[test]
fn front_matter_is_what_stands_between_the_separators() {
    let block = extract_front_matter("---\ntemplate: base.html\ntitle: Hi\n---\n# Hi\n");
    assert_eq!(block, Some("template: base.html\ntitle: Hi\n".to_string()));
}

#[test]
fn front_matter_may_follow_empty_lines() {
    let block = extract_front_matter("\n\n---\na: 1\n---\nbody");
    assert_eq!(block, Some("a: 1\n".to_string()));
}

#[test]
fn front_matter_may_be_empty() {
    assert_eq!(extract_front_matter("---\n---\n"), Some(String::new()));
    assert_eq!(extract_front_matter("---\n---"), Some(String::new()));
}

#[test]
fn front_matter_ends_at_the_first_closing_separator() {
    let block = extract_front_matter("---\na: 1\n---\nb: 2\n---\n");
    assert_eq!(block, Some("a: 1\n".to_string()));
}

#[test]
fn front_matter_keeps_empty_lines_inside() {
    let block = extract_front_matter("---\na: 1\n\nb: 2\n---\n");
    assert_eq!(block, Some("a: 1\n\nb: 2\n".to_string()));
}

#[test]
fn front_matter_lines_end_in_line_feeds_whatever_the_source_had() {
    let block = extract_front_matter("---\r\na: 1\r\n---\r\nbody\r\n");
    assert_eq!(block, Some("a: 1\n".to_string()));
}

#[test]
fn text_before_the_separator_means_no_front_matter() {
    assert_eq!(extract_front_matter("# Title\n---\na: 1\n---\n"), None);
    assert_eq!(extract_front_matter(" \n---\na: 1\n---\n"), None);
    assert_eq!(extract_front_matter("----\na: 1\n----\n"), None);
    assert_eq!(extract_front_matter("--- \na: 1\n---\n"), None);
}

#[test]
fn separator_must_be_the_whole_line() {
    let block = extract_front_matter("---\na: 1\n--- \n ---\n---x\n---\n");
    assert_eq!(block, Some("a: 1\n--- \n ---\n---x\n".to_string()));
}

#[test]
fn unclosed_block_means_no_front_matter() {
    assert_eq!(extract_front_matter("---\na: 1\nb: 2\n"), None);
    assert_eq!(extract_front_matter("---"), None);
    assert_eq!(extract_front_matter("---\n"), None);
}

#[test]
fn text_without_lines_has_no_front_matter() {
    assert_eq!(extract_front_matter(""), None);
    assert_eq!(extract_front_matter("\n\n\n"), None);
}
