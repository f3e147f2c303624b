use emily_bee::text::{chars_of, holds_text, join_lines, lines, push_decimal, string_of};

fn strings(words: &[&str]) -> Vec<String> {
    words.iter().map(|w| w.to_string()).collect()
}

#[test]
fn chars_and_strings_convert_both_ways() {
    assert_eq!(chars_of("h\u{e9}llo"), vec!['h', '\u{e9}', 'l', 'l', 'o']);
    assert_eq!(string_of(&vec!['h', '\u{e9}', 'l', 'l', 'o']), "h\u{e9}llo");
    assert_eq!(string_of(&Vec::new()), "");
}

#[test]
fn lines_follow_the_line_format() {
    assert_eq!(lines(""), Vec::<String>::new());
    assert_eq!(lines("quotes"), strings(&["quotes"]));
    assert_eq!(lines("a\nb"), strings(&["a", "b"]));
    assert_eq!(lines("a\nb\n"), strings(&["a", "b"]));
    assert_eq!(lines("a\r\nb\r\n"), strings(&["a", "b"]));
    assert_eq!(lines("a\n\nb"), strings(&["a", "", "b"]));
    assert_eq!(lines("\n"), strings(&[""]));
    assert_eq!(lines("a\r"), strings(&["a\r"]));
    assert_eq!(lines("a\rb\n"), strings(&["a\rb"]));
    assert_eq!(lines("a\r\r\n"), strings(&["a\r"]));
}

#[test]
fn lines_agree_with_the_standard_library() {
    for text in ["", "a", "a\nb", "a\r\nb", "\n\n", "x\r\n\r\ny\n", "tail\r"] {
        let expected: Vec<String> = text.lines().map(|l| l.to_string()).collect();
        assert_eq!(lines(text), expected);
    }
}

#[test]
fn join_puts_a_line_feed_between_lines() {
    assert_eq!(join_lines(&strings(&[])), "");
    assert_eq!(join_lines(&strings(&["quotes"])), "quotes");
    assert_eq!(join_lines(&strings(&["quotes", "troupes"])), "quotes\ntroupes");
    assert_eq!(join_lines(&strings(&["a", "", "b"])), "a\n\nb");
}

#[test]
fn splitting_undoes_joining() {
    for words in [strings(&[]), strings(&["a"]), strings(&["a", "bc", "d"]), strings(&["a", "", "b\r"])] {
        assert_eq!(lines(&join_lines(&words)), words);
    }
    // A line feed inside a word, or an empty last word, does not survive.
    assert_eq!(lines(&join_lines(&strings(&["a\nb"]))), strings(&["a", "b"]));
    assert_eq!(lines(&join_lines(&strings(&["a", ""]))), strings(&["a"]));
    assert_eq!(lines(&join_lines(&strings(&["a\r", "b"]))), strings(&["a", "b"]));
}

#[test]
fn holds_text_finds_equal_strings() {
    let list = strings(&["quotes", "troupes"]);
    assert!(holds_text(&list, &"troupes".to_string()));
    assert!(!holds_text(&list, &"troupe".to_string()));
    assert!(!holds_text(&Vec::new(), &"".to_string()));
}

#[test]
fn decimal_notation() {
    for (n, text) in [
        (0u64, "0"),
        (7, "7"),
        (10, "10"),
        (250, "250"),
        (1905, "1905"),
        (u64::MAX, "18446744073709551615"),
    ] {
        let mut out = vec!['x'];
        push_decimal(&mut out, n);
        assert_eq!(string_of(&out), format!("x{}", text));
    }
}
