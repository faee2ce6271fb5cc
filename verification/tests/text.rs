use ollama_gateway::text::{
    chars_of, contains_text, find_text, replace_text, split_inclusive_lines, starts_with,
    string_of, strip_prefix, text_eq, text_lines, trim_end_matches, trim_text, trim_text_end,
};

#[test]
fn lines_make_up_the_text() {
    for text in ["", "a", "a\n", "\n\n", "a\r\nb\n\nc", "\r", "é\n日"] {
        let lines = split_inclusive_lines(text);
        assert_eq!(lines.concat(), text);
        assert_eq!(lines, text.split_inclusive('\n').collect::<Vec<_>>());
        assert_eq!(text_lines(text), text.lines().collect::<Vec<_>>());
    }
}

#[test]
fn texts_are_searched_and_replaced() {
    for (text, from, to) in [
        ("aaa", "aa", "b"),
        ("<<||", "<|", ""),
        ("xyz", "q", "r"),
        ("", "q", "r"),
        ("é<|é", "<|", "日"),
    ] {
        let c = chars_of(text);
        assert_eq!(string_of(&replace_text(&c, from, to)), text.replace(from, to));
        assert_eq!(contains_text(&c, from), text.contains(from));
        assert_eq!(starts_with(text, from), text.starts_with(from));
        assert_eq!(strip_prefix(text, from).as_deref(), text.strip_prefix(from));
    }
    assert_eq!(find_text(&chars_of("ababc"), &chars_of("abc")), Some(2));
    assert_eq!(find_text(&chars_of("ab"), &chars_of("abc")), None);
    assert_eq!(find_text(&chars_of("ab"), &chars_of("")), Some(0));
    assert!(text_eq("é", "é") && !text_eq("é", "e") && !text_eq("a", "ab"));
}

#[test]
fn white_space_is_trimmed() {
    for text in ["", " a ", "\u{2003}\u{85}x\u{3000}\n", "\t\r\n", "\u{200b}x\u{200b}", "a b"] {
        assert_eq!(trim_text(text), text.trim());
        assert_eq!(trim_text_end(text), text.trim_end());
    }
    assert_eq!(trim_end_matches("http://h//", '/'), "http://h");
    assert_eq!(trim_end_matches("//", '/'), "");
}
