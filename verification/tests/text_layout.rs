use fast2d::backend::backend_canvas::text_layout::{char_is_white_space, chars_of, split_words, LineWrapper};

fn wrap(words: &[&str], fits: &[bool]) -> Vec<String> {
    let mut wrapper = LineWrapper::new();
    for (word, fit) in words.iter().zip(fits.iter()) {
        wrapper.push_word(word, *fit);
    }
    wrapper.finish()
}

#[test]
fn white_space_matches_std_for_every_char() {
    for n in 0u32..=0x10FFFF {
        if let Some(c) = char::from_u32(n) {
            assert_eq!(char_is_white_space(c), c.is_whitespace(), "char U+{:04X}", n);
        }
    }
}

#[test]
fn chars_of_lists_characters() {
    assert_eq!(chars_of("héllo"), vec!['h', 'é', 'l', 'l', 'o']);
    assert_eq!(chars_of(""), Vec::<char>::new());
}

#[test]
fn split_words_simple() {
    assert_eq!(split_words("Simple Rectangle"), vec!["Simple", "Rectangle"]);
}

#[test]
fn split_words_collapses_and_trims_white_space() {
    assert_eq!(split_words("  hello \t\n world  foo\n"), vec!["hello", "world", "foo"]);
}

#[test]
fn split_words_of_empty_and_blank_text() {
    assert!(split_words("").is_empty());
    assert!(split_words(" \t\r\n\u{3000}\u{00A0}").is_empty());
}

#[test]
fn split_words_unicode_separators() {
    assert_eq!(split_words("a\u{3000}b\u{2028}c\u{00A0}d"), vec!["a", "b", "c", "d"]);
    assert_eq!(split_words("日本語 テキスト"), vec!["日本語", "テキスト"]);
}

#[test]
fn split_words_matches_std_split_whitespace() {
    let samples = [
        "",
        "one",
        " leading",
        "trailing ",
        "a  b   c",
        "tab\tseparated\twords",
        "mixed \u{2003}spaces\u{205F}here",
        "Face Example With a hat",
        "\u{85}next\u{85}line",
    ];
    for s in samples {
        let expected: Vec<String> = s.split_whitespace().map(|w| w.to_string()).collect();
        assert_eq!(split_words(s), expected, "text {:?}", s);
    }
}

#[test]
fn split_words_keeps_visible_characters() {
    let text = " The  quick\tbrown\nfox ";
    let joined: String = split_words(text).concat();
    let visible: String = text.chars().filter(|c| !c.is_whitespace()).collect();
    assert_eq!(joined, visible);
}

#[test]
fn candidate_line_for_empty_and_started_lines() {
    let mut wrapper = LineWrapper::new();
    assert_eq!(wrapper.candidate("Hello"), "Hello");
    wrapper.push_word("Hello", true);
    assert_eq!(wrapper.candidate("world"), "Hello world");
}

#[test]
fn wrapping_all_fit_gives_one_line() {
    let lines = wrap(&["Sine", "Wave", "Example"], &[true, true, true]);
    assert_eq!(lines, vec!["Sine Wave Example"]);
}

#[test]
fn wrapping_none_fit_gives_a_line_per_word() {
    let lines = wrap(&["Sine", "Wave", "Example"], &[false, false, false]);
    assert_eq!(lines, vec!["Sine", "Wave", "Example"]);
}

#[test]
fn wrapping_first_word_always_placed() {
    let lines = wrap(&["Supercalifragilistic"], &[false]);
    assert_eq!(lines, vec!["Supercalifragilistic"]);
}

#[test]
fn wrapping_mixed_answers() {
    let lines = wrap(&["a", "b", "c", "d", "e"], &[true, true, false, true, false]);
    assert_eq!(lines, vec!["a b", "c d", "e"]);
}

#[test]
fn wrapping_no_words_gives_no_lines() {
    let lines = wrap(&[], &[]);
    assert!(lines.is_empty());
}

#[test]
fn wrapping_keeps_words_in_order() {
    let words = ["one", "two", "three", "four", "five", "six"];
    let fits = [false, true, false, false, true, true];
    let lines = wrap(&words, &fits);
    assert_eq!(lines.join(" "), words.join(" "));
    assert!(lines.iter().all(|l| !l.is_empty()));
    assert!(lines.len() <= words.len());
}

#[test]
fn layout_keeps_visible_characters() {
    let text = "  Simple   Rectangle\tlabel ";
    let words = split_words(text);
    let fits: Vec<bool> = (0..words.len()).map(|i| i % 2 == 0).collect();
    let mut wrapper = LineWrapper::new();
    for (word, fit) in words.iter().zip(fits.iter()) {
        wrapper.push_word(word, *fit);
    }
    let lines = wrapper.finish();
    let shown: String = lines.join(" ").chars().filter(|c| !c.is_whitespace()).collect();
    let visible: String = text.chars().filter(|c| !c.is_whitespace()).collect();
    assert_eq!(shown, visible);
}

#[test]
fn wrapping_cuts_exactly_at_words_that_do_not_fit() {
    let words = ["w0", "w1", "w2", "w3", "w4", "w5"];
    let fits = [false, true, false, false, true, false];
    let lines = wrap(&words, &fits);
    // Lines start at word 0 and at words 2, 3 and 5, whose candidates did not fit.
    assert_eq!(lines, vec!["w0 w1", "w2", "w3 w4", "w5"]);
}
