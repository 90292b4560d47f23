use hygg::justify::{justify, split_at_char};

#[test]
fn test_handles_long_words() {
    let input_text = r#"some text and a very loooooooooooooooooooooooooooooooooooooooooooooooooooooooooooooooooooooooooooooooooooooooooooooooooooooooooooooooooooong word but no cause to panic"#;
    let pretty_short_line_width = 10;
    justify(input_text, pretty_short_line_width);
}

#[test]
fn every_line_fits_and_a_blank_line_closes_each_paragraph() {
    let lines = justify("one two three four five six seven", 10);
    assert!(lines.len() >= 2);
    for l in &lines {
        assert!(l.chars().count() <= 10);
    }
    assert_eq!(lines.last().unwrap(), "");
}

#[test]
fn short_text_is_joined_with_single_spaces() {
    assert_eq!(justify("a b", 5), vec!["a b".to_string(), "".to_string()]);
}

#[test]
fn full_lines_are_padded_to_exactly_the_width() {
    let lines = justify("a b c zzzzzz", 6);
    assert_eq!(
        lines,
        vec!["a  b c".to_string(), "zzzzzz".to_string(), "".to_string()],
        "the leftover width goes to the earliest gap",
    );
}

#[test]
fn greedy_fill_flushes_before_overflowing() {
    let lines = justify("aaaa bb cc", 5);
    assert_eq!(
        lines,
        vec!["aaaa".to_string(), "bb cc".to_string(), "".to_string()],
    );
}

#[test]
fn paragraphs_are_kept_apart() {
    let lines = justify("aa bb\n\ncc", 5);
    assert_eq!(
        lines,
        vec!["aa bb".to_string(), "".to_string(), "cc".to_string(), "".to_string()],
    );
}

#[test]
fn long_words_are_cut_at_the_width() {
    let lines = justify("abcdefgh", 3);
    assert_eq!(
        lines,
        vec!["abc".to_string(), "def".to_string(), "gh".to_string(), "".to_string()],
    );
}

#[test]
fn word_boundaries_are_never_joined_or_split() {
    // two words stay two words: they are never glued into one token
    assert_eq!(justify("ab cd", 5), vec!["ab cd".to_string(), "".to_string()]);
    // a short word is never split across lines; it moves whole
    assert_eq!(
        justify("aaa bb", 4),
        vec!["aaa".to_string(), "bb".to_string(), "".to_string()],
    );
    // an over-long word is replaced by its consecutive width-sized chunks
    assert_eq!(
        justify("x abcdefg y", 3),
        vec![
            "x".to_string(),
            "abc".to_string(),
            "def".to_string(),
            "g y".to_string(),
            "".to_string(),
        ],
    );
}

#[test]
fn every_paragraph_keeps_its_own_blank_line() {
    let lines = justify("a

b



c", 5);
    // four paragraphs (one of them empty), four closing blanks
    assert_eq!(
        lines,
        vec![
            "a".to_string(),
            "".to_string(),
            "b".to_string(),
            "".to_string(),
            "".to_string(),
            "c".to_string(),
            "".to_string(),
        ],
    );
}

#[test]
fn split_at_char_counts_characters() {
    let (head, rest) = split_at_char("abcdef", 4);
    assert_eq!(head, "abcd");
    assert_eq!(rest, Some("ef"));
    let (whole, none) = split_at_char("abc", 5);
    assert_eq!(whole, "abc");
    assert_eq!(none, None);
}
