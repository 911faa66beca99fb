use toss::lines::{AnsiToken, Line};

#[test]
fn parse_line_with_escape_seqs_and_multi_byte_chars() {
    let s = "\u{1b}[1mHi\u{1b}[0m, 😀".to_string();
    let line = Line::new(s.clone());
    assert_eq!(&line.raw, &s);
    assert_eq!(&line.plain, "Hi, 😀");
    assert_eq!(
        &line.plain_to_raw,
        &[
            // (escape sequences)
            4, 5, // "Hi"
            // (escape sequences)
            10, 11, // ", "
            12, 13, 14, 15, // smile emoji
        ]
    );
}

#[test]
fn lines_from_tokens_maps_each_plain_byte_to_its_raw_offset() {
    let tokens = vec![
        AnsiToken::Text("ab".to_string()),
        AnsiToken::Control("\u{1b}[31m".to_string()),
        AnsiToken::Text("é".to_string()),
    ];
    let line = Line::from_tokens("ab\u{1b}[31mé".to_string(), &tokens);
    assert_eq!(line.plain, "abé");
    assert_eq!(line.plain_to_raw, vec![0, 1, 7, 8]);
}

#[test]
fn lines_plain_line_maps_to_itself() {
    let line = Line::new("plain text".to_string());
    assert_eq!(line.plain, "plain text");
    assert_eq!(line.plain_to_raw, (0..10).collect::<Vec<usize>>());
}

#[test]
fn lines_control_characters_and_sequences_with_parameters_are_removed() {
    let line = Line::new("a\u{7}b\u{1b}[1;31mc\u{1b}[0m".to_string());
    assert_eq!(line.plain, "abc");
    assert_eq!(line.plain_to_raw, vec![0, 2, 10]);
}
