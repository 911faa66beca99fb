use toss::ansi::{parse_text, Text};

fn parse(text: &str) -> Vec<Text> {
    parse_text(text)
}

fn control(s: &str) -> Text {
    Text::Control(s.to_string())
}

fn plain(s: &str) -> Text {
    Text::Plain(s.to_string())
}

#[test]
fn parse_empty() {
    assert_eq!(parse(""), vec![]);
}

#[test]
fn parse_plain_text() {
    assert_eq!(parse("abcde"), vec![plain("abcde")]);
}

#[test]
fn parse_del() {
    // DEL is not a control character of the standard.
    assert_eq!(parse("\u{7f}"), vec![plain("\u{7f}")]);
}

#[test]
fn parse_single_control_char() {
    assert_eq!(parse("\0"), vec![control("\u{00}")]);
    assert_eq!(parse("\n"), vec![control("\u{0a}")]);
    assert_eq!(parse("\u{1b}"), vec![control("\u{1b}")]);
}

#[test]
fn parse_single_control_seq() {
    assert_eq!(parse("\u{1b}[s"), vec![control("\u{1b}[s")]);
    assert_eq!(parse("\u{1b}[1;2H"), vec![control("\u{1b}[1;2H")]);
    assert_eq!(parse("\u{1b}[0m"), vec![control("\u{1b}[0m")]);
    assert_eq!(
        parse("\u{1b}[38;2;255;255;255m"),
        vec![control("\u{1b}[38;2;255;255;255m")]
    );
}

#[test]
fn parse_invalid_control_seq() {
    assert_eq!(parse("\u{1b}[あ"), vec![control("\u{1b}[あ")]);
}

#[test]
fn parse_control_string() {
    assert_eq!(
        parse("\u{1b}]abc\u{1b}\u{5c}"),
        vec![control("\u{1b}]abc\u{1b}\u{5c}")]
    );
}

#[test]
fn parse_consecutive_controls() {
    assert_eq!(
        parse("\0\t\n"),
        vec![control("\0"), control("\t"), control("\n")]
    );
    assert_eq!(
        parse("\u{1b}[7m\u{1b}[27;0m\n"),
        vec![control("\u{1b}[7m"), control("\u{1b}[27;0m"), control("\n")]
    );
}

#[test]
fn parse_mixed_text() {
    assert_eq!(
        parse("\u{1b}[7mabc\u{1b}[27;0m\n"),
        vec![
            control("\u{1b}[7m"),
            plain("abc"),
            control("\u{1b}[27;0m"),
            control("\n")
        ]
    );
    assert_eq!(
        parse("c0: \u{00} - \u{1f}, independent: \u{1b}\u{60} - \u{1b}\u{7e}"),
        vec![
            plain("c0: "),
            control("\u{00}"),
            plain(" - "),
            control("\u{1f}"),
            plain(", independent: "),
            control("\u{1b}\u{60}"),
            plain(" - "),
            control("\u{1b}\u{7e}"),
        ]
    );
}
