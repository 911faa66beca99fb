use toss::cli::{parse_from_args, Action, Args, CliArg, CliState, Step, ValueOption};

fn full(args: &[&str]) -> Vec<String> {
    std::iter::once("toss")
        .chain(args.iter().copied())
        .map(|s| s.to_string())
        .collect()
}

fn parse(args: &[&str]) -> Action {
    parse_from_args(full(args)).unwrap()
}

fn parse_err(args: &[&str]) -> String {
    parse_from_args(full(args)).unwrap_err().message
}

fn unwrap_run(action: Action) -> Args {
    match action {
        Action::Run(args) => args,
        Action::Print(msg) => panic!("expected Run, got Print: {msg}"),
    }
}

fn unwrap_print(action: Action) -> String {
    match action {
        Action::Print(msg) => msg,
        Action::Run(_) => panic!("expected Print, got Run"),
    }
}

#[test]
fn no_args() {
    let args = unwrap_run(parse(&[]));
    assert!(args.file.is_none());
    assert!(!args.options.quit_if_one_screen);
    assert_eq!(args.options.header, 0);
    assert!(args.options.heading.is_none());
}

#[test]
fn file_arg() {
    let args = unwrap_run(parse(&["foo.txt"]));
    assert_eq!(args.file.unwrap(), "foo.txt");
}

#[test]
fn quit_if_one_screen_short() {
    let args = unwrap_run(parse(&["-F"]));
    assert!(args.options.quit_if_one_screen);
}

#[test]
fn quit_if_one_screen_long() {
    let args = unwrap_run(parse(&["--quit-if-one-screen"]));
    assert!(args.options.quit_if_one_screen);
}

#[test]
fn header_option() {
    let args = unwrap_run(parse(&["--header", "3"]));
    assert_eq!(args.options.header, 3);
}

#[test]
fn heading_option() {
    let args = unwrap_run(parse(&["--heading", "^##"]));
    let heading = args.options.heading.unwrap();
    assert_eq!(heading.pattern.as_str(), "^##");
    assert_eq!(heading.num_lines, 1);
}

#[test]
fn heading_with_lines() {
    let args = unwrap_run(parse(&["--heading", "^##", "--heading-lines", "2"]));
    let heading = args.options.heading.unwrap();
    assert_eq!(heading.num_lines, 2);
}

#[test]
fn heading_lines_without_heading_is_error() {
    let err = parse_err(&["--heading-lines", "2"]);
    assert!(err.contains("--heading-lines requires --heading"), "{err}");
}

#[test]
fn heading_lines_zero_is_error() {
    let err = parse_err(&["--heading", "^##", "--heading-lines", "0"]);
    assert!(err.contains("at least 1"), "{err}");
}

#[test]
fn help_flag() {
    let msg = unwrap_print(parse(&["-h"]));
    assert!(msg.contains("Usage:"));
}

#[test]
fn version_flag() {
    let msg = unwrap_print(parse(&["-v"]));
    assert!(msg.starts_with("toss "));
}

#[test]
fn unknown_flag_is_error() {
    assert!(parse_from_args(vec!["toss".to_string(), "--unknown".to_string()]).is_err());
}

#[test]
fn cli_unknown_flag_message_comes_from_the_splitter() {
    assert_eq!(parse_err(&["--unknown"]), "invalid option '--unknown'");
}

#[test]
fn cli_second_file_is_unexpected() {
    let err = parse_err(&["a.txt", "b.txt"]);
    assert_eq!(err, "unexpected argument \"b.txt\"");
}

#[test]
fn cli_header_value_must_be_a_count() {
    let err = parse_err(&["--header", "x"]);
    assert!(err.starts_with("cannot parse argument \"x\""), "{err}");
}

#[test]
fn cli_missing_value_is_an_error() {
    let err = parse_err(&["--header"]);
    assert_eq!(err, "missing argument for option '--header'");
}

#[test]
fn cli_invalid_heading_pattern_is_an_error() {
    let err = parse_err(&["--heading", "("]);
    assert!(err.starts_with("invalid --heading regex: "), "{err}");
}

#[test]
fn cli_value_after_equals_sign() {
    let args = unwrap_run(parse(&["--header=4", "-F", "f"]));
    assert_eq!(args.options.header, 4);
    assert!(args.options.quit_if_one_screen);
    assert_eq!(args.file.as_deref(), Some("f"));
}

#[test]
fn cli_help_wins_over_later_errors() {
    let msg = unwrap_print(parse(&["--help", "--unknown"]));
    assert!(msg.starts_with("Usage: toss"));
}

#[test]
fn cli_apply_reads_one_argument() {
    let mut state = CliState::new();
    assert_eq!(state.apply(&CliArg::Long("header".to_string())), Step::Value(ValueOption::Header));
    assert_eq!(state.apply(&CliArg::Short('F')), Step::Continue);
    assert!(state.quit_if_one_screen);
    assert_eq!(state.apply(&CliArg::Value("x".to_string())), Step::Continue);
    assert_eq!(state.file.as_deref(), Some("x"));
    assert_eq!(state.apply(&CliArg::Value("y".to_string())), Step::Unexpected);
    assert_eq!(state.apply(&CliArg::Short('v')), Step::Print("toss 0.0.0".to_string()));
}

#[test]
fn cli_heading_lines_before_heading() {
    let args = unwrap_run(parse(&["--heading-lines", "2", "--heading", "^##"]));
    assert!(args.file.is_none());
    assert_eq!(args.options.header, 0);
    assert!(!args.options.quit_if_one_screen);
    let h = args.options.heading.as_ref().unwrap();
    assert_eq!(h.pattern.as_str(), "^##");
    assert_eq!(h.num_lines, 2);
}

#[test]
fn cli_clustered_short_options_and_double_dash() {
    let args = unwrap_run(parse(&["-F", "--", "-h"]));
    assert!(args.options.quit_if_one_screen);
    assert_eq!(args.file.as_deref(), Some("-h"));
    // A short option given a value with `=` is refused.
    assert!(parse_from_args(full(&["-F=x"])).is_err());
}

#[test]
fn cli_counts_take_a_plus_sign_and_refuse_other_text() {
    let args = unwrap_run(parse(&["--header", "+2"]));
    assert_eq!(args.options.header, 2);
    let args = unwrap_run(parse(&["--header", "007"]));
    assert_eq!(args.options.header, 7);
    assert!(parse_from_args(full(&["--header", "-2"])).is_err());
    assert!(parse_from_args(full(&["--header", "+"])).is_err());
    assert!(parse_from_args(full(&["--header", " 2"])).is_err());
    assert!(parse_from_args(full(&["--header", "99999999999999999999999"])).is_err());
}
