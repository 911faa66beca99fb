//! Command-line argument parsing. `lexopt` splits the command line into
//! options and values; what each of them means is decided here.

use vstd::prelude::*;

use crate::options::{HeadingOptions, Options};
use crate::query::{regex_compiles, Query};
use crate::text::{chars_of, push_all, string_from_chars};

verus! {

/// Declares the argument parser of the `lexopt` crate.
#[verifier::external_type_specification]
#[verifier::external_body]
pub struct ExArgParser(lexopt::Parser);

/// Declares the error type of the `lexopt` crate.
#[verifier::external_type_specification]
#[verifier::external_body]
pub struct ExArgError(lexopt::Error);

/// An argument as `lexopt` splits the command line: a short option, a long
/// option without its dashes, or a value.
#[derive(Debug, Clone, PartialEq, Eq)]
pub enum CliArg {
    Short(char),
    Long(String),
    Value(String),
}

/// An option that takes a value.
#[derive(Debug, Clone, Copy, PartialEq, Eq, Structural)]
pub enum ValueOption {
    Header,
    Heading,
    HeadingLines,
}

/// What one argument asks for.
#[derive(Debug, PartialEq, Eq)]
pub enum Step {
    /// Go on with the next argument.
    Continue,
    /// Stop and print this message.
    Print(String),
    /// Read the value of this option next.
    Value(ValueOption),
    /// The argument is not one this program takes.
    Unexpected,
}

/// Parsed command-line action.
#[derive(Debug)]
pub enum Action {
    /// Run the pager.
    Run(Args),
    /// Print a message and exit.
    Print(String),
}

/// Parsed command-line arguments.
#[derive(Debug)]
pub struct Args {
    pub file: Option<String>,
    pub options: Options,
}

/// Error returned for a command line that cannot be used.
#[derive(Debug, Clone, PartialEq, Eq)]
pub struct CliError {
    pub message: String,
}

/// The options read so far.
#[derive(Debug, Clone, PartialEq, Eq)]
pub struct CliState {
    pub file: Option<String>,
    pub quit_if_one_screen: bool,
    pub header: usize,
    pub heading_pattern: Option<String>,
    pub heading_lines: Option<usize>,
}

/// The usage text.
pub open spec fn help_spec() -> Seq<char> {
    "Usage: toss [OPTIONS] [FILE]\n       command | toss\n\nA terminal pager.\n\nOptions:\n  -F, --quit-if-one-screen   Quit if the entire content fits on one screen\n      --header <N>           Fix the top N lines of the input as a global header\n      --heading <REGEX>      Regex matching section heading lines (sticky per-section header)\n      --heading-lines <N>    Number of lines per section heading (default 1)\n  -h, --help                 Print help\n  -v, --version              Print version\n\nEnvironment variables:\n  TOSS_SHELL_LINES   Number of shell prompt lines to reserve when using -F\n                     (falls back to LESS_SHELL_LINES, default 1)"@
}

/// The version line.
pub open spec fn version_spec() -> Seq<char> {
    "toss 0.0.0"@
}

/// The usage text.
pub fn help() -> (s: String)
    ensures
        s@ == help_spec(),
{
    String::from_str(
        "Usage: toss [OPTIONS] [FILE]\n       command | toss\n\nA terminal pager.\n\nOptions:\n  -F, --quit-if-one-screen   Quit if the entire content fits on one screen\n      --header <N>           Fix the top N lines of the input as a global header\n      --heading <REGEX>      Regex matching section heading lines (sticky per-section header)\n      --heading-lines <N>    Number of lines per section heading (default 1)\n  -h, --help                 Print help\n  -v, --version              Print version\n\nEnvironment variables:\n  TOSS_SHELL_LINES   Number of shell prompt lines to reserve when using -F\n                     (falls back to LESS_SHELL_LINES, default 1)",
    )
}

/// The version line.
pub fn version() -> (s: String)
    ensures
        s@ == version_spec(),
{
    String::from_str("toss 0.0.0")
}

/// Whether `arg` is the short option `c` or the long option `name`.
pub open spec fn is_option(arg: CliArg, c: char, name: Seq<char>) -> bool {
    ||| arg == CliArg::Short(c)
    ||| (arg matches CliArg::Long(s) && s@ == name)
}

/// Whether `arg` is the long option `name`.
pub open spec fn is_long(arg: CliArg, name: Seq<char>) -> bool {
    arg matches CliArg::Long(s) && s@ == name
}

/// What an argument asks for, with the message to print as characters.
pub enum StepView {
    Continue,
    Print(Seq<char>),
    Value(ValueOption),
    Unexpected,
}

impl Step {
    /// This step with its message as characters.
    pub open spec fn view_of(&self) -> StepView {
        match self {
            Step::Continue => StepView::Continue,
            Step::Print(m) => StepView::Print(m@),
            Step::Value(o) => StepView::Value(*o),
            Step::Unexpected => StepView::Unexpected,
        }
    }
}

/// What argument `arg` asks for, given the options read so far; a value is
/// the file, unless a file was given already.
pub open spec fn step_spec(state: CliState, arg: CliArg) -> StepView {
    if is_option(arg, 'F', "quit-if-one-screen"@) {
        StepView::Continue
    } else if is_option(arg, 'h', "help"@) {
        StepView::Print(help_spec())
    } else if is_option(arg, 'v', "version"@) {
        StepView::Print(version_spec())
    } else if is_long(arg, "header"@) {
        StepView::Value(ValueOption::Header)
    } else if is_long(arg, "heading"@) {
        StepView::Value(ValueOption::Heading)
    } else if is_long(arg, "heading-lines"@) {
        StepView::Value(ValueOption::HeadingLines)
    } else if arg is Value && state.file is None {
        StepView::Continue
    } else {
        StepView::Unexpected
    }
}

/// Whether two strings hold the same characters.
fn same_text(a: &str, b: &str) -> (r: bool)
    ensures
        r == (a@ == b@),
{
    let x = chars_of(a);
    let y = chars_of(b);
    if x.len() != y.len() {
        return false;
    }
    let mut i: usize = 0;
    while i < x.len()
        invariant
            x@ == a@,
            y@ == b@,
            x@.len() == y@.len(),
            i <= x@.len(),
            forall|k: int| 0 <= k < i ==> x@[k] == y@[k],
        decreases x@.len() - i,
    {
        if x[i] != y[i] {
            return false;
        }
        i = i + 1;
    }
    assert(x@ == y@);
    true
}

/// Whether `arg` is the short option `c` or the long option `name`.
fn arg_is(arg: &CliArg, c: char, name: &str) -> (r: bool)
    ensures
        r == is_option(*arg, c, name@),
{
    match arg {
        CliArg::Short(s) => *s == c,
        CliArg::Long(s) => same_text(s.as_str(), name),
        CliArg::Value(_) => false,
    }
}

/// Whether `arg` is the long option `name`.
fn arg_is_long(arg: &CliArg, name: &str) -> (r: bool)
    ensures
        r == is_long(*arg, name@),
{
    match arg {
        CliArg::Long(s) => same_text(s.as_str(), name),
        _ => false,
    }
}

impl CliState {
    /// No option read yet.
    pub fn new() -> (s: CliState)
        ensures
            s.file is None,
            !s.quit_if_one_screen,
            s.header == 0,
            s.heading_pattern is None,
            s.heading_lines is None,
    {
        CliState { file: None, quit_if_one_screen: false, header: 0, heading_pattern: None, heading_lines: None }
    }

    /// Read one argument. `-F` turns on quitting when the content fits on one
    /// screen, `-h` and `-v` print the usage text and the version, the options
    /// with a value ask for it, and the first plain value is the file.
    pub fn apply(&mut self, arg: &CliArg) -> (step: Step)
        ensures
            step.view_of() == step_spec(*old(self), *arg),
            is_option(*arg, 'F', "quit-if-one-screen"@) ==> *final(self) == (CliState {
                quit_if_one_screen: true,
                ..*old(self)
            }),
            !is_option(*arg, 'F', "quit-if-one-screen"@) && step_spec(*old(self), *arg) is Continue ==> (*arg matches CliArg::Value(v) && *final(self) == (CliState {
                file: Some(v),
                ..*old(self)
            })),
            !(step_spec(*old(self), *arg) is Continue) ==> *final(self) == *old(self),
    {
        if arg_is(arg, 'F', "quit-if-one-screen") {
            self.quit_if_one_screen = true;
            return Step::Continue;
        }
        if arg_is(arg, 'h', "help") {
            return Step::Print(help());
        }
        if arg_is(arg, 'v', "version") {
            return Step::Print(version());
        }
        if arg_is_long(arg, "header") {
            return Step::Value(ValueOption::Header);
        }
        if arg_is_long(arg, "heading") {
            return Step::Value(ValueOption::Heading);
        }
        if arg_is_long(arg, "heading-lines") {
            return Step::Value(ValueOption::HeadingLines);
        }
        match arg {
            CliArg::Value(v) => {
                if self.file.is_none() {
                    self.file = Some(v.clone());
                    Step::Continue
                } else {
                    Step::Unexpected
                }
            },
            _ => Step::Unexpected,
        }
    }
}

/// An argument as characters.
pub enum ArgView {
    Short(char),
    Long(Seq<char>),
    Value(Seq<char>),
}

impl CliArg {
    pub open spec fn view_of(&self) -> ArgView {
        match self {
            CliArg::Short(c) => ArgView::Short(*c),
            CliArg::Long(s) => ArgView::Long(s@),
            CliArg::Value(s) => ArgView::Value(s@),
        }
    }
}

/// Where `lexopt`'s parser stands: at no option, with the value given after
/// `=` to the last long option, within a cluster of short options (the
/// argument and the position of the next character), or past `--`.
pub enum LexMode {
    Plain,
    Pending(Seq<char>),
    Shorts(Seq<char>, nat),
    Finished,
}

/// The arguments `lexopt`'s parser has not read, and where it stands.
pub struct LexState {
    pub rest: Seq<Seq<char>>,
    pub mode: LexMode,
}

/// What the parser's `next` gives.
pub enum LexNext {
    Done,
    Arg(ArgView),
    Failed,
}

/// The parser made for `args`, the first of which is the program's name.
pub open spec fn initial_lex(args: Seq<String>) -> LexState {
    LexState {
        rest: if args.len() == 0 {
            Seq::empty()
        } else {
            args.skip(1).map_values(|s: String| s@)
        },
        mode: LexMode::Plain,
    }
}

/// The position of the first `=` of `a` from `i` on, or -1.
pub open spec fn find_eq(a: Seq<char>, i: int) -> int
    decreases a.len() - i,
{
    if i < 0 || i >= a.len() {
        -1
    } else if a[i] == '=' {
        i
    } else {
        find_eq(a, i + 1)
    }
}

/// `next` at no option: `--` ends the options, `--name` and `--name=value`
/// are long options, `-abc` starts a cluster of short options, anything else
/// is a value.
pub open spec fn lex_plain(rest: Seq<Seq<char>>) -> (LexNext, LexState) {
    if rest.len() == 0 {
        (LexNext::Done, LexState { rest, mode: LexMode::Plain })
    } else {
        let a = rest[0];
        let r2 = rest.drop_first();
        if a == "--"@ {
            if r2.len() == 0 {
                (LexNext::Done, LexState { rest: r2, mode: LexMode::Finished })
            } else {
                (LexNext::Arg(ArgView::Value(r2[0])), LexState { rest: r2.drop_first(), mode: LexMode::Finished })
            }
        } else if a.len() >= 2 && a[0] == '-' && a[1] == '-' {
            let e = find_eq(a, 0);
            if e >= 0 {
                (
                    LexNext::Arg(ArgView::Long(a.subrange(2, e))),
                    LexState { rest: r2, mode: LexMode::Pending(a.skip(e + 1)) },
                )
            } else {
                (LexNext::Arg(ArgView::Long(a.skip(2))), LexState { rest: r2, mode: LexMode::Plain })
            }
        } else if a.len() > 1 && a[0] == '-' {
            (LexNext::Arg(ArgView::Short(a[1])), LexState { rest: r2, mode: LexMode::Shorts(a, 2) })
        } else {
            (LexNext::Arg(ArgView::Value(a)), LexState { rest: r2, mode: LexMode::Plain })
        }
    }
}

/// What `lexopt::Parser::next` gives from `st`, and where it leaves the
/// parser: a value after `=` that no `value` took is an error, a cluster of
/// short options gives its characters in turn (an `=` after the first is an
/// error), past `--` every argument is a value.
pub open spec fn lex_next(st: LexState) -> (LexNext, LexState) {
    match st.mode {
        LexMode::Pending(_) => (LexNext::Failed, st),
        LexMode::Shorts(a, pos) => if pos >= a.len() {
            lex_plain(st.rest)
        } else if a[pos as int] == '=' && pos > 1 {
            (LexNext::Failed, st)
        } else {
            (LexNext::Arg(ArgView::Short(a[pos as int])), LexState { rest: st.rest, mode: LexMode::Shorts(a, pos + 1) })
        },
        LexMode::Finished => if st.rest.len() == 0 {
            (LexNext::Done, st)
        } else {
            (
                LexNext::Arg(ArgView::Value(st.rest[0])),
                LexState { rest: st.rest.drop_first(), mode: LexMode::Finished },
            )
        },
        LexMode::Plain => lex_plain(st.rest),
    }
}

/// The next argument, whatever it looks like.
pub open spec fn take_arg(rest: Seq<Seq<char>>, mode: LexMode) -> (Option<Seq<char>>, LexState) {
    if rest.len() > 0 {
        (Some(rest[0]), LexState { rest: rest.drop_first(), mode })
    } else {
        (None, LexState { rest, mode })
    }
}

/// What `lexopt::Parser::value` gives from `st`: the value after `=`, the
/// rest of a cluster of short options (without a leading `=`), or else the
/// next argument even if it looks like an option; none at the end.
pub open spec fn lex_value(st: LexState) -> (Option<Seq<char>>, LexState) {
    match st.mode {
        LexMode::Pending(v) => (Some(v), LexState { rest: st.rest, mode: LexMode::Plain }),
        LexMode::Shorts(a, pos) => if pos < a.len() {
            if a[pos as int] == '=' {
                (Some(a.skip(pos + 1 as int)), LexState { rest: st.rest, mode: LexMode::Plain })
            } else {
                (Some(a.skip(pos as int)), LexState { rest: st.rest, mode: LexMode::Plain })
            }
        } else {
            take_arg(st.rest, LexMode::Plain)
        },
        LexMode::Finished => take_arg(st.rest, LexMode::Finished),
        LexMode::Plain => take_arg(st.rest, LexMode::Plain),
    }
}

/// `t` is one or more decimal digits.
pub open spec fn is_count_text(t: Seq<char>) -> bool {
    &&& t.len() > 0
    &&& forall|i: int| 0 <= i < t.len() ==> '0' <= #[trigger] t[i] <= '9'
    &&& decimal_value(t) <= usize::MAX
}

/// The number that the decimal digits `t` write.
pub open spec fn decimal_value(t: Seq<char>) -> nat
    decreases t.len(),
{
    if t.len() == 0 {
        0
    } else {
        decimal_value(t.drop_last()) * 10 + ((t.last() as u32 - '0' as u32) as nat)
    }
}

/// `r` is what `next` gives when `lex_next` finds `o`: nothing more, the
/// argument, or an error.
pub open spec fn arg_claim(o: LexNext, r: Result<Option<CliArg>, lexopt::Error>) -> bool {
    match o {
        LexNext::Done => r matches Ok(None),
        LexNext::Arg(v) => r matches Ok(Some(a)) && a.view_of() == v,
        LexNext::Failed => r is Err,
    }
}

/// The count that `usize::from_str` makes of `t`: an optional `+` and then
/// decimal digits that write a number that fits a `usize`, as its
/// documentation says; any other text, empty text among it, is an error.
pub open spec fn count_of(t: Seq<char>) -> Option<usize> {
    let digits = if t.len() > 0 && t[0] == '+' {
        t.drop_first()
    } else {
        t
    };
    if is_count_text(digits) {
        Some(decimal_value(digits) as usize)
    } else {
        None
    }
}

/// `r` is the count parsed from the value `v`, or an error without a value
/// or without a count.
pub open spec fn count_claim(v: Option<Seq<char>>, r: Result<usize, lexopt::Error>) -> bool {
    match v {
        None => r is Err,
        Some(t) => match count_of(t) {
            None => r is Err,
            Some(n) => r matches Ok(m) && m == n,
        },
    }
}

/// `r` is the text of the value `v`, or an error without one.
pub open spec fn text_claim(v: Option<Seq<char>>, r: Result<String, lexopt::Error>) -> bool {
    match v {
        None => r is Err,
        Some(t) => r matches Ok(s) && s@ == t,
    }
}

/// The options read so far, as characters.
pub struct CliView {
    pub file: Option<Seq<char>>,
    pub quit: bool,
    pub header: usize,
    pub pattern: Option<Seq<char>>,
    pub lines: Option<usize>,
}

impl CliState {
    pub open spec fn view_of(&self) -> CliView {
        CliView {
            file: match self.file {
                Some(f) => Some(f@),
                None => None,
            },
            quit: self.quit_if_one_screen,
            header: self.header,
            pattern: match self.heading_pattern {
                Some(p) => Some(p@),
                None => None,
            },
            lines: self.heading_lines,
        }
    }
}

/// No option read yet.
pub open spec fn empty_view() -> CliView {
    CliView { file: None, quit: false, header: 0, pattern: None, lines: None }
}

/// What argument `a` asks for, given the options read: as `step_spec`.
pub open spec fn step_of(v: CliView, a: ArgView) -> StepView {
    if a == ArgView::Short('F') || a == ArgView::Long("quit-if-one-screen"@) {
        StepView::Continue
    } else if a == ArgView::Short('h') || a == ArgView::Long("help"@) {
        StepView::Print(help_spec())
    } else if a == ArgView::Short('v') || a == ArgView::Long("version"@) {
        StepView::Print(version_spec())
    } else if a == ArgView::Long("header"@) {
        StepView::Value(ValueOption::Header)
    } else if a == ArgView::Long("heading"@) {
        StepView::Value(ValueOption::Heading)
    } else if a == ArgView::Long("heading-lines"@) {
        StepView::Value(ValueOption::HeadingLines)
    } else if a is Value && v.file is None {
        StepView::Continue
    } else {
        StepView::Unexpected
    }
}

/// The options after an argument that asks for nothing more: `-F` turns on
/// quitting when the content fits, a value is the file.
pub open spec fn apply_of(v: CliView, a: ArgView) -> CliView {
    if a == ArgView::Short('F') || a == ArgView::Long("quit-if-one-screen"@) {
        CliView { quit: true, ..v }
    } else {
        match a {
            ArgView::Value(f) => CliView { file: Some(f), ..v },
            _ => v,
        }
    }
}

/// How a command line ends: the options read, for `CliState::finish` to
/// turn into an action; a message to print; an error from `lexopt` or an
/// argument not taken; or an error with this message.
pub enum ParseOutcome {
    Finish(CliView),
    Print(Seq<char>),
    Failed,
    Message(Seq<char>),
}

/// The message when the arguments outnumber what `lexopt` can yield.
pub open spec fn too_many_message() -> Seq<char> {
    "too many arguments"@
}

/// Reading the command line from `lx` with the options `v` read so far, at
/// most `fuel` more arguments: each argument goes through `step_of`, and an
/// option with a value reads it (a count must parse, and `--heading-lines`
/// must be at least 1).
pub open spec fn run_spec(v: CliView, lx: LexState, fuel: nat) -> ParseOutcome
    decreases fuel,
{
    if fuel == 0 {
        ParseOutcome::Message(too_many_message())
    } else {
        let (o, lx2) = lex_next(lx);
        match o {
            LexNext::Failed => ParseOutcome::Failed,
            LexNext::Done => ParseOutcome::Finish(v),
            LexNext::Arg(a) => match step_of(v, a) {
                StepView::Continue => run_spec(apply_of(v, a), lx2, (fuel - 1) as nat),
                StepView::Print(m) => ParseOutcome::Print(m),
                StepView::Unexpected => ParseOutcome::Failed,
                StepView::Value(opt) => {
                    let (t, lx3) = lex_value(lx2);
                    match t {
                        None => ParseOutcome::Failed,
                        Some(t) => match opt {
                            ValueOption::Header => match count_of(t) {
                                None => ParseOutcome::Failed,
                                Some(n) => run_spec(CliView { header: n, ..v }, lx3, (fuel - 1) as nat),
                            },
                            ValueOption::Heading => run_spec(
                                CliView { pattern: Some(t), ..v },
                                lx3,
                                (fuel - 1) as nat,
                            ),
                            ValueOption::HeadingLines => match count_of(t) {
                                None => ParseOutcome::Failed,
                                Some(n) => if n == 0 {
                                    ParseOutcome::Message(zero_heading_lines_message())
                                } else {
                                    run_spec(CliView { lines: Some(n), ..v }, lx3, (fuel - 1) as nat)
                                },
                            },
                        },
                    }
                },
            },
        }
    }
}

/// How the command line `args` ends, the first item being the program's
/// name.
pub open spec fn parse_spec(args: Seq<String>) -> ParseOutcome {
    let n = token_count(args, args.len() as int);
    run_spec(empty_view(), initial_lex(args), if n <= usize::MAX { n as nat } else { usize::MAX as nat })
}

/// `r` is what `CliState::finish` makes of the options `v`.
pub open spec fn finished(v: CliView, r: Result<Action, CliError>) -> bool {
    if v.lines is Some && v.pattern is None {
        r matches Err(e) && e.message@ == lines_without_heading_message()
    } else {
        match v.pattern {
            None => r matches Ok(Action::Run(a)) && a.file_view() == v.file && a.options.header == v.header
                && a.options.quit_if_one_screen == v.quit && a.options.heading is None,
            Some(p) => if regex_compiles(p) {
                r matches Ok(Action::Run(a)) && a.file_view() == v.file && a.options.header == v.header
                    && a.options.quit_if_one_screen == v.quit && (a.options.heading matches Some(h) && h.pattern@
                    == p && h.num_lines == (match v.lines {
                    Some(n) => n,
                    None => 1,
                }))
            } else {
                r matches Err(e) && e.message@.len() >= bad_heading_prefix().len() && e.message@.subrange(
                    0,
                    bad_heading_prefix().len() as int,
                ) == bad_heading_prefix()
            },
        }
    }
}

/// `r` is what the command line comes to when it ends as `o`.
pub open spec fn outcome_holds(o: ParseOutcome, r: Result<Action, CliError>) -> bool {
    match o {
        ParseOutcome::Finish(v) => finished(v, r),
        ParseOutcome::Print(m) => r matches Ok(Action::Print(p)) && p@ == m,
        ParseOutcome::Failed => r is Err,
        ParseOutcome::Message(m) => r matches Err(e) && e.message@ == m,
    }
}

impl Args {
    /// The file as characters.
    pub open spec fn file_view(&self) -> Option<Seq<char>> {
        match self.file {
            Some(f) => Some(f@),
            None => None,
        }
    }
}

/// `lexopt`'s parser together with what it holds, as plain values: the
/// arguments it has not read and where it stands within the one it is
/// reading. Only the calls into `lexopt` below set `model`.
pub struct ArgParser {
    parser: lexopt::Parser,
    model: Ghost<LexState>,
}

impl ArgParser {
    pub closed spec fn spec_model(&self) -> LexState {
        self.model@
    }
}

/// Calls `lexopt::Parser::from_iter`: the first item is the program's name,
/// the rest are the arguments. Claims that the parser starts before the
/// first argument, at no option.
#[verifier::external_body]
fn new_parser(args: Vec<String>) -> (r: ArgParser)
    ensures
        r.spec_model() == initial_lex(args@),
{
    let model = Ghost(initial_lex(args@));
    ArgParser { parser: lexopt::Parser::from_iter(args), model }
}

/// Calls `lexopt::Parser::next`, turning the argument it yields into a
/// `CliArg`. Claims what `lexopt`'s source does for arguments that are valid
/// Unicode, as `lex_next` spells it out: the end of the arguments, a long
/// option (with a value after `=` kept for `value`), the options of a
/// cluster of short ones in turn, or a value; an error for a value after
/// `=` that no `value` took.
#[verifier::external_body]
fn next_arg(p: &mut ArgParser) -> (r: Result<Option<CliArg>, lexopt::Error>)
    ensures
        arg_claim(lex_next(old(p).spec_model()).0, r),
        r is Ok ==> final(p).spec_model() == lex_next(old(p).spec_model()).1,
{
    let r = match p.parser.next() {
        Ok(Some(lexopt::Arg::Short(c))) => Ok(Some(CliArg::Short(c))),
        Ok(Some(lexopt::Arg::Long(s))) => Ok(Some(CliArg::Long(s.to_string()))),
        Ok(Some(lexopt::Arg::Value(v))) => Ok(Some(CliArg::Value(v.to_string_lossy().into_owned()))),
        Ok(None) => Ok(None),
        Err(e) => Err(e),
    };
    r
}

/// Calls `lexopt::Parser::value` and parses the value with
/// `lexopt::ValueExt::parse` as a count. Claims the value is the one
/// `lex_value` spells out (an error where there is none), parsed as
/// `count_of` gives it, as `usize::from_str` documents: an optional `+` and
/// decimal digits that fit a `usize` are that number, other text an error.
#[verifier::external_body]
fn next_count(p: &mut ArgParser) -> (r: Result<usize, lexopt::Error>)
    ensures
        count_claim(lex_value(old(p).spec_model()).0, r),
        r is Ok ==> final(p).spec_model() == lex_value(old(p).spec_model()).1,
{
    let value = p.parser.value()?;
    lexopt::ValueExt::parse(&value)
}

/// Calls `lexopt::Parser::value` and decodes the value with
/// `lexopt::ValueExt::string`. Claims the text is the value `lex_value`
/// spells out, and an error where there is none.
#[verifier::external_body]
fn next_text(p: &mut ArgParser) -> (r: Result<String, lexopt::Error>)
    ensures
        text_claim(lex_value(old(p).spec_model()).0, r),
        r is Ok ==> final(p).spec_model() == lex_value(old(p).spec_model()).1,
{
    let value = p.parser.value()?;
    lexopt::ValueExt::string(value)
}

/// Calls `lexopt::Arg::unexpected` on `arg` turned back into a
/// `lexopt::Arg`. Nothing is claimed of the error.
#[verifier::external_body]
fn unexpected(arg: &CliArg) -> lexopt::Error {
    match arg {
        CliArg::Short(c) => lexopt::Arg::Short(*c).unexpected(),
        CliArg::Long(s) => lexopt::Arg::Long(s.as_str()).unexpected(),
        CliArg::Value(v) => lexopt::Arg::Value(v.clone().into()).unexpected(),
    }
}

/// Calls `to_string` on a `lexopt::Error`; nothing is claimed of the message.
#[verifier::external_body]
fn arg_error_message(e: &lexopt::Error) -> String {
    e.to_string()
}

/// An error that carries the message of a `lexopt` error.
fn from_arg_error(e: lexopt::Error) -> (r: CliError) {
    CliError { message: arg_error_message(&e) }
}

/// An error with `message`.
fn error_with(message: &str) -> (r: CliError)
    ensures
        r.message@ == message@,
{
    CliError { message: String::from_str(message) }
}

/// `prefix` followed by `rest`.
fn concat(prefix: &str, rest: &str) -> (r: String)
    ensures
        r@ == prefix@ + rest@,
{
    let mut v = chars_of(prefix);
    let w = chars_of(rest);
    push_all(&mut v, w.as_slice());
    string_from_chars(v.as_slice())
}

/// The message for `--heading-lines` without `--heading`.
pub open spec fn lines_without_heading_message() -> Seq<char> {
    "--heading-lines requires --heading"@
}

/// The message for `--heading-lines 0`.
pub open spec fn zero_heading_lines_message() -> Seq<char> {
    "--heading-lines must be at least 1"@
}

/// The start of the message for a `--heading` pattern that does not compile.
pub open spec fn bad_heading_prefix() -> Seq<char> {
    "invalid --heading regex: "@
}

impl CliState {
    /// The action the options read ask for: `--heading-lines` needs
    /// `--heading`, whose pattern must compile; the heading spans one line
    /// unless `--heading-lines` says otherwise.
    pub fn finish(self) -> (r: Result<Action, CliError>)
        ensures
            finished(self.view_of(), r),
            self.heading_lines is Some && self.heading_pattern is None ==> (r matches Err(e)
                && e.message@ == lines_without_heading_message()),
            !(self.heading_lines is Some && self.heading_pattern is None) ==> match self.heading_pattern {
                None => r matches Ok(Action::Run(a)) && a.file == self.file && a.options.header == self.header
                    && a.options.quit_if_one_screen == self.quit_if_one_screen && a.options.heading is None,
                Some(p) => if regex_compiles(p@) {
                    r matches Ok(Action::Run(a)) && a.file == self.file && a.options.header == self.header
                        && a.options.quit_if_one_screen == self.quit_if_one_screen
                        && (a.options.heading matches Some(h) && h.pattern@ == p@ && h.num_lines == (match self.heading_lines {
                        Some(n) => n,
                        None => 1,
                    }))
                } else {
                    r matches Err(e) && e.message@.len() >= bad_heading_prefix().len()
                        && e.message@.subrange(0, bad_heading_prefix().len() as int) == bad_heading_prefix()
                },
            },
    {
        if self.heading_lines.is_some() && self.heading_pattern.is_none() {
            return Err(error_with("--heading-lines requires --heading"));
        }
        let num_lines = match self.heading_lines {
            Some(n) => n,
            None => 1,
        };
        let heading = match &self.heading_pattern {
            None => None,
            Some(p) => match Query::new(p.as_str()) {
                Ok(pattern) => Some(HeadingOptions { pattern, num_lines }),
                Err(e) => {
                    let message = concat("invalid --heading regex: ", e.message.as_str());
                    proof {
                        assert(message@.subrange(0, bad_heading_prefix().len() as int) =~= bad_heading_prefix());
                    }
                    return Err(CliError { message });
                },
            },
        };
        Ok(
            Action::Run(
                Args {
                    file: self.file,
                    options: Options {
                        header: self.header,
                        heading,
                        quit_if_one_screen: self.quit_if_one_screen,
                    },
                },
            ),
        )
    }
}

/// One, and for each of the first `i` arguments its characters and one more.
pub open spec fn token_count(args: Seq<String>, i: int) -> int
    decreases i,
{
    if i <= 0 {
        1
    } else {
        token_count(args, i - 1) + args[i - 1]@.len() + 1
    }
}

/// How many arguments `lexopt` can yield at most for `args`: one per
/// character of an argument, or one for an argument without any, and a
/// last answer that the line is done; `usize::MAX` when that is more.
fn token_limit(args: &Vec<String>) -> (n: usize)
    ensures
        n == if token_count(args@, args@.len() as int) <= usize::MAX {
            token_count(args@, args@.len() as int)
        } else {
            usize::MAX as int
        },
{
    let mut n: usize = 1;
    let mut i: usize = 0;
    while i < args.len()
        invariant
            i <= args.len(),
            n == if token_count(args@, i as int) <= usize::MAX {
                token_count(args@, i as int)
            } else {
                usize::MAX as int
            },
        decreases args.len() - i,
    {
        proof {
            lemma_token_count_grows(args@, i as int);
        }
        let len = chars_of(args[i].as_str()).len();
        n = n.saturating_add(len).saturating_add(1);
        i = i + 1;
    }
    n
}

/// The count grows with each argument.
proof fn lemma_token_count_grows(args: Seq<String>, i: int)
    requires
        0 <= i,
    ensures
        token_count(args, i) >= 1,
    decreases i,
{
    if i > 0 {
        lemma_token_count_grows(args, i - 1);
    }
}

/// How many characters, and one more per argument, `rest` holds.
pub open spec fn rest_weight(rest: Seq<Seq<char>>) -> nat
    decreases rest.len(),
{
    if rest.len() == 0 {
        0
    } else {
        rest_weight(rest.drop_last()) + rest.last().len() + 1
    }
}

/// A bound on what the parser at `lx` can still yield: the weight of the
/// arguments it has not read, the characters left in a cluster of short
/// options, and one for a value after `=` not yet taken.
pub open spec fn lex_weight(lx: LexState) -> nat {
    rest_weight(lx.rest) + match lx.mode {
        LexMode::Pending(_) => 1nat,
        LexMode::Shorts(a, pos) => if pos <= a.len() {
            (a.len() - pos) as nat
        } else {
            0nat
        },
        _ => 0nat,
    }
}

/// The weight of arguments counted from the front.
proof fn lemma_weight_first(rest: Seq<Seq<char>>)
    requires
        rest.len() > 0,
    ensures
        rest_weight(rest) == rest[0].len() + 1 + rest_weight(rest.drop_first()),
    decreases rest.len(),
{
    if rest.len() == 1 {
        assert(rest.drop_last() =~= Seq::<Seq<char>>::empty());
        assert(rest.drop_first() =~= Seq::<Seq<char>>::empty());
    } else {
        lemma_weight_first(rest.drop_last());
        assert(rest.drop_last().drop_first() =~= rest.drop_first().drop_last());
        assert(rest.drop_last()[0] == rest[0]);
        assert(rest.drop_first().last() == rest.last());
    }
}

/// Each argument `next` yields leaves the parser lighter.
proof fn lemma_lex_next_lighter(lx: LexState)
    ensures
        lex_next(lx).0 is Arg ==> lex_weight(lex_next(lx).1) < lex_weight(lx),
{
    let rest = lx.rest;
    if rest.len() > 0 {
        lemma_weight_first(rest);
        if rest.drop_first().len() > 0 {
            lemma_weight_first(rest.drop_first());
        }
    }
}

/// Taking a value never makes the parser heavier.
proof fn lemma_lex_value_lighter(lx: LexState)
    ensures
        lex_weight(lex_value(lx).1) <= lex_weight(lx),
{
    if lx.rest.len() > 0 {
        lemma_weight_first(lx.rest);
    }
}

/// With more fuel than the parser's weight, reading never runs out.
proof fn lemma_run_has_fuel(v: CliView, lx: LexState, fuel: nat)
    requires
        fuel > lex_weight(lx),
    ensures
        run_spec(v, lx, fuel) != ParseOutcome::Message(too_many_message()),
    decreases fuel,
{
    reveal_strlit("too many arguments");
    reveal_strlit("--heading-lines must be at least 1");
    assert(zero_heading_lines_message()[0] != too_many_message()[0]);
    let (o, lx2) = lex_next(lx);
    lemma_lex_next_lighter(lx);
    lemma_lex_value_lighter(lx2);
    let (t, lx3) = lex_value(lx2);
    match o {
        LexNext::Arg(a) => {
            let f = (fuel - 1) as nat;
            lemma_run_has_fuel(apply_of(v, a), lx2, f);
            if let Some(t) = t {
                lemma_run_has_fuel(CliView { pattern: Some(t), ..v }, lx3, f);
                if let Some(n) = count_of(t) {
                    lemma_run_has_fuel(CliView { header: n, ..v }, lx3, f);
                    lemma_run_has_fuel(CliView { lines: Some(n), ..v }, lx3, f);
                }
            }
        },
        _ => {},
    }
}

/// The weight of the arguments after the program's name, `m`, is less than
/// the token count.
proof fn lemma_tokens_cover_weight(args: Seq<String>, m: Seq<Seq<char>>, i: int)
    requires
        1 <= i <= args.len(),
        m.len() == args.len() - 1,
        forall|j: int| 0 <= j < m.len() ==> #[trigger] m[j] == args[j + 1]@,
    ensures
        token_count(args, i) > rest_weight(m.take(i - 1)),
    decreases i,
{
    assert(token_count(args, i) == token_count(args, i - 1) + args[i - 1]@.len() + 1);
    if i == 1 {
        assert(token_count(args, 0) == 1);
        assert(m.take(0) =~= Seq::<Seq<char>>::empty());
        assert(rest_weight(m.take(0)) == 0);
    } else {
        lemma_tokens_cover_weight(args, m, i - 1);
        let t = m.take(i - 1);
        assert(t.drop_last() =~= m.take(i - 2));
        assert(t.last() == m[i - 2]);
        assert(rest_weight(t) == rest_weight(t.drop_last()) + t.last().len() + 1);
    }
}

/// The arguments never run out: `lexopt` yields no more arguments than the
/// command line has characters and arguments, so reading a command line
/// whose count of those fits a `usize` never ends in the "too many
/// arguments" error.
pub proof fn law_arguments_never_run_out(args: Seq<String>)
    requires
        token_count(args, args.len() as int) <= usize::MAX,
    ensures
        parse_spec(args) != ParseOutcome::Message(too_many_message()),
{
    let lx = initial_lex(args);
    if args.len() > 0 {
        let m = lx.rest;
        assert(m.len() == args.len() - 1);
        assert forall|j: int| 0 <= j < m.len() implies #[trigger] m[j] == args[j + 1]@ by {
            assert(args.skip(1)[j] == args[j + 1]);
        }
        lemma_tokens_cover_weight(args, m, args.len() as int);
        assert(m.take(args.len() - 1) =~= m);
    } else {
        assert(lx.rest.len() == 0);
    }
    lemma_token_count_grows(args, args.len() as int);
    lemma_run_has_fuel(empty_view(), lx, token_count(args, args.len() as int) as nat);
}

/// Parse a command line. The first item is the program's name; `lexopt`
/// splits the rest into options and values, which `CliState::apply` reads.
pub fn parse_from_args(args: Vec<String>) -> (r: Result<Action, CliError>)
    ensures
        outcome_holds(parse_spec(args@), r),
{
    let ghost all = args@;
    let mut budget = token_limit(&args);
    let mut parser = new_parser(args);
    let mut state = CliState::new();
    while budget > 0
        invariant
            run_spec(state.view_of(), parser.spec_model(), budget as nat) == parse_spec(all),
            all == args@,
        decreases budget,
    {
        let ghost before = state.view_of();
        let ghost lx = parser.spec_model();
        let ghost fuel = budget as nat;
        budget = budget - 1;
        let arg = match next_arg(&mut parser) {
            Err(e) => {
                proof {
                    assert(lex_next(lx).0 is Failed);
                    assert(run_spec(before, lx, fuel) == ParseOutcome::Failed);
                }
                return Err(from_arg_error(e));
            },
            Ok(None) => {
                proof {
                    assert(lex_next(lx).0 is Done);
                    assert(run_spec(before, lx, fuel) == ParseOutcome::Finish(before));
                }
                let r = state.finish();
                return r;
            },
            Ok(Some(a)) => a,
        };
        proof {
            assert(step_spec(state, arg) == step_of(before, arg.view_of()));
        }
        match state.apply(&arg) {
            Step::Continue => {
                proof {
                    assert(state.view_of() == apply_of(before, arg.view_of()));
                }
            },
            Step::Print(m) => {
                return Ok(Action::Print(m));
            },
            Step::Unexpected => {
                return Err(from_arg_error(unexpected(&arg)));
            },
            Step::Value(ValueOption::Header) => match next_count(&mut parser) {
                Ok(n) => {
                    state.header = n;
                    proof {
                        assert(state.view_of() == CliView { header: n, ..before });
                    }
                },
                Err(e) => {
                    return Err(from_arg_error(e));
                },
            },
            Step::Value(ValueOption::Heading) => match next_text(&mut parser) {
                Ok(t) => {
                    state.heading_pattern = Some(t);
                    proof {
                        assert(state.view_of() == CliView { pattern: Some(t@), ..before });
                    }
                },
                Err(e) => {
                    return Err(from_arg_error(e));
                },
            },
            Step::Value(ValueOption::HeadingLines) => match next_count(&mut parser) {
                Ok(n) => {
                    if n == 0 {
                        return Err(error_with("--heading-lines must be at least 1"));
                    }
                    state.heading_lines = Some(n);
                    proof {
                        assert(state.view_of() == CliView { lines: Some(n), ..before });
                    }
                },
                Err(e) => {
                    return Err(from_arg_error(e));
                },
            },
        }
    }
    Err(error_with("too many arguments"))
}

} // verus!
