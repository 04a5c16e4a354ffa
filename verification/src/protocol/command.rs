//! POP3 command parser.

use vstd::prelude::*;

use crate::text::{
    ascii_lower_char, chars_eq, find_char, is_ascii_text, lemma_case_forms_ignore_ascii_case, is_white_space, lemma_first_index, lemma_leading_ws,
    lemma_trailing_ws, lemma_trailing_ws_facts, lemma_trim_surrounded, next_token,
    next_token_bounds, parse_u32, parse_u32_range, same_ignoring_ascii_case, spec_to_uppercase, split_once, str_chars,
    string_from_range, to_uppercase, trailing_ws, trim, trim_bounds,
};

verus! {

/// Why a line is not a POP3 command.
#[derive(Debug)]
pub enum ParseError {
    Empty,
    Unknown(String),
    InvalidArgument(String),
    MissingArgument,
}

/// POP3 commands.
#[derive(Debug, Clone, PartialEq)]
pub enum Command {
    // AUTHORIZATION state commands
    User(String),
    Pass(String),
    /// username, digest
    Apop(String, String),
    // TRANSACTION state commands
    Stat,
    List(Option<u32>),
    Retr(u32),
    Dele(u32),
    Noop,
    Rset,
    Uidl(Option<u32>),
    /// message number, lines
    Top(u32, u32),
    // Any state commands
    Quit,
    Capa,
}

/// The mathematical value of a [`Command`].
pub enum CommandView {
    User(Seq<char>),
    Pass(Seq<char>),
    Apop(Seq<char>, Seq<char>),
    Stat,
    List(Option<u32>),
    Retr(u32),
    Dele(u32),
    Noop,
    Rset,
    Uidl(Option<u32>),
    Top(u32, u32),
    Quit,
    Capa,
}

/// The mathematical value of a [`ParseError`].
pub enum ParseErrorView {
    Empty,
    Unknown(Seq<char>),
    InvalidArgument(Seq<char>),
    MissingArgument,
}

impl View for Command {
    type V = CommandView;

    open spec fn view(&self) -> CommandView {
        match self {
            Command::User(u) => CommandView::User(u@),
            Command::Pass(p) => CommandView::Pass(p@),
            Command::Apop(u, d) => CommandView::Apop(u@, d@),
            Command::Stat => CommandView::Stat,
            Command::List(n) => CommandView::List(*n),
            Command::Retr(n) => CommandView::Retr(*n),
            Command::Dele(n) => CommandView::Dele(*n),
            Command::Noop => CommandView::Noop,
            Command::Rset => CommandView::Rset,
            Command::Uidl(n) => CommandView::Uidl(*n),
            Command::Top(n, l) => CommandView::Top(*n, *l),
            Command::Quit => CommandView::Quit,
            Command::Capa => CommandView::Capa,
        }
    }
}

impl View for ParseError {
    type V = ParseErrorView;

    open spec fn view(&self) -> ParseErrorView {
        match self {
            ParseError::Empty => ParseErrorView::Empty,
            ParseError::Unknown(s) => ParseErrorView::Unknown(s@),
            ParseError::InvalidArgument(s) => ParseErrorView::InvalidArgument(s@),
            ParseError::MissingArgument => ParseErrorView::MissingArgument,
        }
    }
}

/// The view of a parse result.
pub open spec fn parse_result_view(r: Result<Command, ParseError>) -> Result<CommandView, ParseErrorView> {
    match r {
        Ok(c) => Ok(c@),
        Err(e) => Err(e@),
    }
}

/// Text of the error for a message number of zero.
pub open spec fn msg_not_positive() -> Seq<char> {
    "Message number must be positive"@
}

/// A positive message number argument.
pub open spec fn spec_message_number(args: Seq<char>) -> Result<u32, ParseErrorView> {
    match parse_u32(args) {
        None => Err(ParseErrorView::InvalidArgument(args)),
        Some(n) => if n == 0 {
            Err(ParseErrorView::InvalidArgument(msg_not_positive()))
        } else {
            Ok(n)
        },
    }
}

/// An optional positive message number argument (absent when `args` is empty).
pub open spec fn spec_optional_number(args: Seq<char>) -> Result<Option<u32>, ParseErrorView> {
    if args.len() == 0 {
        Ok(None)
    } else {
        match spec_message_number(args) {
            Ok(n) => Ok(Some(n)),
            Err(e) => Err(e),
        }
    }
}

/// A required positive message number argument.
pub open spec fn spec_required_number(args: Seq<char>) -> Result<u32, ParseErrorView> {
    if args.len() == 0 {
        Err(ParseErrorView::MissingArgument)
    } else {
        spec_message_number(args)
    }
}

/// The `TOP` arguments: a message number and a line count, the first two
/// whitespace-separated tokens.
pub open spec fn spec_top(args: Seq<char>) -> Result<CommandView, ParseErrorView> {
    match next_token(args) {
        None => Err(ParseErrorView::MissingArgument),
        Some((t1, rest)) => match parse_u32(t1) {
            None => Err(ParseErrorView::InvalidArgument("Invalid message number"@)),
            Some(m) => match next_token(rest) {
                None => Err(ParseErrorView::MissingArgument),
                Some((t2, _)) => match parse_u32(t2) {
                    None => Err(ParseErrorView::InvalidArgument("Invalid line count"@)),
                    Some(l) => if m == 0 {
                        Err(ParseErrorView::InvalidArgument(msg_not_positive()))
                    } else {
                        Ok(CommandView::Top(m, l))
                    },
                },
            },
        },
    }
}

/// The command named by the upper-cased keyword `kw` with trimmed arguments `args`.
pub open spec fn spec_parse_keyword(kw: Seq<char>, args: Seq<char>) -> Result<CommandView, ParseErrorView> {
    if kw == "USER"@ {
        if args.len() == 0 {
            Err(ParseErrorView::MissingArgument)
        } else {
            Ok(CommandView::User(args))
        }
    } else if kw == "PASS"@ {
        if args.len() == 0 {
            Err(ParseErrorView::MissingArgument)
        } else {
            Ok(CommandView::Pass(args))
        }
    } else if kw == "APOP"@ {
        let (user, digest) = split_once(args, ' ');
        if user.len() == 0 || digest.len() == 0 {
            Err(ParseErrorView::MissingArgument)
        } else {
            Ok(CommandView::Apop(user, digest))
        }
    } else if kw == "STAT"@ {
        Ok(CommandView::Stat)
    } else if kw == "LIST"@ {
        match spec_optional_number(args) {
            Ok(n) => Ok(CommandView::List(n)),
            Err(e) => Err(e),
        }
    } else if kw == "RETR"@ {
        match spec_required_number(args) {
            Ok(n) => Ok(CommandView::Retr(n)),
            Err(e) => Err(e),
        }
    } else if kw == "DELE"@ {
        match spec_required_number(args) {
            Ok(n) => Ok(CommandView::Dele(n)),
            Err(e) => Err(e),
        }
    } else if kw == "NOOP"@ {
        Ok(CommandView::Noop)
    } else if kw == "RSET"@ {
        Ok(CommandView::Rset)
    } else if kw == "UIDL"@ {
        match spec_optional_number(args) {
            Ok(n) => Ok(CommandView::Uidl(n)),
            Err(e) => Err(e),
        }
    } else if kw == "TOP"@ {
        spec_top(args)
    } else if kw == "QUIT"@ {
        Ok(CommandView::Quit)
    } else if kw == "CAPA"@ {
        Ok(CommandView::Capa)
    } else {
        Err(ParseErrorView::Unknown(kw))
    }
}

/// The command on a line: the line is trimmed, its first word (up to the
/// first space) is upper-cased and names the command, and the rest, trimmed,
/// holds the arguments.
pub open spec fn spec_parse_line(line: Seq<char>) -> Result<CommandView, ParseErrorView> {
    let t = trim(line);
    if t.len() == 0 {
        Err(ParseErrorView::Empty)
    } else {
        let (word, rest) = split_once(t, ' ');
        spec_parse_keyword(spec_to_uppercase(word), trim(rest))
    }
}

/// What is left of `rest` (nothing, or a space and then the arguments)
/// once trailing white space is cut.
pub open spec fn rest_trimmed(rest: Seq<char>) -> Seq<char> {
    rest.take(rest.len() - trailing_ws(rest))
}

/// The argument text a keyword followed by `rest` gives.
pub open spec fn args_of(rest: Seq<char>) -> Seq<char> {
    if rest_trimmed(rest).len() == 0 {
        Seq::empty()
    } else {
        rest_trimmed(rest).skip(1)
    }
}

/// A keyword followed by nothing or a space and the rest trims to itself
/// and the trimmed rest, and splits at its first space into the keyword and
/// the arguments.
proof fn lemma_line_parts(kw: Seq<char>, rest: Seq<char>)
    requires
        kw.len() > 0,
        forall|i: int| 0 <= i < kw.len() ==> !is_white_space(#[trigger] kw[i]),
        rest.len() == 0 || rest[0] == ' ',
    ensures
        trim(kw + rest) == kw + rest_trimmed(rest),
        split_once(trim(kw + rest), ' ') == (kw, args_of(rest)),
{
    let x = kw + rest;
    assert(x[0] == kw[0]);
    lemma_leading_ws(x, 0);
    assert(x.skip(0) =~= x);
    lemma_trailing_ws_facts(rest);
    let q = trailing_ws(rest);
    assert forall|j: int| x.len() - q <= j < x.len() implies is_white_space(#[trigger] x[j]) by {
        assert(x[j] == rest[j - kw.len()]);
    }
    if q < rest.len() {
        assert(x[x.len() - q - 1] == rest[rest.len() - q - 1]);
    } else {
        assert(x[x.len() - q - 1] == kw[kw.len() - 1]);
    }
    lemma_trailing_ws(x, q as int);
    let t = kw + rest_trimmed(rest);
    assert(trim(x) =~= t);
    let r = rest_trimmed(rest);
    assert forall|j: int| 0 <= j < kw.len() implies #[trigger] t[j] != ' ' by {
        assert(t[j] == kw[j]);
        assert(is_white_space(' '));
    }
    if r.len() == 0 {
        lemma_first_index(t, ' ', t.len() as int);
        assert(t =~= kw);
    } else {
        assert(r[0] == rest[0]);
        assert(t[kw.len() as int] == ' ');
        lemma_first_index(t, ' ', kw.len() as int);
        assert(t.take(kw.len() as int) =~= kw);
        assert(t.skip((kw.len() + 1) as int) =~= r.skip(1));
    }
}

/// White space around a command does not change how it is read.
pub proof fn lemma_surrounding_white_space_ignored(before: Seq<char>, line: Seq<char>, after: Seq<char>)
    requires
        forall|j: int| 0 <= j < before.len() ==> is_white_space(#[trigger] before[j]),
        forall|j: int| 0 <= j < after.len() ==> is_white_space(#[trigger] after[j]),
    ensures
        spec_parse_line(before + line + after) == spec_parse_line(line),
{
    lemma_trim_surrounded(before, line, after);
}

/// Commands are read without regard to the case of their keyword: a
/// keyword (no white space in it) followed by the same rest (nothing, or a
/// space and the arguments) parses alike whatever the case of its letters,
/// when the two spellings have the same upper-case form.
pub proof fn lemma_keyword_case_ignored(kw1: Seq<char>, kw2: Seq<char>, rest: Seq<char>)
    requires
        kw1.len() > 0,
        kw2.len() > 0,
        forall|i: int| 0 <= i < kw1.len() ==> !is_white_space(#[trigger] kw1[i]),
        forall|i: int| 0 <= i < kw2.len() ==> !is_white_space(#[trigger] kw2[i]),
        rest.len() == 0 || rest[0] == ' ',
        spec_to_uppercase(kw1) == spec_to_uppercase(kw2),
    ensures
        spec_parse_line(kw1 + rest) == spec_parse_line(kw2 + rest),
{
    lemma_line_parts(kw1, rest);
    lemma_line_parts(kw2, rest);
}

/// Commands are read without regard to the case of their keyword: an ASCII
/// keyword (no white space in it) followed by a rest (nothing, or a space
/// and the arguments) parses exactly as the same keyword with the case of
/// any of its letters changed, followed by the same rest.
pub proof fn lemma_keyword_ascii_case_ignored(kw1: Seq<char>, kw2: Seq<char>, rest: Seq<char>)
    requires
        kw1.len() > 0,
        forall|i: int| 0 <= i < kw1.len() ==> !is_white_space(#[trigger] kw1[i]),
        is_ascii_text(kw1),
        same_ignoring_ascii_case(kw1, kw2),
        rest.len() == 0 || rest[0] == ' ',
    ensures
        spec_parse_line(kw1 + rest) == spec_parse_line(kw2 + rest),
{
    lemma_case_forms_ignore_ascii_case(kw1, kw2);
    assert forall|i: int| 0 <= i < kw2.len() implies !is_white_space(#[trigger] kw2[i]) by {
        let x = kw1[i];
        let y = kw2[i];
        assert(ascii_lower_char(x) == ascii_lower_char(y));
        assert(!is_white_space(x));
        if 65 <= (y as u32) <= 90 {
        } else {
            assert(ascii_lower_char(y) == y);
            if 65 <= (x as u32) <= 90 {
                assert(ascii_lower_char(x) as u32 == (x as u32) + 32);
            } else {
                assert(x == y);
            }
        }
    }
    lemma_keyword_case_ignored(kw1, kw2, rest);
}

/// The message of a parse error, as the server reports it.
pub open spec fn spec_parse_error_message(e: ParseErrorView) -> Seq<char> {
    match e {
        ParseErrorView::Empty => "Empty command"@,
        ParseErrorView::Unknown(s) => "Unknown command: "@ + s,
        ParseErrorView::InvalidArgument(s) => "Invalid argument: "@ + s,
        ParseErrorView::MissingArgument => "Missing argument"@,
    }
}

impl ParseError {
    /// The error's message (`"Unknown command: XYZ"`, ...).
    pub fn message(&self) -> (r: String)
        ensures
            r@ == spec_parse_error_message(self@),
    {
        match self {
            ParseError::Empty => "Empty command".to_owned(),
            ParseError::Unknown(s) => {
                let mut r = "Unknown command: ".to_owned();
                crate::text::push_str(&mut r, s.as_str());
                r
            },
            ParseError::InvalidArgument(s) => {
                let mut r = "Invalid argument: ".to_owned();
                crate::text::push_str(&mut r, s.as_str());
                r
            },
            ParseError::MissingArgument => "Missing argument".to_owned(),
        }
    }
}

/// A positive message number held in `args`.
fn message_number(args: &str) -> (r: Result<u32, ParseError>)
    ensures
        match r {
            Ok(n) => spec_message_number(args@) == Ok::<u32, ParseErrorView>(n),
            Err(e) => spec_message_number(args@) == Err::<u32, ParseErrorView>(e@),
        },
{
    let v = str_chars(args);
    assert(v@.subrange(0, v@.len() as int) == v@);
    match parse_u32_range(&v, 0, v.len()) {
        None => Err(ParseError::InvalidArgument(args.to_owned())),
        Some(n) => if n == 0 {
            Err(ParseError::InvalidArgument("Message number must be positive".to_owned()))
        } else {
            Ok(n)
        },
    }
}

/// An optional positive message number held in `args`.
fn optional_number(args: &str) -> (r: Result<Option<u32>, ParseError>)
    ensures
        match r {
            Ok(n) => spec_optional_number(args@) == Ok::<Option<u32>, ParseErrorView>(n),
            Err(e) => spec_optional_number(args@) == Err::<Option<u32>, ParseErrorView>(e@),
        },
{
    if args.is_empty() {
        Ok(None)
    } else {
        match message_number(args) {
            Ok(n) => Ok(Some(n)),
            Err(e) => Err(e),
        }
    }
}

/// A required positive message number held in `args`.
fn required_number(args: &str) -> (r: Result<u32, ParseError>)
    ensures
        match r {
            Ok(n) => spec_required_number(args@) == Ok::<u32, ParseErrorView>(n),
            Err(e) => spec_required_number(args@) == Err::<u32, ParseErrorView>(e@),
        },
{
    if args.is_empty() {
        Err(ParseError::MissingArgument)
    } else {
        message_number(args)
    }
}

/// Whether the characters `kw` spell `word`.
fn is_keyword(kw: &[char], word: &str) -> (r: bool)
    ensures
        r == (kw@ == word@),
{
    let w = str_chars(word);
    chars_eq(kw, &w)
}

/// POP3 command parser.
pub struct CommandParser;

impl CommandParser {
    /// Parse a POP3 command from a line.
    pub fn parse(line: &str) -> (r: Result<Command, ParseError>)
        ensures
            parse_result_view(r) == spec_parse_line(line@),
    {
        let v = str_chars(line);
        let (a, b) = trim_bounds(&v);
        if a == b {
            return Err(ParseError::Empty);
        }
        let ghost t = v@.subrange(a as int, b as int);
        let (word, rest) = match find_char(&v, a, b, ' ') {
            Some(i) => {
                proof {
                    assert(t.take(i - a) == v@.subrange(a as int, i as int));
                    assert(t.skip(i - a + 1) == v@.subrange(i + 1, b as int));
                }
                (string_from_range(&v, a, i), string_from_range(&v, i + 1, b))
            },
            None => (string_from_range(&v, a, b), String::new()),
        };
        assert(split_once(t, ' ') == (word@, rest@));
        let rv = str_chars(rest.as_str());
        let (ra, rb) = trim_bounds(&rv);
        let args = string_from_range(&rv, ra, rb);
        let keyword = to_uppercase(word.as_str());
        Self::parse_keyword(keyword.as_str(), args.as_str())
    }

    /// The command named by an upper-cased keyword, with its trimmed arguments.
    pub fn parse_keyword(keyword: &str, args: &str) -> (r: Result<Command, ParseError>)
        ensures
            parse_result_view(r) == spec_parse_keyword(keyword@, args@),
    {
        let kw = str_chars(keyword);
        if is_keyword(&kw, "USER") {
            if args.is_empty() {
                Err(ParseError::MissingArgument)
            } else {
                Ok(Command::User(args.to_owned()))
            }
        } else if is_keyword(&kw, "PASS") {
            if args.is_empty() {
                Err(ParseError::MissingArgument)
            } else {
                Ok(Command::Pass(args.to_owned()))
            }
        } else if is_keyword(&kw, "APOP") {
            let av = str_chars(args);
            assert(av@.subrange(0, av@.len() as int) == av@);
            match find_char(&av, 0, av.len(), ' ') {
                None => Err(ParseError::MissingArgument),
                Some(i) => {
                    proof {
                        assert(av@.take(i as int) == av@.subrange(0, i as int));
                        assert(av@.skip(i + 1) == av@.subrange(i + 1, av@.len() as int));
                    }
                    if i == 0 || i + 1 == av.len() {
                        Err(ParseError::MissingArgument)
                    } else {
                        Ok(
                            Command::Apop(
                                string_from_range(&av, 0, i),
                                string_from_range(&av, i + 1, av.len()),
                            ),
                        )
                    }
                },
            }
        } else if is_keyword(&kw, "STAT") {
            Ok(Command::Stat)
        } else if is_keyword(&kw, "LIST") {
            match optional_number(args) {
                Ok(n) => Ok(Command::List(n)),
                Err(e) => Err(e),
            }
        } else if is_keyword(&kw, "RETR") {
            match required_number(args) {
                Ok(n) => Ok(Command::Retr(n)),
                Err(e) => Err(e),
            }
        } else if is_keyword(&kw, "DELE") {
            match required_number(args) {
                Ok(n) => Ok(Command::Dele(n)),
                Err(e) => Err(e),
            }
        } else if is_keyword(&kw, "NOOP") {
            Ok(Command::Noop)
        } else if is_keyword(&kw, "RSET") {
            Ok(Command::Rset)
        } else if is_keyword(&kw, "UIDL") {
            match optional_number(args) {
                Ok(n) => Ok(Command::Uidl(n)),
                Err(e) => Err(e),
            }
        } else if is_keyword(&kw, "TOP") {
            Self::parse_top(args)
        } else if is_keyword(&kw, "QUIT") {
            Ok(Command::Quit)
        } else if is_keyword(&kw, "CAPA") {
            Ok(Command::Capa)
        } else {
            Err(ParseError::Unknown(keyword.to_owned()))
        }
    }

    /// The `TOP` command with arguments `args`.
    fn parse_top(args: &str) -> (r: Result<Command, ParseError>)
        ensures
            parse_result_view(r) == spec_top(args@),
    {
        let av = str_chars(args);
        assert(av@.skip(0) == av@);
        match next_token_bounds(&av, 0) {
            None => Err(ParseError::MissingArgument),
            Some((a1, b1)) => match parse_u32_range(&av, a1, b1) {
                None => Err(ParseError::InvalidArgument("Invalid message number".to_owned())),
                Some(m) => match next_token_bounds(&av, b1) {
                    None => Err(ParseError::MissingArgument),
                    Some((a2, b2)) => match parse_u32_range(&av, a2, b2) {
                        None => Err(ParseError::InvalidArgument("Invalid line count".to_owned())),
                        Some(l) => if m == 0 {
                            Err(
                                ParseError::InvalidArgument(
                                    "Message number must be positive".to_owned(),
                                ),
                            )
                        } else {
                            Ok(Command::Top(m, l))
                        },
                    },
                },
            },
        }
    }
}

} // verus!
