//! POP3 response formatter.

use vstd::prelude::*;

use crate::text::{lemma_first_index, lines, push_str, string_views, strip_cr};

verus! {

/// POP3 response.
#[derive(Debug, Clone)]
pub enum Response {
    /// Single-line positive response (`+OK`)
    Positive(String),
    /// Single-line negative response (`-ERR`)
    Negative(String),
    /// Multi-line response
    MultiLine { status: String, lines: Vec<String> },
}

/// The mathematical value of a [`Response`].
pub enum ResponseView {
    Positive(Seq<char>),
    Negative(Seq<char>),
    MultiLine(Seq<char>, Seq<Seq<char>>),
}

impl View for Response {
    type V = ResponseView;

    open spec fn view(&self) -> ResponseView {
        match self {
            Response::Positive(m) => ResponseView::Positive(m@),
            Response::Negative(m) => ResponseView::Negative(m@),
            Response::MultiLine { status, lines } => ResponseView::MultiLine(
                status@,
                string_views(lines@),
            ),
        }
    }
}

/// The line terminator.
pub open spec fn crlf() -> Seq<char> {
    "\r\n"@
}

/// A status line: the indicator, then a space and the message unless it is empty.
pub open spec fn status_line(indicator: Seq<char>, message: Seq<char>) -> Seq<char> {
    if message.len() == 0 {
        indicator + crlf()
    } else {
        indicator + " "@ + message + crlf()
    }
}

/// Whether a line must be byte-stuffed (it starts with a period).
pub open spec fn needs_stuffing(line: Seq<char>) -> bool {
    line.len() > 0 && line[0] == '.'
}

/// A line of a multi-line body, byte-stuffed: a line that starts with a
/// period gets another period in front.
pub open spec fn stuffed(line: Seq<char>) -> Seq<char> {
    if needs_stuffing(line) {
        "."@ + line
    } else {
        line
    }
}

/// The body of a multi-line response: each line byte-stuffed and terminated.
pub open spec fn body(lines: Seq<Seq<char>>) -> Seq<char>
    decreases lines.len(),
{
    if lines.len() == 0 {
        Seq::empty()
    } else {
        body(lines.drop_last()) + stuffed(lines.last()) + crlf()
    }
}

/// The wire form of a response.
pub open spec fn render(r: ResponseView) -> Seq<char> {
    match r {
        ResponseView::Positive(m) => status_line("+OK"@, m),
        ResponseView::Negative(m) => status_line("-ERR"@, m),
        ResponseView::MultiLine(status, lines) => status_line("+OK"@, status) + body(lines)
            + ".\r\n"@,
    }
}

/// The reverse of byte-stuffing: one leading period is removed.
pub open spec fn unstuffed(line: Seq<char>) -> Seq<char> {
    if line.len() > 0 && line[0] == '.' {
        line.drop_first()
    } else {
        line
    }
}

/// Byte-stuffing is undone by removing one leading period, and no stuffed
/// line is the lone period that ends a multi-line response.
pub proof fn lemma_stuffing_reversible(line: Seq<char>)
    ensures
        unstuffed(stuffed(line)) == line,
        stuffed(line) != "."@,
{
    reveal_strlit(".");
    if needs_stuffing(line) {
        assert(("."@ + line)[0] == '.');
        assert(("."@ + line).drop_first() =~= line);
        assert(("."@ + line).len() >= 2);
    } else if line.len() == 1 {
        assert(line[0] != '.');
        assert(line != "."@) by {
            assert("."@[0] == '.');
        }
    }
}

/// Whether a text holds no line break (`\r` or `\n`).
pub open spec fn no_line_break(l: Seq<char>) -> bool {
    !l.contains('\r') && !l.contains('\n')
}

/// The first line of a positive response: `+OK`, then a space and the
/// message unless it is empty.
pub open spec fn positive_head(message: Seq<char>) -> Seq<char> {
    if message.len() == 0 {
        "+OK"@
    } else {
        "+OK "@ + message
    }
}

/// The lines of a multi-line body as sent: each byte-stuffed.
pub open spec fn stuffed_lines(ls: Seq<Seq<char>>) -> Seq<Seq<char>> {
    ls.map_values(|l: Seq<char>| stuffed(l))
}

/// A line without a line break, then CRLF: splitting gives that line, then
/// the lines of what follows.
proof fn lemma_lines_after_line(x: Seq<char>, rest: Seq<char>)
    requires
        no_line_break(x),
    ensures
        lines(x + crlf() + rest) == seq![x] + lines(rest),
{
    reveal_strlit("\r\n");
    let s = x + crlf() + rest;
    assert forall|j: int| 0 <= j < x.len() + 1 implies #[trigger] s[j] != '\n' by {
        if j < x.len() {
            assert(s[j] == x[j]);
            if x[j] == '\n' {
                assert(x.contains('\n'));
            }
        } else {
            assert(s[j] == '\r');
        }
    }
    assert(s[(x.len() + 1) as int] == '\n');
    lemma_first_index(s, '\n', (x.len() + 1) as int);
    assert(s.take((x.len() + 1) as int) =~= x.push('\r'));
    assert(strip_cr(x.push('\r')) =~= x);
    assert(s.skip((x.len() + 2) as int) =~= rest);
}

/// Byte-stuffing adds no line break.
proof fn lemma_stuffed_no_line_break(l: Seq<char>)
    requires
        no_line_break(l),
    ensures
        no_line_break(stuffed(l)),
{
    reveal_strlit(".");
    if needs_stuffing(l) {
        let t = "."@ + l;
        if t.contains('\r') {
            let j = choose|j: int| 0 <= j < t.len() && t[j] == '\r';
            assert(j > 0 ==> t[j] == l[j - 1]);
            if j > 0 {
                assert(l.contains('\r'));
            }
        }
        if t.contains('\n') {
            let j = choose|j: int| 0 <= j < t.len() && t[j] == '\n';
            assert(j > 0 ==> t[j] == l[j - 1]);
            if j > 0 {
                assert(l.contains('\n'));
            }
        }
    }
}

/// The body of a multi-line answer splits back into its lines, each
/// byte-stuffed.
proof fn lemma_lines_of_body(ls: Seq<Seq<char>>, tail: Seq<char>)
    requires
        forall|i: int| 0 <= i < ls.len() ==> no_line_break(#[trigger] ls[i]),
    ensures
        lines(body(ls) + tail) == stuffed_lines(ls) + lines(tail),
    decreases ls.len(),
{
    if ls.len() == 0 {
        assert(body(ls) + tail =~= tail);
        assert(stuffed_lines(ls) + lines(tail) =~= lines(tail));
    } else {
        let init = ls.drop_last();
        let last = ls.last();
        let tail2 = stuffed(last) + crlf() + tail;
        assert(body(ls) + tail =~= body(init) + tail2);
        lemma_lines_of_body(init, tail2);
        lemma_stuffed_no_line_break(last);
        lemma_lines_after_line(stuffed(last), tail);
        assert(stuffed_lines(ls) =~= stuffed_lines(init).push(stuffed(last)));
        assert(stuffed_lines(ls) + lines(tail) =~= stuffed_lines(init) + (seq![stuffed(last)]
            + lines(tail)));
    }
}

/// Line framing of a multi-line response: when the status and the lines
/// hold no line break, a client that splits the response at its line ends
/// reads the status line, then each line byte-stuffed, then the lone `.`
/// that ends it; no stuffed line is that `.`, and removing one leading period
/// from each gives the lines back.
pub proof fn lemma_multiline_framing(status: Seq<char>, ls: Seq<Seq<char>>)
    requires
        no_line_break(status),
        forall|i: int| 0 <= i < ls.len() ==> no_line_break(#[trigger] ls[i]),
    ensures
        lines(render(ResponseView::MultiLine(status, ls))) == seq![positive_head(status)]
            + stuffed_lines(ls) + seq!["."@],
        forall|i: int|
            0 <= i < ls.len() ==> (#[trigger] stuffed_lines(ls)[i]) != "."@ && unstuffed(
                stuffed_lines(ls)[i],
            ) == ls[i],
{
    reveal_strlit("+OK");
    reveal_strlit("+OK ");
    reveal_strlit(" ");
    reveal_strlit(".\r\n");
    reveal_strlit(".");
    reveal_strlit("\r\n");
    let head = positive_head(status);
    assert(status_line("+OK"@, status) =~= head + crlf());
    assert forall|j: int| 0 <= j < head.len() implies #[trigger] head[j] != '\r' && head[j] != '\n' by {
        if status.len() > 0 && j >= 4 {
            assert(head[j] == status[j - 4]);
            if status[j - 4] == '\r' {
                assert(status.contains('\r'));
            }
            if status[j - 4] == '\n' {
                assert(status.contains('\n'));
            }
        }
    }
    assert(!head.contains('\r') && !head.contains('\n'));
    let end = ".\r\n"@;
    let r = render(ResponseView::MultiLine(status, ls));
    assert(r =~= head + crlf() + (body(ls) + end));
    lemma_lines_after_line(head, body(ls) + end);
    lemma_lines_of_body(ls, end);
    assert(end =~= "."@ + crlf() + Seq::<char>::empty());
    assert(!"."@.contains('\r') && !"."@.contains('\n')) by {
        assert("."@.len() == 1);
    }
    lemma_lines_after_line("."@, Seq::<char>::empty());
    assert(lines(end) =~= seq!["."@]);
    assert(seq![head] + (stuffed_lines(ls) + seq!["."@]) =~= seq![head] + stuffed_lines(ls)
        + seq!["."@]);
    assert forall|i: int| 0 <= i < ls.len() implies (#[trigger] stuffed_lines(ls)[i]) != "."@
        && unstuffed(stuffed_lines(ls)[i]) == ls[i] by {
        lemma_stuffing_reversible(ls[i]);
    }
}

/// Adding a line to a multi-line response adds its stuffed form to the body.
pub proof fn lemma_body_push(lines: Seq<Seq<char>>, line: Seq<char>)
    ensures
        body(lines.push(line)) == body(lines) + stuffed(line) + crlf(),
{
    assert(lines.push(line).drop_last() =~= lines);
}

/// A line of text written for a multi-line body, byte-stuffed.
fn push_body_line(out: &mut String, line: &str)
    ensures
        final(out)@ == old(out)@ + stuffed(line@) + crlf(),
{
    let v = crate::text::str_chars(line);
    if v.len() > 0 && v[0] == '.' {
        push_str(out, ".");
    }
    push_str(out, line);
    push_str(out, "\r\n");
    proof {
        if needs_stuffing(line@) {
            assert(final(out)@ =~= old(out)@ + stuffed(line@) + crlf());
        } else {
            assert(final(out)@ =~= old(out)@ + stuffed(line@) + crlf());
        }
    }
}

/// A status line written after `out`.
fn push_status(out: &mut String, indicator: &str, message: &str)
    ensures
        final(out)@ == old(out)@ + status_line(indicator@, message@),
{
    push_str(out, indicator);
    if !message.is_empty() {
        push_str(out, " ");
        push_str(out, message);
    }
    push_str(out, "\r\n");
    proof {
        assert(final(out)@ =~= old(out)@ + status_line(indicator@, message@));
    }
}

impl Response {
    /// Create a positive response
    pub fn ok(message: &str) -> (r: Self)
        ensures
            r@ == ResponseView::Positive(message@),
    {
        Response::Positive(message.to_owned())
    }

    /// Create a negative response
    pub fn err(message: &str) -> (r: Self)
        ensures
            r@ == ResponseView::Negative(message@),
    {
        Response::Negative(message.to_owned())
    }

    /// Create a multi-line response
    pub fn multiline(status: &str, lines: &[String]) -> (r: Self)
        ensures
            r@ == ResponseView::MultiLine(status@, string_views(lines@)),
    {
        let mut copy: Vec<String> = Vec::new();
        let mut i: usize = 0;
        while i < lines.len()
            invariant
                i <= lines@.len(),
                string_views(copy@) == string_views(lines@.take(i as int)),
            decreases lines.len() - i,
        {
            let line = lines[i].clone();
            let ghost old_copy = copy@;
            assert(line == lines@[i as int]);
            copy.push(line);
            proof {
                assert(lines@.take(i + 1) =~= lines@.take(i as int).push(lines@[i as int]));
                assert(string_views(copy@) =~= string_views(old_copy).push(lines@[i as int]@));
                assert(string_views(lines@.take(i + 1)) =~= string_views(lines@.take(i as int)).push(
                    lines@[i as int]@,
                ));
            }
            i = i + 1;
        }
        assert(lines@.take(lines@.len() as int) == lines@);
        Response::MultiLine { status: status.to_owned(), lines: copy }
    }

    /// The response as it is sent to the client.
    pub fn to_string(&self) -> (s: String)
        ensures
            s@ == render(self@),
    {
        let mut out = String::new();
        match self {
            Response::Positive(m) => push_status(&mut out, "+OK", m.as_str()),
            Response::Negative(m) => push_status(&mut out, "-ERR", m.as_str()),
            Response::MultiLine { status, lines } => {
                push_status(&mut out, "+OK", status.as_str());
                let ghost head = out@;
                let mut i: usize = 0;
                while i < lines.len()
                    invariant
                        i <= lines@.len(),
                        out@ == head + body(string_views(lines@.take(i as int))),
                    decreases lines.len() - i,
                {
                    push_body_line(&mut out, lines[i].as_str());
                    proof {
                        let before = string_views(lines@.take(i as int));
                        assert(string_views(lines@.take(i + 1)) =~= before.push(lines@[i as int]@));
                        lemma_body_push(before, lines@[i as int]@);
                        assert(out@ =~= head + body(string_views(lines@.take(i + 1))));
                    }
                    i = i + 1;
                }
                assert(lines@.take(lines@.len() as int) == lines@);
                push_str(&mut out, ".\r\n");
                assert(out@ =~= render(self@));
            },
        }
        out
    }
}

} // verus!
