//! The decisions of a POP3 session, apart from the connection.
//!
//! A session reads a line, decides, and may need outside work before it can
//! answer: checking a password, listing the mailbox, fetching a message,
//! deleting messages. [`SessionCore`] makes every decision; the code that owns
//! the connection and the storage performs the work it asks for and hands the
//! results back.

use vstd::prelude::*;

use crate::protocol::command::{
    parse_result_view, spec_parse_error_message, spec_parse_line, Command, CommandParser,
    CommandView,
};
use crate::protocol::response::{Response, ResponseView};
use crate::protocol::state::{command_allowed, SessionState, StateMachine};
use crate::storage::adapter::{message_views, MessageInfo, MessageInfoView};
use crate::text::{
    decimal, decimal_string, lines, push_str, spec_utf8_lossy, split_lines, str_chars, str_eq,
    string_views, utf8_lossy,
};
use crate::webhook::dispatcher::{WebhookEvent, WebhookEventView};

verus! {

/// An answer to the client, whether the session ends after it, and the
/// webhook event it causes.
pub struct Reply {
    pub response: Response,
    pub quit: bool,
    pub event: Option<WebhookEvent>,
}

/// The mathematical value of a [`Reply`].
pub struct ReplyView {
    pub response: ResponseView,
    pub quit: bool,
    pub event: Option<WebhookEventView>,
}

impl View for Reply {
    type V = ReplyView;

    open spec fn view(&self) -> ReplyView {
        ReplyView {
            response: self.response@,
            quit: self.quit,
            event: match self.event {
                Some(e) => Some(e@),
                None => None,
            },
        }
    }
}

/// What a command needs before it can be answered.
pub enum Action {
    /// Answer now.
    Reply(Reply),
    /// Check the password of the user; then call [`SessionCore::finish_login`].
    Authenticate { username: String, password: String },
    /// List the mailbox; then call [`SessionCore::on_messages`].
    ListMessages,
}

/// The mathematical value of an [`Action`].
pub enum ActionView {
    Reply(ReplyView),
    Authenticate { username: Seq<char>, password: Seq<char> },
    ListMessages,
}

impl View for Action {
    type V = ActionView;

    open spec fn view(&self) -> ActionView {
        match self {
            Action::Reply(r) => ActionView::Reply(r@),
            Action::Authenticate { username, password } => ActionView::Authenticate {
                username: username@,
                password: password@,
            },
            Action::ListMessages => ActionView::ListMessages,
        }
    }
}

/// What a mailbox command needs once the mailbox is listed.
pub enum MailboxAction {
    /// Answer now.
    Reply(Reply),
    /// Fetch the content of message `id`; then call [`SessionCore::render_message`].
    Fetch { id: String, size: usize },
}

/// The mathematical value of a [`MailboxAction`].
pub enum MailboxActionView {
    Reply(ReplyView),
    Fetch { id: Seq<char>, size: usize },
}

impl View for MailboxAction {
    type V = MailboxActionView;

    open spec fn view(&self) -> MailboxActionView {
        match self {
            MailboxAction::Reply(r) => MailboxActionView::Reply(r@),
            MailboxAction::Fetch { id, size } => MailboxActionView::Fetch { id: id@, size: *size },
        }
    }
}

/// The mathematical value of a [`SessionCore`].
pub struct SessionView {
    pub state: SessionState,
    /// The name given by USER, waiting for PASS.
    pub pending: Option<Seq<char>>,
    /// The name of the logged-in user.
    pub user: Option<Seq<char>>,
    /// Ids of the messages marked for deletion, in the order they were marked.
    pub marked: Seq<Seq<char>>,
    pub attempts: u32,
    pub max_attempts: u32,
    pub max_line: usize,
    pub peer: Seq<char>,
}

/// The decisions of one POP3 session.
pub struct SessionCore {
    state_machine: StateMachine,
    pending_username: Option<String>,
    current_user: Option<String>,
    messages_to_delete: Vec<String>,
    auth_attempts: u32,
    max_auth_attempts: u32,
    max_command_length: usize,
    peer_addr: String,
}

pub open spec fn opt_view(o: Option<String>) -> Option<Seq<char>> {
    match o {
        Some(s) => Some(s@),
        None => None,
    }
}

impl SessionCore {
    /// No message is marked for deletion twice.
    #[verifier::type_invariant]
    closed spec fn marked_distinct(&self) -> bool {
        string_views(self.messages_to_delete@).no_duplicates()
    }
}

impl View for SessionCore {
    type V = SessionView;

    closed spec fn view(&self) -> SessionView {
        SessionView {
            state: self.state_machine.spec_state(),
            pending: opt_view(self.pending_username),
            user: opt_view(self.current_user),
            marked: string_views(self.messages_to_delete@),
            attempts: self.auth_attempts,
            max_attempts: self.max_auth_attempts,
            max_line: self.max_command_length,
            peer: self.peer_addr@,
        }
    }
}

/// A reply that neither ends the session nor causes an event.
pub open spec fn plain(response: ResponseView) -> ReplyView {
    ReplyView { response, quit: false, event: None }
}

/// A negative reply.
pub open spec fn refusal(message: Seq<char>) -> ReplyView {
    plain(ResponseView::Negative(message))
}

/// The event of a mailbox command, once a user is logged in.
pub open spec fn command_event(s: SessionView, command: Seq<char>) -> Option<WebhookEventView> {
    match s.user {
        Some(u) => Some(WebhookEventView::Command { username: u, command, peer_addr: s.peer }),
        None => None,
    }
}

/// A positive reply to a mailbox command, with its event.
pub open spec fn mailbox_reply(s: SessionView, response: ResponseView, command: Seq<char>) -> ReplyView {
    ReplyView { response, quit: false, event: command_event(s, command) }
}

/// The lines of the CAPA answer.
pub open spec fn capabilities() -> Seq<Seq<char>> {
    seq!["USER"@, "UIDL"@, "TOP"@, "IMPLEMENTATION pop-mail-server"@]
}

/// Whether a command works on the mailbox.
pub open spec fn is_mailbox_command(c: CommandView) -> bool {
    match c {
        CommandView::Stat | CommandView::List(_) | CommandView::Retr(_) | CommandView::Dele(_)
        | CommandView::Uidl(_) | CommandView::Top(_, _) => true,
        _ => false,
    }
}

/// The first step of a command: check it against the state, then answer
/// it or say what is needed.
pub open spec fn spec_begin(s: SessionView, c: CommandView) -> (SessionView, ActionView) {
    if !command_allowed(s.state, c) {
        (s, ActionView::Reply(refusal("Command not valid in current state"@)))
    } else {
        match c {
            CommandView::User(u) => (
                SessionView { pending: Some(u), ..s },
                ActionView::Reply(plain(ResponseView::Positive("User accepted"@))),
            ),
            CommandView::Pass(p) => match s.pending {
                None => (s, ActionView::Reply(refusal("No username provided"@))),
                Some(u) => {
                    let a = s.attempts + 1;
                    let s1 = SessionView {
                        attempts: if a > u32::MAX {
                            u32::MAX
                        } else {
                            a as u32
                        },
                        ..s
                    };
                    if a > s.max_attempts {
                        (
                            s1,
                            ActionView::Reply(
                                ReplyView {
                                    response: ResponseView::Negative(
                                        "Too many authentication attempts"@,
                                    ),
                                    quit: true,
                                    event: None,
                                },
                            ),
                        )
                    } else {
                        (s1, ActionView::Authenticate { username: u, password: p })
                    }
                },
            },
            CommandView::Apop(_, _) => (s, ActionView::Reply(refusal("APOP not supported"@))),
            CommandView::Noop => (
                s,
                ActionView::Reply(mailbox_reply(s, ResponseView::Positive(Seq::empty()), "noop"@)),
            ),
            CommandView::Rset => {
                let s1 = SessionView { marked: Seq::empty(), ..s };
                (
                    s1,
                    ActionView::Reply(
                        mailbox_reply(s1, ResponseView::Positive("Deletions reset"@), "rset"@),
                    ),
                )
            },
            CommandView::Quit => (
                SessionView { state: SessionState::Update, ..s },
                ActionView::Reply(
                    ReplyView {
                        response: ResponseView::Positive("Bye"@),
                        quit: true,
                        event: match s.user {
                            Some(u) => Some(
                                WebhookEventView::SessionEnd { username: u, peer_addr: s.peer },
                            ),
                            None => None,
                        },
                    },
                ),
            ),
            CommandView::Capa => (
                s,
                ActionView::Reply(
                    plain(
                        ResponseView::MultiLine("Capability list follows"@, capabilities()),
                    ),
                ),
            ),
            _ => (s, ActionView::ListMessages),
        }
    }
}

/// The end of a login: `stored` is the name of the user the password
/// matched, if it matched.
pub open spec fn spec_finish_login(s: SessionView, typed: Seq<char>, stored: Option<Seq<char>>) -> (
    SessionView,
    ReplyView,
) {
    match stored {
        Some(name) => (
            SessionView {
                state: SessionState::Transaction,
                user: Some(name),
                pending: None,
                ..s
            },
            ReplyView {
                response: ResponseView::Positive("Authentication successful"@),
                quit: false,
                event: Some(WebhookEventView::SessionStart { username: typed, peer_addr: s.peer }),
            },
        ),
        None => (SessionView { pending: None, ..s }, refusal("Authentication failed"@)),
    }
}

/// Whether message `n` (counted from 1) exists and is not marked for deletion.
pub open spec fn message_visible(ms: Seq<MessageInfoView>, marked: Seq<Seq<char>>, n: u32) -> bool {
    1 <= n <= ms.len() && !marked.contains(ms[n - 1].id)
}

/// The number of the first `k` messages that are not marked for deletion.
pub open spec fn visible_count(ms: Seq<MessageInfoView>, marked: Seq<Seq<char>>, k: int) -> nat
    decreases k,
{
    if k <= 0 {
        0
    } else {
        visible_count(ms, marked, k - 1) + if marked.contains(ms[k - 1].id) {
            0nat
        } else {
            1nat
        }
    }
}

/// Sum of the sizes of the first `k` messages that are not marked for
/// deletion.
pub open spec fn visible_size(ms: Seq<MessageInfoView>, marked: Seq<Seq<char>>, k: int) -> nat
    decreases k,
{
    if k <= 0 {
        0
    } else {
        visible_size(ms, marked, k - 1) + if marked.contains(ms[k - 1].id) {
            0nat
        } else {
            ms[k - 1].size as nat
        }
    }
}

/// `"n text"`.
pub open spec fn numbered(n: nat, text: Seq<char>) -> Seq<char> {
    decimal(n) + " "@ + text
}

/// The LIST (sizes) or UIDL (unique ids) lines of the first `k` messages,
/// numbered from 1, without the messages marked for deletion.
pub open spec fn listing(ms: Seq<MessageInfoView>, marked: Seq<Seq<char>>, uidl: bool, k: int) -> Seq<
    Seq<char>,
>
    decreases k,
{
    if k <= 0 {
        Seq::empty()
    } else {
        let prev = listing(ms, marked, uidl, k - 1);
        let m = ms[k - 1];
        if marked.contains(m.id) {
            prev
        } else {
            prev.push(
                numbered(
                    k as nat,
                    if uidl {
                        m.uidl
                    } else {
                        decimal(m.size as nat)
                    },
                ),
            )
        }
    }
}

/// The single-message answer of LIST or UIDL.
pub open spec fn single_listing(
    ms: Seq<MessageInfoView>,
    marked: Seq<Seq<char>>,
    uidl: bool,
    n: u32,
) -> ResponseView {
    if message_visible(ms, marked, n) {
        let m = ms[n - 1];
        ResponseView::Positive(
            numbered(
                n as nat,
                if uidl {
                    m.uidl
                } else {
                    decimal(m.size as nat)
                },
            ),
        )
    } else {
        ResponseView::Negative("No such message"@)
    }
}

/// A mailbox command, once the mailbox `ms` is listed.
pub open spec fn spec_on_messages(s: SessionView, c: CommandView, ms: Seq<MessageInfoView>) -> (
    SessionView,
    MailboxActionView,
) {
    match c {
        CommandView::Stat => (
            s,
            MailboxActionView::Reply(
                mailbox_reply(
                    s,
                    ResponseView::Positive(
                        numbered(
                            visible_count(ms, s.marked, ms.len() as int),
                            decimal(visible_size(ms, s.marked, ms.len() as int)),
                        ),
                    ),
                    "stat"@,
                ),
            ),
        ),
        CommandView::List(Some(n)) => (
            s,
            MailboxActionView::Reply(
                mailbox_reply(s, single_listing(ms, s.marked, false, n), "list"@),
            ),
        ),
        CommandView::List(None) => (
            s,
            MailboxActionView::Reply(
                mailbox_reply(
                    s,
                    ResponseView::MultiLine(
                        "Message list follows"@,
                        listing(ms, s.marked, false, ms.len() as int),
                    ),
                    "list"@,
                ),
            ),
        ),
        CommandView::Uidl(Some(n)) => (
            s,
            MailboxActionView::Reply(
                mailbox_reply(s, single_listing(ms, s.marked, true, n), "uidl"@),
            ),
        ),
        CommandView::Uidl(None) => (
            s,
            MailboxActionView::Reply(
                mailbox_reply(
                    s,
                    ResponseView::MultiLine(
                        "Unique-ID listing follows"@,
                        listing(ms, s.marked, true, ms.len() as int),
                    ),
                    "uidl"@,
                ),
            ),
        ),
        CommandView::Retr(n) | CommandView::Top(n, _) => if message_visible(ms, s.marked, n) {
            (s, MailboxActionView::Fetch { id: ms[n - 1].id, size: ms[n - 1].size })
        } else {
            (s, MailboxActionView::Reply(refusal("No such message"@)))
        },
        CommandView::Dele(n) => if !(1 <= n <= ms.len()) {
            (s, MailboxActionView::Reply(refusal("No such message"@)))
        } else if s.marked.contains(ms[n - 1].id) {
            (s, MailboxActionView::Reply(refusal("Message already marked for deletion"@)))
        } else {
            (
                SessionView { marked: s.marked.push(ms[n - 1].id), ..s },
                MailboxActionView::Reply(
                    mailbox_reply(s, ResponseView::Positive("Message marked for deletion"@), "dele"@),
                ),
            )
        },
        _ => (s, MailboxActionView::Reply(refusal(Seq::empty()))),
    }
}

/// Index of the first empty line.
pub open spec fn first_empty_line(ls: Seq<Seq<char>>) -> Option<nat>
    decreases ls.len(),
{
    if ls.len() == 0 {
        None
    } else if ls[0].len() == 0 {
        Some(0)
    } else {
        match first_empty_line(ls.drop_first()) {
            Some(i) => Some(i + 1),
            None => None,
        }
    }
}

/// The lines TOP sends: the header lines up to and including the first empty
/// line, then at most `n` lines of the body.
pub open spec fn top_lines(ls: Seq<Seq<char>>, n: u32) -> Seq<Seq<char>> {
    match first_empty_line(ls) {
        None => ls,
        Some(h) => {
            let body = ls.skip((h + 1) as int);
            ls.take((h + 1) as int) + body.take(
                if n < body.len() {
                    n as int
                } else {
                    body.len() as int
                },
            )
        },
    }
}

/// The answer to RETR or TOP once the message content is fetched.
pub open spec fn spec_render_message(s: SessionView, c: CommandView, size: usize, content: Seq<u8>) -> ReplyView {
    let ls = lines(spec_utf8_lossy(content));
    match c {
        CommandView::Top(_, n) => mailbox_reply(
            s,
            ResponseView::MultiLine("Top of message follows"@, top_lines(ls, n)),
            "top"@,
        ),
        _ => mailbox_reply(
            s,
            ResponseView::MultiLine(decimal(size as nat) + " octets"@, ls),
            "retr"@,
        ),
    }
}

/// Leaving the session: in the UPDATE state (after QUIT) the messages marked
/// for deletion are handed out for deletion and forgotten; otherwise nothing
/// is deleted.
pub open spec fn spec_commit(s: SessionView) -> (SessionView, Seq<Seq<char>>) {
    if s.state == SessionState::Update {
        (
            SessionView { marked: Seq::empty(), ..s },
            if s.user is Some {
                s.marked
            } else {
                Seq::empty()
            },
        )
    } else {
        (s, Seq::empty())
    }
}

/// A line from the client, before any command runs: too long, not a command,
/// or the command.
pub open spec fn spec_check_line(max_line: usize, line: Seq<char>) -> Result<
    CommandView,
    ResponseView,
> {
    if (vstd::utf8::encode_utf8(line).len() as usize) > max_line {
        Err(ResponseView::Negative("Command too long"@))
    } else {
        match spec_parse_line(line) {
            Ok(c) => Ok(c),
            Err(e) => Err(ResponseView::Negative("Invalid command: "@ + spec_parse_error_message(e))),
        }
    }
}


/// A line from the client, given whether the session's rate limit lets one
/// more command through now: over the rate, the line is refused unread;
/// otherwise it is checked as [`spec_check_line`] says.
pub open spec fn spec_check_request(max_line: usize, allowed: bool, line: Seq<char>) -> Result<
    CommandView,
    ResponseView,
> {
    if !allowed {
        Err(ResponseView::Negative("Rate limit exceeded"@))
    } else {
        spec_check_line(max_line, line)
    }
}

/// The view of an optional event.
pub open spec fn event_view(e: Option<WebhookEvent>) -> Option<WebhookEventView> {
    match e {
        Some(e) => Some(e@),
        None => None,
    }
}

/// The first empty line comes at `k` when the lines before `k` are not
/// empty: there is none if `k` is the end, and it is `k` if line `k` is empty.
proof fn lemma_first_empty_line(ls: Seq<Seq<char>>, k: int)
    requires
        0 <= k <= ls.len(),
        forall|j: int| 0 <= j < k ==> (#[trigger] ls[j]).len() > 0,
    ensures
        k == ls.len() ==> first_empty_line(ls) is None,
        k < ls.len() && ls[k].len() == 0 ==> first_empty_line(ls) == Some(k as nat),
    decreases k,
{
    if k > 0 {
        assert forall|j: int| 0 <= j < k - 1 implies (#[trigger] ls.drop_first()[j]).len() > 0 by {
            assert(ls.drop_first()[j] == ls[j + 1]);
        }
        lemma_first_empty_line(ls.drop_first(), k - 1);
        if k < ls.len() {
            assert(ls.drop_first()[k - 1] == ls[k]);
        }
    }
}

/// `"n text"`.
fn numbered_line(n: u64, text: &str) -> (r: String)
    ensures
        r@ == numbered(n as nat, text@),
{
    let mut r = decimal_string(n);
    push_str(&mut r, " ");
    push_str(&mut r, text);
    r
}

/// Whether `id` is among `marked`.
fn contains_id(marked: &Vec<String>, id: &String) -> (r: bool)
    ensures
        r == string_views(marked@).contains(id@),
{
    let mut i: usize = 0;
    while i < marked.len()
        invariant
            i <= marked@.len(),
            forall|j: int| 0 <= j < i ==> string_views(marked@)[j] != id@,
        decreases marked.len() - i,
    {
        if str_eq(marked[i].as_str(), id.as_str()) {
            assert(string_views(marked@)[i as int] == id@);
            return true;
        }
        i = i + 1;
    }
    proof {
        if string_views(marked@).contains(id@) {
            let j = choose|j: int| 0 <= j < string_views(marked@).len() && string_views(marked@)[j] == id@;
            assert(string_views(marked@)[j] != id@);
        }
    }
    false
}

/// The lines TOP sends out of the lines of a message.
fn top_of(ls: &Vec<String>, n: u32) -> (r: Vec<String>)
    ensures
        string_views(r@) == top_lines(string_views(ls@), n),
{
    let ghost views = string_views(ls@);
    let mut h: usize = 0;
    while h < ls.len() && !ls[h].as_str().is_empty()
        invariant
            h <= ls@.len(),
            views == string_views(ls@),
            forall|j: int| 0 <= j < h ==> (#[trigger] views[j]).len() > 0,
        decreases ls.len() - h,
    {
        h = h + 1;
    }
    proof {
        lemma_first_empty_line(views, h as int);
    }
    let end = if h == ls.len() {
        ls.len()
    } else {
        let rest = ls.len() - (h + 1);
        if (n as usize) < rest && (n as u64) < (rest as u64) {
            h + 1 + n as usize
        } else {
            ls.len()
        }
    };
    let mut out: Vec<String> = Vec::new();
    let mut i: usize = 0;
    while i < end
        invariant
            i <= end <= ls@.len(),
            views == string_views(ls@),
            string_views(out@) == views.take(i as int),
        decreases end - i,
    {
        let line = ls[i].clone();
        let ghost old_out = out@;
        out.push(line);
        proof {
            assert(string_views(out@) =~= string_views(old_out).push(views[i as int]));
            assert(views.take(i + 1) =~= views.take(i as int).push(views[i as int]));
        }
        i = i + 1;
    }
    proof {
        if h < ls.len() {
            let body = views.skip(h + 1);
            let k = if n < body.len() {
                n as int
            } else {
                body.len() as int
            };
            assert(views.take(end as int) =~= views.take(h + 1) + body.take(k));
        } else {
            assert(views.take(end as int) =~= views);
        }
    }
    out
}

impl SessionCore {
    /// A new session with the client at `peer_addr`, allowing
    /// `max_auth_attempts` password attempts and lines of at most
    /// `max_command_length` bytes.
    pub fn new(max_auth_attempts: u32, max_command_length: usize, peer_addr: &str) -> (s: Self)
        ensures
            s@ == (SessionView {
                state: SessionState::Authorization,
                pending: None,
                user: None,
                marked: Seq::empty(),
                attempts: 0,
                max_attempts: max_auth_attempts,
                max_line: max_command_length,
                peer: peer_addr@,
            }),
    {
        let s = SessionCore {
            state_machine: StateMachine::new(),
            pending_username: None,
            current_user: None,
            messages_to_delete: Vec::new(),
            auth_attempts: 0,
            max_auth_attempts,
            max_command_length,
            peer_addr: peer_addr.to_owned(),
        };
        assert(string_views(s.messages_to_delete@) =~= Seq::<Seq<char>>::empty());
        s
    }

    /// The current state.
    pub fn state(&self) -> (r: SessionState)
        ensures
            r == self@.state,
    {
        self.state_machine.state()
    }

    /// The name of the logged-in user.
    pub fn current_user(&self) -> (r: &Option<String>)
        ensures
            opt_view(*r) == self@.user,
    {
        &self.current_user
    }

    /// The greeting sent when the connection opens.
    pub fn greeting() -> (r: Response)
        ensures
            r@ == ResponseView::Positive("POP3 server ready"@),
    {
        Response::ok("POP3 server ready")
    }

    /// The answer when the client stays silent too long.
    pub fn idle_timeout() -> (r: Response)
        ensures
            r@ == ResponseView::Negative("Idle timeout"@),
    {
        Response::err("Idle timeout")
    }

    /// The answer when a command takes too long.
    pub fn command_timeout() -> (r: Response)
        ensures
            r@ == ResponseView::Negative("Command timeout"@),
    {
        Response::err("Command timeout")
    }

    /// The answer when the outside work of a command failed with `message`.
    pub fn failure(message: &str) -> (r: Response)
        ensures
            r@ == ResponseView::Negative("Error: "@ + message@),
    {
        let mut m = "Error: ".to_owned();
        push_str(&mut m, message);
        Response::Negative(m)
    }

    /// Checks a line from the client: too long, not a command, or a command.
    pub fn check_line(&self, line: &str) -> (r: Result<Command, Response>)
        ensures
            match r {
                Ok(c) => spec_check_line(self@.max_line, line@) == Ok::<CommandView, ResponseView>(c@),
                Err(resp) => spec_check_line(self@.max_line, line@) == Err::<CommandView, ResponseView>(resp@),
            },
    {
        if line.len() > self.max_command_length {
            return Err(Response::err("Command too long"));
        }
        let parsed = CommandParser::parse(line);
        assert(parse_result_view(parsed) == spec_parse_line(line@));
        match parsed {
            Ok(c) => Ok(c),
            Err(e) => {
                let mut m = "Invalid command: ".to_owned();
                let text = e.message();
                push_str(&mut m, text.as_str());
                Err(Response::Negative(m))
            },
        }
    }

    /// The answer to a command over the session's rate limit.
    pub fn rate_limited() -> (r: Response)
        ensures
            r@ == ResponseView::Negative("Rate limit exceeded"@),
    {
        Response::err("Rate limit exceeded")
    }

    /// Checks a line from the client, given whether the session's rate
    /// limit (commands per second) lets one more command through now: a line
    /// over the rate gets the rate-limit answer and runs no command.
    pub fn check_request(&self, allowed: bool, line: &str) -> (r: Result<Command, Response>)
        ensures
            match r {
                Ok(c) => spec_check_request(self@.max_line, allowed, line@) == Ok::<
                    CommandView,
                    ResponseView,
                >(c@),
                Err(resp) => spec_check_request(self@.max_line, allowed, line@) == Err::<
                    CommandView,
                    ResponseView,
                >(resp@),
            },
    {
        if !allowed {
            return Err(Self::rate_limited());
        }
        self.check_line(line)
    }

    /// The event of a mailbox command.
    fn command_event(&self, name: &str) -> (r: Option<WebhookEvent>)
        ensures
            event_view(r) == command_event(self@, name@),
    {
        match &self.current_user {
            Some(u) => Some(
                WebhookEvent::Command {
                    username: u.clone(),
                    command: name.to_owned(),
                    peer_addr: self.peer_addr.clone(),
                },
            ),
            None => None,
        }
    }

    /// The first step of a command.
    pub fn begin(&mut self, command: Command) -> (r: Action)
        ensures
            (final(self)@, r@) == spec_begin(old(self)@, command@),
    {
        proof {
            use_type_invariant(&*self);
        }
        if !self.state_machine.is_valid_command(&command) {
            return Action::Reply(
                Reply {
                    response: Response::err("Command not valid in current state"),
                    quit: false,
                    event: None,
                },
            );
        }
        match command {
            Command::User(username) => {
                self.pending_username = Some(username);
                Action::Reply(Reply { response: Response::ok("User accepted"), quit: false, event: None })
            },
            Command::Pass(password) => {
                let username = match &self.pending_username {
                    Some(u) => u.clone(),
                    None => {
                        return Action::Reply(
                            Reply {
                                response: Response::err("No username provided"),
                                quit: false,
                                event: None,
                            },
                        );
                    },
                };
                let exceeded = self.auth_attempts >= self.max_auth_attempts;
                if self.auth_attempts < u32::MAX {
                    self.auth_attempts = self.auth_attempts + 1;
                }
                if exceeded {
                    Action::Reply(
                        Reply {
                            response: Response::err("Too many authentication attempts"),
                            quit: true,
                            event: None,
                        },
                    )
                } else {
                    Action::Authenticate { username, password }
                }
            },
            Command::Apop(_, _) => Action::Reply(
                Reply { response: Response::err("APOP not supported"), quit: false, event: None },
            ),
            Command::Noop => {
                proof {
                    reveal_strlit("");
                    assert(""@ =~= Seq::<char>::empty());
                }
                let event = self.command_event("noop");
                Action::Reply(Reply { response: Response::ok(""), quit: false, event })
            },
            Command::Rset => {
                self.messages_to_delete = Vec::new();
                assert(string_views(self.messages_to_delete@) =~= Seq::<Seq<char>>::empty());
                let event = self.command_event("rset");
                Action::Reply(Reply { response: Response::ok("Deletions reset"), quit: false, event })
            },
            Command::Quit => {
                self.state_machine.transition_to(SessionState::Update);
                let event = match &self.current_user {
                    Some(u) => Some(
                        WebhookEvent::SessionEnd {
                            username: u.clone(),
                            peer_addr: self.peer_addr.clone(),
                        },
                    ),
                    None => None,
                };
                Action::Reply(Reply { response: Response::ok("Bye"), quit: true, event })
            },
            Command::Capa => {
                let mut capabilities: Vec<String> = Vec::new();
                capabilities.push("USER".to_owned());
                capabilities.push("UIDL".to_owned());
                capabilities.push("TOP".to_owned());
                capabilities.push("IMPLEMENTATION pop-mail-server".to_owned());
                let response = Response::multiline("Capability list follows", &capabilities);
                assert(string_views(capabilities@) =~= crate::server::session::capabilities());
                Action::Reply(Reply { response, quit: false, event: None })
            },
            _ => Action::ListMessages,
        }
    }

    /// The end of a login started by [`Action::Authenticate`] for the name
    /// `username`: `stored` is the name of the user whose password matched
    /// (and whose mailbox is ready), or `None` when the login failed.
    pub fn finish_login(&mut self, username: &str, stored: Option<String>) -> (r: Reply)
        ensures
            (final(self)@, r@) == spec_finish_login(old(self)@, username@, opt_view(stored)),
    {
        proof {
            use_type_invariant(&*self);
        }
        self.pending_username = None;
        match stored {
            Some(name) => {
                self.current_user = Some(name);
                self.state_machine.transition_to(SessionState::Transaction);
                Reply {
                    response: Response::ok("Authentication successful"),
                    quit: false,
                    event: Some(
                        WebhookEvent::SessionStart {
                            username: username.to_owned(),
                            peer_addr: self.peer_addr.clone(),
                        },
                    ),
                }
            },
            None => Reply { response: Response::err("Authentication failed"), quit: false, event: None },
        }
    }

    /// Whether message `n` of `msgs` exists and is not marked for deletion.
    fn visible(&self, msgs: &[MessageInfo], n: u32) -> (r: bool)
        ensures
            r == message_visible(message_views(msgs@), self@.marked, n),
    {
        if n == 0 || (n as u64) > (msgs.len() as u64) {
            return false;
        }
        let idx = (n - 1) as usize;
        !contains_id(&self.messages_to_delete, &msgs[idx].id)
    }

    /// The LIST or UIDL lines of the mailbox.
    fn listing(&self, msgs: &[MessageInfo], uidl: bool) -> (r: Vec<String>)
        ensures
            string_views(r@) == listing(message_views(msgs@), self@.marked, uidl, msgs@.len() as int),
    {
        let ghost ms = message_views(msgs@);
        let mut out: Vec<String> = Vec::new();
        let mut i: usize = 0;
        while i < msgs.len()
            invariant
                i <= msgs@.len(),
                ms == message_views(msgs@),
                string_views(out@) == listing(ms, self@.marked, uidl, i as int),
            decreases msgs.len() - i,
        {
            let m = &msgs[i];
            assert(ms[i as int] == msgs@[i as int]@);
            if !contains_id(&self.messages_to_delete, &m.id) {
                let line = if uidl {
                    numbered_line((i + 1) as u64, m.uidl.as_str())
                } else {
                    let size_text = decimal_string(m.size as u64);
                    numbered_line((i + 1) as u64, size_text.as_str())
                };
                let ghost old_out = out@;
                out.push(line);
                assert(string_views(out@) =~= string_views(old_out).push(line@));
            }
            i = i + 1;
        }
        out
    }

    /// Whether the sizes of the messages not marked for deletion add up to
    /// a number that fits in a `usize` (what STAT reports).
    pub fn stat_fits(&self, msgs: &[MessageInfo]) -> (r: bool)
        ensures
            r == (visible_size(message_views(msgs@), self@.marked, msgs@.len() as int)
                <= usize::MAX),
    {
        let ghost ms = message_views(msgs@);
        let mut acc: usize = 0;
        let mut i: usize = 0;
        while i < msgs.len()
            invariant
                i <= msgs@.len(),
                ms == message_views(msgs@),
                acc == visible_size(ms, self@.marked, i as int),
            decreases msgs.len() - i,
        {
            assert(ms[i as int] == msgs@[i as int]@);
            if !contains_id(&self.messages_to_delete, &msgs[i].id) {
                if acc > usize::MAX - msgs[i].size {
                    proof {
                        lemma_visible_size_grows(ms, self@.marked, i + 1, msgs@.len() as int);
                    }
                    return false;
                }
                acc = acc + msgs[i].size;
            }
            i = i + 1;
        }
        true
    }

    /// The number and the total size of the messages not marked for
    /// deletion.
    fn visible_totals(&self, msgs: &[MessageInfo]) -> (r: (usize, usize))
        requires
            visible_size(message_views(msgs@), self@.marked, msgs@.len() as int) <= usize::MAX,
        ensures
            r.0 == visible_count(message_views(msgs@), self@.marked, msgs@.len() as int),
            r.1 == visible_size(message_views(msgs@), self@.marked, msgs@.len() as int),
    {
        let ghost ms = message_views(msgs@);
        let mut count: usize = 0;
        let mut acc: usize = 0;
        let mut i: usize = 0;
        while i < msgs.len()
            invariant
                i <= msgs@.len(),
                ms == message_views(msgs@),
                count == visible_count(ms, self@.marked, i as int),
                count <= i,
                acc == visible_size(ms, self@.marked, i as int),
                visible_size(ms, self@.marked, msgs@.len() as int) <= usize::MAX,
            decreases msgs.len() - i,
        {
            assert(ms[i as int] == msgs@[i as int]@);
            proof {
                lemma_visible_size_grows(ms, self@.marked, i + 1, msgs@.len() as int);
            }
            if !contains_id(&self.messages_to_delete, &msgs[i].id) {
                acc = acc + msgs[i].size;
                count = count + 1;
            }
            i = i + 1;
        }
        (count, acc)
    }

    /// A mailbox command once the mailbox is listed.
    pub fn on_messages(&mut self, command: &Command, msgs: &[MessageInfo]) -> (r: MailboxAction)
        requires
            is_mailbox_command(command@),
            command@ is Stat ==> visible_size(message_views(msgs@), old(self)@.marked, msgs@.len() as int)
                <= usize::MAX,
        ensures
            (final(self)@, r@) == spec_on_messages(old(self)@, command@, message_views(msgs@)),
    {
        proof {
            use_type_invariant(&*self);
        }
        let ghost ms = message_views(msgs@);
        match command {
            Command::Stat => {
                let (count, total) = self.visible_totals(msgs);
                let total_text = decimal_string(total as u64);
                let text = numbered_line(count as u64, total_text.as_str());
                let event = self.command_event("stat");
                MailboxAction::Reply(Reply { response: Response::Positive(text), quit: false, event })
            },
            Command::List(Some(n)) | Command::Uidl(Some(n)) => {
                let uidl = match command {
                    Command::Uidl(_) => true,
                    _ => false,
                };
                let response = if self.visible(msgs, *n) {
                    let m = &msgs[(*n - 1) as usize];
                    assert(ms[*n - 1] == msgs@[*n - 1]@);
                    if uidl {
                        Response::Positive(numbered_line(*n as u64, m.uidl.as_str()))
                    } else {
                        let size_text = decimal_string(m.size as u64);
                        Response::Positive(numbered_line(*n as u64, size_text.as_str()))
                    }
                } else {
                    Response::err("No such message")
                };
                let event = if uidl {
                    self.command_event("uidl")
                } else {
                    self.command_event("list")
                };
                MailboxAction::Reply(Reply { response, quit: false, event })
            },
            Command::List(None) => {
                let lines = self.listing(msgs, false);
                let response = Response::multiline("Message list follows", &lines);
                let event = self.command_event("list");
                MailboxAction::Reply(Reply { response, quit: false, event })
            },
            Command::Uidl(None) => {
                let lines = self.listing(msgs, true);
                let response = Response::multiline("Unique-ID listing follows", &lines);
                let event = self.command_event("uidl");
                MailboxAction::Reply(Reply { response, quit: false, event })
            },
            Command::Retr(n) | Command::Top(n, _) => {
                if self.visible(msgs, *n) {
                    let m = &msgs[(*n - 1) as usize];
                    assert(ms[*n - 1] == msgs@[*n - 1]@);
                    MailboxAction::Fetch { id: m.id.clone(), size: m.size }
                } else {
                    MailboxAction::Reply(
                        Reply { response: Response::err("No such message"), quit: false, event: None },
                    )
                }
            },
            Command::Dele(n) => {
                if *n == 0 || (*n as u64) > (msgs.len() as u64) {
                    return MailboxAction::Reply(
                        Reply { response: Response::err("No such message"), quit: false, event: None },
                    );
                }
                let m = &msgs[(*n - 1) as usize];
                assert(ms[*n - 1] == msgs@[*n - 1]@);
                if contains_id(&self.messages_to_delete, &m.id) {
                    return MailboxAction::Reply(
                        Reply {
                            response: Response::err("Message already marked for deletion"),
                            quit: false,
                            event: None,
                        },
                    );
                }
                let event = self.command_event("dele");
                let ghost old_marked = self.messages_to_delete@;
                let mut marked: Vec<String> = Vec::new();
                std::mem::swap(&mut marked, &mut self.messages_to_delete);
                marked.push(m.id.clone());
                proof {
                    let m2 = string_views(marked@);
                    let m1 = string_views(old_marked);
                    assert(m2 =~= m1.push(m.id@));
                    assert forall|a: int, b: int| 0 <= a < m2.len() && 0 <= b < m2.len() && a != b implies m2[a]
                        != m2[b] by {
                        if a < m1.len() && b < m1.len() {
                        } else if a < m1.len() {
                            assert(m1.contains(m2[a]));
                        } else {
                            assert(m1.contains(m2[b]));
                        }
                    }
                }
                self.messages_to_delete = marked;
                MailboxAction::Reply(
                    Reply { response: Response::ok("Message marked for deletion"), quit: false, event },
                )
            },
            _ => MailboxAction::Reply(Reply { response: Response::err(""), quit: false, event: None }),
        }
    }

    /// The answer to RETR or TOP once the content of the message is fetched.
    pub fn render_message(&self, command: &Command, size: usize, content: &[u8]) -> (r: Reply)
        ensures
            r@ == spec_render_message(self@, command@, size, content@),
    {
        let text = utf8_lossy(content);
        let chars = str_chars(text.as_str());
        let all_lines = split_lines(&chars);
        match command {
            Command::Top(_, n) => {
                let top = top_of(&all_lines, *n);
                let response = Response::multiline("Top of message follows", &top);
                let event = self.command_event("top");
                Reply { response, quit: false, event }
            },
            _ => {
                let mut status = decimal_string(size as u64);
                push_str(&mut status, " octets");
                let response = Response::multiline(status.as_str(), &all_lines);
                let event = self.command_event("retr");
                Reply { response, quit: false, event }
            },
        }
    }

    /// Leaving the session: the ids of the messages to delete now.
    pub fn commit(&mut self) -> (r: Vec<String>)
        ensures
            (final(self)@, string_views(r@)) == spec_commit(old(self)@),
            string_views(r@).no_duplicates(),
    {
        proof {
            use_type_invariant(&*self);
        }
        let mut ids: Vec<String> = Vec::new();
        if self.state_machine.state() == SessionState::Update {
            std::mem::swap(&mut ids, &mut self.messages_to_delete);
            assert(string_views(self.messages_to_delete@) =~= Seq::<Seq<char>>::empty());
            if self.current_user.is_none() {
                ids = Vec::new();
                assert(string_views(ids@) =~= Seq::<Seq<char>>::empty());
            }
        } else {
            assert(string_views(ids@) =~= Seq::<Seq<char>>::empty());
        }
        ids
    }
}

/// The visible size of a prefix of the messages grows with the prefix.
proof fn lemma_visible_size_grows(ms: Seq<MessageInfoView>, marked: Seq<Seq<char>>, j: int, k: int)
    requires
        0 <= j <= k,
    ensures
        visible_size(ms, marked, j) <= visible_size(ms, marked, k),
    decreases k - j,
{
    if j < k {
        lemma_visible_size_grows(ms, marked, j, k - 1);
    }
}

/// A message marked by DELE is no longer there for RETR, TOP, LIST and
/// UIDL, and cannot be marked again, until RSET.
pub proof fn lemma_marked_message_hidden(s: SessionView, ms: Seq<MessageInfoView>, n: u32, l: u32)
    requires
        1 <= n <= ms.len(),
        !s.marked.contains(ms[n - 1].id),
    ensures
        ({
            let (s1, a) = spec_on_messages(s, CommandView::Dele(n), ms);
            &&& a == MailboxActionView::Reply(
                mailbox_reply(s, ResponseView::Positive("Message marked for deletion"@), "dele"@),
            )
            &&& !message_visible(ms, s1.marked, n)
            &&& spec_on_messages(s1, CommandView::Retr(n), ms).1 == MailboxActionView::Reply(
                refusal("No such message"@),
            )
            &&& spec_on_messages(s1, CommandView::Top(n, l), ms).1 == MailboxActionView::Reply(
                refusal("No such message"@),
            )
            &&& spec_on_messages(s1, CommandView::List(Some(n)), ms).1 == MailboxActionView::Reply(
                mailbox_reply(s1, ResponseView::Negative("No such message"@), "list"@),
            )
            &&& spec_on_messages(s1, CommandView::Uidl(Some(n)), ms).1 == MailboxActionView::Reply(
                mailbox_reply(s1, ResponseView::Negative("No such message"@), "uidl"@),
            )
            &&& spec_on_messages(s1, CommandView::Dele(n), ms).1 == MailboxActionView::Reply(
                refusal("Message already marked for deletion"@),
            )
        }),
{
    let s1 = spec_on_messages(s, CommandView::Dele(n), ms).0;
    assert(s1.marked[s1.marked.len() - 1] == ms[n - 1].id);
    assert(s1.marked.contains(ms[n - 1].id));
}

/// After RSET in the TRANSACTION state nothing is marked for deletion, and
/// every message of the mailbox can be retrieved again.
pub proof fn lemma_reset_unmarks(s: SessionView, ms: Seq<MessageInfoView>, n: u32)
    requires
        s.state == SessionState::Transaction,
        1 <= n <= ms.len(),
    ensures
        spec_begin(s, CommandView::Rset).0.marked == Seq::<Seq<char>>::empty(),
        spec_on_messages(spec_begin(s, CommandView::Rset).0, CommandView::Retr(n), ms).1
            == (MailboxActionView::Fetch { id: ms[n - 1].id, size: ms[n - 1].size }),
{
}

/// Messages are deleted only after QUIT: in any other state leaving the
/// session deletes nothing.
pub proof fn lemma_no_deletion_before_quit(s: SessionView)
    requires
        s.state != SessionState::Update,
    ensures
        spec_commit(s) == (s, Seq::<Seq<char>>::empty()),
{
}

/// QUIT from the TRANSACTION state ends the session, and leaving it then
/// deletes exactly the messages marked for deletion.
pub proof fn lemma_quit_commits_marks(s: SessionView)
    requires
        s.state == SessionState::Transaction,
        s.user is Some,
    ensures
        spec_begin(s, CommandView::Quit).1 is Reply,
        spec_begin(s, CommandView::Quit).1->Reply_0.quit,
        spec_commit(spec_begin(s, CommandView::Quit).0).1 == s.marked,
        spec_commit(spec_begin(s, CommandView::Quit).0).0.marked == Seq::<Seq<char>>::empty(),
{
}

/// Before login no mailbox command reaches the mailbox: it is refused and
/// nothing changes.
pub proof fn lemma_mailbox_needs_login(s: SessionView, c: CommandView)
    requires
        s.state == SessionState::Authorization,
        is_mailbox_command(c),
    ensures
        spec_begin(s, c) == (s, ActionView::Reply(refusal("Command not valid in current state"@))),
{
}

/// A matching password moves the session to the TRANSACTION state with the
/// stored user logged in; a wrong one leaves it in AUTHORIZATION.
pub proof fn lemma_login(s: SessionView, typed: Seq<char>, stored: Option<Seq<char>>)
    requires
        s.state == SessionState::Authorization,
    ensures
        stored matches Some(name) ==> spec_finish_login(s, typed, stored).0.state
            == SessionState::Transaction && spec_finish_login(s, typed, stored).0.user == Some(name),
        stored is None ==> spec_finish_login(s, typed, stored).0.state
            == SessionState::Authorization,
        spec_finish_login(s, typed, stored).0.pending is None,
{
}

/// Once the allowed number of password attempts is used up, PASS checks no
/// password and ends the session.
pub proof fn lemma_attempts_exhausted(s: SessionView, p: Seq<char>)
    requires
        s.state == SessionState::Authorization,
        s.pending is Some,
        s.attempts >= s.max_attempts,
    ensures
        spec_begin(s, CommandView::Pass(p)).1 == ActionView::Reply(
            ReplyView {
                response: ResponseView::Negative("Too many authentication attempts"@),
                quit: true,
                event: None,
            },
        ),
{
}

/// The ids marked for deletion never repeat: a new session marks none,
/// and every step keeps them distinct (DELE marks only an id not yet marked),
/// so leaving after QUIT hands each marked message out for deletion once.
pub proof fn lemma_marked_stay_distinct(
    s: SessionView,
    c: CommandView,
    ms: Seq<MessageInfoView>,
    typed: Seq<char>,
    stored: Option<Seq<char>>,
)
    requires
        s.marked.no_duplicates(),
    ensures
        spec_begin(s, c).0.marked.no_duplicates(),
        spec_on_messages(s, c, ms).0.marked.no_duplicates(),
        spec_finish_login(s, typed, stored).0.marked.no_duplicates(),
        spec_commit(s).0.marked.no_duplicates(),
        spec_commit(s).1.no_duplicates(),
{
    assert(Seq::<Seq<char>>::empty().no_duplicates());
    if let CommandView::Dele(n) = c {
        if 1 <= n <= ms.len() && !s.marked.contains(ms[n - 1].id) {
            let m2 = s.marked.push(ms[n - 1].id);
            assert forall|a: int, b: int| 0 <= a < m2.len() && 0 <= b < m2.len() && a != b implies m2[a]
                != m2[b] by {
                if a < s.marked.len() && b < s.marked.len() {
                } else if a < s.marked.len() {
                    assert(s.marked.contains(m2[a]));
                } else {
                    assert(s.marked.contains(m2[b]));
                }
            }
        }
    }
}

/// LIST n and UIDL n answer, for a message that is there and not marked for
/// deletion, its number, a space, and its size in octets (LIST) or its
/// unique id (UIDL); for any other number, `No such message`. Neither
/// changes the session.
pub proof fn lemma_single_message_listings(s: SessionView, ms: Seq<MessageInfoView>, n: u32)
    ensures
        spec_on_messages(s, CommandView::List(Some(n)), ms).0 == s,
        spec_on_messages(s, CommandView::Uidl(Some(n)), ms).0 == s,
        1 <= n <= ms.len() && !s.marked.contains(ms[n - 1].id) ==> {
            &&& spec_on_messages(s, CommandView::List(Some(n)), ms).1 matches MailboxActionView::Reply(r)
                && r.response == ResponseView::Positive(
                decimal(n as nat) + " "@ + decimal(ms[n - 1].size as nat),
            )
            &&& spec_on_messages(s, CommandView::Uidl(Some(n)), ms).1 matches MailboxActionView::Reply(r)
                && r.response == ResponseView::Positive(decimal(n as nat) + " "@ + ms[n - 1].uidl)
        },
        !(1 <= n <= ms.len() && !s.marked.contains(ms[n - 1].id)) ==> {
            &&& spec_on_messages(s, CommandView::List(Some(n)), ms).1 matches MailboxActionView::Reply(r)
                && r.response == ResponseView::Negative("No such message"@)
            &&& spec_on_messages(s, CommandView::Uidl(Some(n)), ms).1 matches MailboxActionView::Reply(r)
                && r.response == ResponseView::Negative("No such message"@)
        },
{
}

/// The line of message `k` (counted from 1) in a LIST (`uidl` false) or UIDL
/// listing.
spec fn listing_line(ms: Seq<MessageInfoView>, uidl: bool, k: int) -> Seq<char> {
    decimal(k as nat) + " "@ + if uidl {
        ms[k - 1].uidl
    } else {
        decimal(ms[k - 1].size as nat)
    }
}

/// The number of the message that line `j` of a listing of the first `k`
/// messages is about.
spec fn listing_source(ms: Seq<MessageInfoView>, marked: Seq<Seq<char>>, uidl: bool, k: int, j: int) -> int
    decreases k,
{
    if k <= 0 {
        0
    } else if !marked.contains(ms[k - 1].id) && j == listing(ms, marked, uidl, k - 1).len() {
        k
    } else {
        listing_source(ms, marked, uidl, k - 1, j)
    }
}

/// Whether `line`, line `j` of a listing of the first `k` messages, is the
/// line of a message among them that is not marked for deletion.
spec fn line_of_source(
    ms: Seq<MessageInfoView>,
    marked: Seq<Seq<char>>,
    uidl: bool,
    k: int,
    j: int,
    line: Seq<char>,
) -> bool {
    let i = listing_source(ms, marked, uidl, k, j);
    &&& 1 <= i <= k
    &&& !marked.contains(ms[i - 1].id)
    &&& line == listing_line(ms, uidl, i)
}

/// What a listing of the first `k` messages holds: one line for each message
/// not marked for deletion, and no other line.
proof fn lemma_listing_lines(ms: Seq<MessageInfoView>, marked: Seq<Seq<char>>, uidl: bool, k: int)
    requires
        0 <= k <= ms.len(),
    ensures
        listing(ms, marked, uidl, k).len() == visible_count(ms, marked, k),
        forall|i: int|
            1 <= i <= k && !marked.contains(ms[i - 1].id) ==> listing(ms, marked, uidl, k).contains(
                #[trigger] listing_line(ms, uidl, i),
            ),
        forall|j: int|
            0 <= j < listing(ms, marked, uidl, k).len() ==> line_of_source(
                ms,
                marked,
                uidl,
                k,
                j,
                #[trigger] listing(ms, marked, uidl, k)[j],
            ),
        forall|j1: int, j2: int|
            0 <= j1 < j2 < listing(ms, marked, uidl, k).len() ==> #[trigger] listing_source(
                ms,
                marked,
                uidl,
                k,
                j1,
            ) < #[trigger] listing_source(ms, marked, uidl, k, j2),
    decreases k,
{
    if k > 0 {
        lemma_listing_lines(ms, marked, uidl, k - 1);
        let prev = listing(ms, marked, uidl, k - 1);
        let cur = listing(ms, marked, uidl, k);
        if !marked.contains(ms[k - 1].id) {
            assert(cur == prev.push(listing_line(ms, uidl, k)));
            assert forall|i: int| 1 <= i <= k && !marked.contains(ms[i - 1].id) implies cur.contains(
                #[trigger] listing_line(ms, uidl, i),
            ) by {
                if i < k {
                    let j = choose|j: int| 0 <= j < prev.len() && prev[j] == listing_line(ms, uidl, i);
                    assert(cur[j] == prev[j]);
                } else {
                    assert(cur[prev.len() as int] == listing_line(ms, uidl, k));
                }
            }
            assert forall|j: int| 0 <= j < cur.len() implies line_of_source(
                ms,
                marked,
                uidl,
                k,
                j,
                #[trigger] cur[j],
            ) by {
                if j < prev.len() {
                    assert(cur[j] == prev[j]);
                    assert(line_of_source(ms, marked, uidl, k - 1, j, prev[j]));
                }
            }
            assert forall|j1: int, j2: int| 0 <= j1 < j2 < cur.len() implies #[trigger] listing_source(
                ms,
                marked,
                uidl,
                k,
                j1,
            ) < #[trigger] listing_source(ms, marked, uidl, k, j2) by {
                assert(prev[j1] == cur[j1]);
                assert(line_of_source(ms, marked, uidl, k - 1, j1, prev[j1]));
                if j2 < prev.len() {
                    assert(listing_source(ms, marked, uidl, k - 1, j1) < listing_source(
                        ms,
                        marked,
                        uidl,
                        k - 1,
                        j2,
                    ));
                }
            }
        } else {
            assert(cur == prev);
            assert forall|j: int| 0 <= j < cur.len() implies line_of_source(
                ms,
                marked,
                uidl,
                k,
                j,
                #[trigger] cur[j],
            ) by {
                assert(cur[j] == prev[j]);
            }
            assert forall|j1: int, j2: int| 0 <= j1 < j2 < cur.len() implies #[trigger] listing_source(
                ms,
                marked,
                uidl,
                k,
                j1,
            ) < #[trigger] listing_source(ms, marked, uidl, k, j2) by {
                assert(listing_source(ms, marked, uidl, k - 1, j1) < listing_source(
                    ms,
                    marked,
                    uidl,
                    k - 1,
                    j2,
                ));
            }
        }
    }
}

/// LIST without an argument lists the mailbox: one line for each message
/// not marked for deletion, in the order of the messages, and no other line;
/// the line of message `k` is its number, a space, and its size in octets.
#[verifier::rlimit(40)]
pub proof fn lemma_list_of_mailbox(s: SessionView, ms: Seq<MessageInfoView>)
    ensures
        spec_on_messages(s, CommandView::List(None), ms).0 == s,
        spec_on_messages(s, CommandView::List(None), ms).1 matches MailboxActionView::Reply(r)
            && r.response matches ResponseView::MultiLine(head, ls) && {
            &&& head == "Message list follows"@
            &&& ls.len() == visible_count(ms, s.marked, ms.len() as int)
            &&& forall|k: int|
                1 <= k <= ms.len() && !s.marked.contains(ms[k - 1].id) ==> ls.contains(
                    decimal(k as nat) + " "@ + decimal((#[trigger] ms[k - 1]).size as nat),
                )
            &&& exists|ks: Seq<int>|
                #![trigger ks.len()]
                ks.len() == ls.len() && (forall|j: int|
                    0 <= j < ls.len() ==> {
                        &&& 1 <= #[trigger] ks[j] <= ms.len()
                        &&& !s.marked.contains(ms[ks[j] - 1].id)
                        &&& ls[j] == decimal(ks[j] as nat) + " "@ + decimal(ms[ks[j] - 1].size as nat)
                    }) && (forall|j1: int, j2: int|
                    0 <= j1 < j2 < ls.len() ==> #[trigger] ks[j1] < #[trigger] ks[j2])
        },
{
    let n = ms.len() as int;
    lemma_listing_lines(ms, s.marked, false, n);
    let l = listing(ms, s.marked, false, n);
    assert forall|k: int| 1 <= k <= ms.len() && !s.marked.contains(ms[k - 1].id) implies l.contains(
        decimal(k as nat) + " "@ + decimal((#[trigger] ms[k - 1]).size as nat),
    ) by {
        assert(l.contains(listing_line(ms, false, k)));
    }
    let ks = Seq::new(l.len(), |j: int| listing_source(ms, s.marked, false, n, j));
    assert forall|j: int| 0 <= j < l.len() implies {
        &&& 1 <= #[trigger] ks[j] <= ms.len()
        &&& !s.marked.contains(ms[ks[j] - 1].id)
        &&& l[j] == decimal(ks[j] as nat) + " "@ + decimal(ms[ks[j] - 1].size as nat)
    } by {
        assert(line_of_source(ms, s.marked, false, n, j, l[j]));
    }
    assert forall|j1: int, j2: int| 0 <= j1 < j2 < l.len() implies #[trigger] ks[j1] < #[trigger] ks[j2] by {
        assert(listing_source(ms, s.marked, false, n, j1) < listing_source(ms, s.marked, false, n, j2));
    }
    assert(ks.len() == l.len());
}

/// UIDL without an argument lists the mailbox: one line for each message
/// not marked for deletion, in the order of the messages, and no other line;
/// the line of message `k` is its number, a space, and its unique id.
#[verifier::rlimit(40)]
pub proof fn lemma_uidl_of_mailbox(s: SessionView, ms: Seq<MessageInfoView>)
    ensures
        spec_on_messages(s, CommandView::Uidl(None), ms).0 == s,
        spec_on_messages(s, CommandView::Uidl(None), ms).1 matches MailboxActionView::Reply(r)
            && r.response matches ResponseView::MultiLine(head, ls) && {
            &&& head == "Unique-ID listing follows"@
            &&& ls.len() == visible_count(ms, s.marked, ms.len() as int)
            &&& forall|k: int|
                1 <= k <= ms.len() && !s.marked.contains(ms[k - 1].id) ==> ls.contains(
                    decimal(k as nat) + " "@ + (#[trigger] ms[k - 1]).uidl,
                )
            &&& exists|ks: Seq<int>|
                #![trigger ks.len()]
                ks.len() == ls.len() && (forall|j: int|
                    0 <= j < ls.len() ==> {
                        &&& 1 <= #[trigger] ks[j] <= ms.len()
                        &&& !s.marked.contains(ms[ks[j] - 1].id)
                        &&& ls[j] == decimal(ks[j] as nat) + " "@ + ms[ks[j] - 1].uidl
                    }) && (forall|j1: int, j2: int|
                    0 <= j1 < j2 < ls.len() ==> #[trigger] ks[j1] < #[trigger] ks[j2])
        },
{
    let n = ms.len() as int;
    lemma_listing_lines(ms, s.marked, true, n);
    let l = listing(ms, s.marked, true, n);
    assert forall|k: int| 1 <= k <= ms.len() && !s.marked.contains(ms[k - 1].id) implies l.contains(
        decimal(k as nat) + " "@ + (#[trigger] ms[k - 1]).uidl,
    ) by {
        assert(l.contains(listing_line(ms, true, k)));
    }
    let ks = Seq::new(l.len(), |j: int| listing_source(ms, s.marked, true, n, j));
    assert forall|j: int| 0 <= j < l.len() implies {
        &&& 1 <= #[trigger] ks[j] <= ms.len()
        &&& !s.marked.contains(ms[ks[j] - 1].id)
        &&& l[j] == decimal(ks[j] as nat) + " "@ + ms[ks[j] - 1].uidl
    } by {
        assert(line_of_source(ms, s.marked, true, n, j, l[j]));
    }
    assert forall|j1: int, j2: int| 0 <= j1 < j2 < l.len() implies #[trigger] ks[j1] < #[trigger] ks[j2] by {
        assert(listing_source(ms, s.marked, true, n, j1) < listing_source(ms, s.marked, true, n, j2));
    }
    assert(ks.len() == l.len());
}

/// The whole-mailbox LIST and UIDL agree with LIST k and UIDL k: for every
/// message there and not marked for deletion, the one-line answer is a line
/// of the listing.
pub proof fn lemma_listings_agree(s: SessionView, ms: Seq<MessageInfoView>, k: u32)
    requires
        1 <= k <= ms.len(),
        !s.marked.contains(ms[k - 1].id),
    ensures
        spec_on_messages(s, CommandView::Uidl(Some(k)), ms).1 matches MailboxActionView::Reply(r1)
            && r1.response matches ResponseView::Positive(t) && spec_on_messages(
            s,
            CommandView::Uidl(None),
            ms,
        ).1 matches MailboxActionView::Reply(r2) && r2.response matches ResponseView::MultiLine(_, ls)
            && ls.contains(t),
        spec_on_messages(s, CommandView::List(Some(k)), ms).1 matches MailboxActionView::Reply(r1)
            && r1.response matches ResponseView::Positive(t) && spec_on_messages(
            s,
            CommandView::List(None),
            ms,
        ).1 matches MailboxActionView::Reply(r2) && r2.response matches ResponseView::MultiLine(_, ls)
            && ls.contains(t),
{
    lemma_listing_lines(ms, s.marked, false, ms.len() as int);
    lemma_listing_lines(ms, s.marked, true, ms.len() as int);
    assert(listing(ms, s.marked, false, ms.len() as int).contains(listing_line(ms, false, k as int)));
    assert(listing(ms, s.marked, true, ms.len() as int).contains(listing_line(ms, true, k as int)));
}

/// RETR sends the whole message: the status gives its size in octets, and
/// the body is every line of its text, in order.
pub proof fn lemma_retr_sends_every_line(s: SessionView, k: u32, size: usize, content: Seq<u8>)
    ensures
        spec_render_message(s, CommandView::Retr(k), size, content).response == ResponseView::MultiLine(
            decimal(size as nat) + " octets"@,
            lines(spec_utf8_lossy(content)),
        ),
{
}

/// TOP k n sends the message's header lines, the empty line that ends them,
/// and then the first `n` lines of the body (all of them when the body is
/// shorter); a message without an empty line is all header and is sent
/// whole. So TOP never sends more than the header, the empty line and `n`
/// lines, and what it sends is the start of what RETR sends.
pub proof fn lemma_top_sends_header_and_n_lines(
    s: SessionView,
    k: u32,
    n: u32,
    size: usize,
    content: Seq<u8>,
    h: int,
)
    requires
        0 <= h,
        forall|j: int| 0 <= j < h ==> (#[trigger] lines(spec_utf8_lossy(content))[j]).len() > 0,
    ensures
        ({
            let ls = lines(spec_utf8_lossy(content));
            let top = spec_render_message(s, CommandView::Top(k, n), size, content).response;
            &&& h < ls.len() && ls[h].len() == 0 ==> top == ResponseView::MultiLine(
                "Top of message follows"@,
                ls.take(
                    h + 1 + if n < ls.len() - h - 1 {
                        n as int
                    } else {
                        ls.len() - h - 1
                    },
                ),
            )
            &&& h == ls.len() ==> top == ResponseView::MultiLine("Top of message follows"@, ls)
        }),
{
    let ls = lines(spec_utf8_lossy(content));
    if h <= ls.len() {
        lemma_first_empty_line(ls, h);
        if h < ls.len() && ls[h].len() == 0 {
            let body = ls.skip(h + 1);
            let m = if n < body.len() {
                n as int
            } else {
                body.len() as int
            };
            assert(ls.take(h + 1) + body.take(m) =~= ls.take(h + 1 + m));
        }
    }
}

} // verus!
