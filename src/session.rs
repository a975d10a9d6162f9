//! The per-connection session: it reads one line at a time, answers it and
//! builds one message.

use vstd::prelude::*;
use vstd::string::*;
use vstd::utf8::encode_utf8;
use crate::command::{classify, SMTPCommand};
use crate::message::{cleared, forwardable, Email, EmailView};
use crate::response::{
    ehlo_reply, ehlo_text, greeting_text, helo_reply, helo_text, is_bracketed, is_size_param, mail_from_scan,
    mail_from_spec, SMTPResponse,
};
use crate::text::{number_value, trim, trimmed, words};

verus! {

/// How a session came to an end.
#[derive(Debug, Clone, Copy, PartialEq, Eq, Structural)]
pub enum SessionEnd {
    /// The client sent `QUIT`.
    Quit,
    /// The client closed its side of the connection.
    PeerClosed,
    /// Reading or writing failed.
    TransportError,
    /// The session's deadline passed.
    TimedOut,
}

/// The state of one connection.
pub struct Session {
    server_name: String,
    max_email_size: usize,
    client_identity: String,
    email: Email,
    data_mode: bool,
    closed: bool,
}

pub struct SessionView {
    pub server_name: Seq<char>,
    pub max: nat,
    /// The name the client gave in `HELO` or `EHLO`, for information only.
    pub client: Seq<char>,
    pub email: EmailView,
    /// Whether lines are body text rather than commands.
    pub data_mode: bool,
    /// Whether the client has sent `QUIT`.
    pub closed: bool,
}

impl View for Session {
    type V = SessionView;

    closed spec fn view(&self) -> SessionView {
        SessionView {
            server_name: self.server_name@,
            max: self.max_email_size as nat,
            client: self.client_identity@,
            email: self.email@,
            data_mode: self.data_mode,
            closed: self.closed,
        }
    }
}

/// `s` without the line ending that a line reader leaves on it: every
/// trailing `\r` and `\n`.
pub open spec fn strip_eol(s: Seq<char>) -> Seq<char>
    decreases s.len(),
{
    if s.len() > 0 && (s.last() == '\r' || s.last() == '\n') {
        strip_eol(s.drop_last())
    } else {
        s
    }
}

/// The characters of `line` from index `k` on; none where it is shorter.
pub open spec fn after(line: Seq<char>, k: nat) -> Seq<char> {
    if line.len() >= k {
        line.skip(k as int)
    } else {
        seq![]
    }
}

/// What a session does with one line read from the client: the state after
/// it and the text sent back (empty for a line of body text).
pub open spec fn session_next(s: SessionView, raw: Seq<char>) -> (SessionView, Seq<char>) {
    let line = strip_eol(raw);
    if s.closed {
        (s, seq![])
    } else if s.data_mode {
        if line == "."@ {
            (SessionView { data_mode: false, ..s }, SMTPResponse::OkWithMessage.spec_text())
        } else {
            (
                SessionView {
                    email: EmailView { content: s.email.content + line + "\n"@, ..s.email },
                    ..s
                },
                seq![],
            )
        }
    } else {
        match classify(line) {
            SMTPCommand::HELO => (
                SessionView { client: trim(after(line, 5)), ..s },
                helo_text(s.server_name),
            ),
            SMTPCommand::EHLO => (
                SessionView { client: trim(after(line, 5)), ..s },
                ehlo_text(s.server_name, s.max),
            ),
            SMTPCommand::MailFrom => {
                let r = mail_from_spec(trim(after(line, 10)), s.max);
                if r.1 {
                    (
                        SessionView { email: EmailView { sender: r.0, ..s.email }, ..s },
                        SMTPResponse::OK.spec_text(),
                    )
                } else {
                    (s, SMTPResponse::SizeLimitExceeded.spec_text())
                }
            },
            SMTPCommand::RcptTo => (
                SessionView {
                    email: EmailView {
                        recipients: s.email.recipients.push(rcpt_address(after(line, 8))),
                        ..s.email
                    },
                    ..s
                },
                SMTPResponse::OK.spec_text(),
            ),
            SMTPCommand::Data => (SessionView { data_mode: true, ..s }, SMTPResponse::DATA.spec_text()),
            SMTPCommand::Dot => (s, SMTPResponse::OkWithMessage.spec_text()),
            SMTPCommand::Reset => (
                SessionView { email: cleared(s.email), ..s },
                SMTPResponse::OK.spec_text(),
            ),
            SMTPCommand::Quit => (SessionView { closed: true, ..s }, SMTPResponse::BYE.spec_text()),
            SMTPCommand::Unknown => (s, SMTPResponse::NotImplemented.spec_text()),
        }
    }
}

/// The address of a `RCPT TO:` argument: trimmed, and taken out of its
/// angle brackets where it stands in them.
pub open spec fn rcpt_address(arg: Seq<char>) -> Seq<char> {
    let t = trim(arg);
    if is_bracketed(t) {
        t.subrange(1, t.len() - 1)
    } else {
        t
    }
}

/// A fresh session: nothing gathered, expecting commands.
pub open spec fn fresh(s: SessionView) -> bool {
    &&& s.email.sender.len() == 0
    &&& s.email.recipients.len() == 0
    &&& s.email.content.len() == 0
    &&& !s.data_mode
    &&& !s.closed
}

/// The state after a session reads `lines` in turn.
pub open spec fn state_after(s: SessionView, lines: Seq<Seq<char>>) -> SessionView
    decreases lines.len(),
{
    if lines.len() == 0 {
        s
    } else {
        state_after(session_next(s, lines[0]).0, lines.drop_first())
    }
}

/// A line that carries no line ending of its own.
pub open spec fn no_eol(l: Seq<char>) -> bool {
    l.len() == 0 || (l.last() != '\r' && l.last() != '\n')
}

/// The body that a run of body lines builds: each line followed by `\n`.
pub open spec fn body_text(body: Seq<Seq<char>>) -> Seq<char>
    decreases body.len(),
{
    if body.len() == 0 {
        seq![]
    } else {
        body_text(body.drop_last()) + body.last() + "\n"@
    }
}

pub open spec fn rcpt_lines(args: Seq<Seq<char>>) -> Seq<Seq<char>> {
    args.map_values(|a: Seq<char>| "RCPT TO:"@ + a)
}

pub open spec fn addresses(args: Seq<Seq<char>>) -> Seq<Seq<char>> {
    args.map_values(|a: Seq<char>| rcpt_address(a))
}

/// The lines of one whole mail transaction: a greeting, `MAIL FROM:`, one
/// `RCPT TO:` per recipient, `DATA`, the body and the final `.`.
pub open spec fn transaction_lines(
    hello: Seq<char>,
    mail_arg: Seq<char>,
    rcpt_args: Seq<Seq<char>>,
    body: Seq<Seq<char>>,
) -> Seq<Seq<char>> {
    seq![hello, "MAIL FROM:"@ + mail_arg] + rcpt_lines(rcpt_args) + seq!["DATA"@] + body + seq![
        "."@,
    ]
}

proof fn lemma_state_after_append(s: SessionView, a: Seq<Seq<char>>, b: Seq<Seq<char>>)
    ensures
        state_after(s, a + b) == state_after(state_after(s, a), b),
    decreases a.len(),
{
    if a.len() == 0 {
        assert(a + b =~= b);
    } else {
        assert((a + b).drop_first() =~= a.drop_first() + b);
        lemma_state_after_append(session_next(s, a[0]).0, a.drop_first(), b);
    }
}

proof fn lemma_state_after_one(s: SessionView, l: Seq<char>)
    ensures
        state_after(s, seq![l]) == session_next(s, l).0,
{
    assert(seq![l].drop_first() =~= Seq::<Seq<char>>::empty());
    reveal_with_fuel(state_after, 2);
}

proof fn lemma_rcpts(s: SessionView, args: Seq<Seq<char>>)
    requires
        !s.data_mode,
        !s.closed,
        forall|i: int| 0 <= i < args.len() ==> no_eol("RCPT TO:"@ + #[trigger] args[i]),
        forall|i: int| 0 <= i < args.len() ==> classify("RCPT TO:"@ + #[trigger] args[i])
            == SMTPCommand::RcptTo,
    ensures
        state_after(s, rcpt_lines(args)) == (SessionView {
            email: EmailView {
                recipients: s.email.recipients + addresses(args),
                ..s.email
            },
            ..s
        }),
    decreases args.len(),
{
    reveal_strlit("RCPT TO:");
    if args.len() == 0 {
        assert(rcpt_lines(args) =~= Seq::<Seq<char>>::empty());
        assert(s.email.recipients + addresses(args) =~= s.email.recipients);
    } else {
        let init = args.drop_last();
        let a = args.last();
        lemma_rcpts(s, init);
        assert(rcpt_lines(args) =~= rcpt_lines(init) + seq!["RCPT TO:"@ + a]);
        lemma_state_after_append(s, rcpt_lines(init), seq!["RCPT TO:"@ + a]);
        let mid = state_after(s, rcpt_lines(init));
        lemma_state_after_one(mid, "RCPT TO:"@ + a);
        let line = "RCPT TO:"@ + a;
        assert(no_eol(line));
        assert(strip_eol(line) == line);
        assert(classify(line) == SMTPCommand::RcptTo) by {
            assert(a == args[args.len() - 1]);
        }
        assert(after(line, 8) =~= a);
        assert(addresses(args) =~= addresses(init).push(rcpt_address(a)));
        assert(s.email.recipients + addresses(args) =~= (s.email.recipients + addresses(
            init,
        )).push(rcpt_address(a)));
    }
}

proof fn lemma_body(s: SessionView, body: Seq<Seq<char>>)
    requires
        s.data_mode,
        !s.closed,
        forall|i: int| 0 <= i < body.len() ==> no_eol(#[trigger] body[i]) && body[i] != "."@,
    ensures
        state_after(s, body) == (SessionView {
            email: EmailView { content: s.email.content + body_text(body), ..s.email },
            ..s
        }),
    decreases body.len(),
{
    if body.len() == 0 {
        assert(s.email.content + body_text(body) =~= s.email.content);
    } else {
        let init = body.drop_last();
        let b = body.last();
        lemma_body(s, init);
        assert(body =~= init + seq![b]);
        lemma_state_after_append(s, init, seq![b]);
        let mid = state_after(s, init);
        lemma_state_after_one(mid, b);
        assert(no_eol(b));
        assert(strip_eol(b) == b);
        assert(s.email.content + body_text(body) =~= s.email.content + body_text(init) + b
            + "\n"@);
    }
}

/// A whole transaction on a fresh session: a greeting, `MAIL FROM:` with an
/// acceptable argument that names a sender, at least one `RCPT TO:`, `DATA`,
/// at least one body line and the final `.` (each command line being one
/// that uppercases to that command), leaves a message that has
/// exactly that sender, exactly those recipients (each trimmed and out of its brackets), and the body
/// lines each followed by a newline; the message may be forwarded.
pub proof fn lemma_complete_transaction(
    s: SessionView,
    hello: Seq<char>,
    mail_arg: Seq<char>,
    rcpt_args: Seq<Seq<char>>,
    body: Seq<Seq<char>>,
)
    requires
        fresh(s),
        classify(hello) == SMTPCommand::HELO || classify(hello) == SMTPCommand::EHLO,
        no_eol(hello),
        no_eol("MAIL FROM:"@ + mail_arg),
        classify("MAIL FROM:"@ + mail_arg) == SMTPCommand::MailFrom,
        classify("DATA"@) == SMTPCommand::Data,
        mail_from_spec(trim(mail_arg), s.max).1,
        mail_from_spec(trim(mail_arg), s.max).0.len() > 0,
        rcpt_args.len() >= 1,
        forall|i: int| 0 <= i < rcpt_args.len() ==> no_eol("RCPT TO:"@ + #[trigger] rcpt_args[i]),
        forall|i: int| 0 <= i < rcpt_args.len() ==> classify("RCPT TO:"@ + #[trigger] rcpt_args[i])
            == SMTPCommand::RcptTo,
        body.len() >= 1,
        forall|i: int| 0 <= i < body.len() ==> no_eol(#[trigger] body[i]) && body[i] != "."@,
    ensures
        ({
            let t = state_after(s, transaction_lines(hello, mail_arg, rcpt_args, body));
            &&& t.email.sender == mail_from_spec(trim(mail_arg), s.max).0
            &&& t.email.recipients == addresses(rcpt_args)
            &&& t.email.content == body_text(body)
            &&& forwardable(t.email)
            &&& !t.data_mode
            &&& !t.closed
        }),
{
    reveal_strlit("MAIL FROM:");
    reveal_strlit("DATA");
    reveal_strlit(".");
    let mail = "MAIL FROM:"@ + mail_arg;
    let head = seq![hello, mail];
    let rl = rcpt_lines(rcpt_args);
    let lines = transaction_lines(hello, mail_arg, rcpt_args, body);
    assert(lines =~= head + rl + seq!["DATA"@] + body + seq!["."@]);
    lemma_state_after_append(s, head + rl + seq!["DATA"@] + body, seq!["."@]);
    lemma_state_after_append(s, head + rl + seq!["DATA"@], body);
    lemma_state_after_append(s, head + rl, seq!["DATA"@]);
    lemma_state_after_append(s, head, rl);
    assert(head =~= seq![hello] + seq![mail]);
    lemma_state_after_append(s, seq![hello], seq![mail]);
    // the greeting
    assert(strip_eol(hello) == hello);
    lemma_state_after_one(s, hello);
    let s1 = session_next(s, hello).0;
    assert(s1.email == s.email && !s1.data_mode && !s1.closed && s1.max == s.max);
    // MAIL FROM
    assert(strip_eol(mail) == mail);
    assert(after(mail, 10) =~= mail_arg);
    lemma_state_after_one(s1, mail);
    let s2 = session_next(s1, mail).0;
    assert(s2.email.sender == mail_from_spec(trim(mail_arg), s.max).0);
    assert(state_after(s, head) == s2);
    // RCPT TO
    lemma_rcpts(s2, rcpt_args);
    let s3 = state_after(s2, rl);
    assert(s.email.recipients + addresses(rcpt_args) =~= addresses(rcpt_args));
    // DATA
    let data = "DATA"@;
    assert(strip_eol(data) == data);
    lemma_state_after_one(s3, data);
    let s4 = session_next(s3, data).0;
    // body
    lemma_body(s4, body);
    let s5 = state_after(s4, body);
    assert(s.email.content + body_text(body) =~= body_text(body));
    // the final dot
    let dot = "."@;
    assert(strip_eol(dot) == dot);
    lemma_state_after_one(s5, dot);
    assert(body_text(body).len() > 0) by {
        reveal_strlit("\n");
        assert(body_text(body) == body_text(body.drop_last()) + body.last() + "\n"@);
    }
}

proof fn lemma_scan_rejects_large_size(toks: Seq<Seq<char>>, max: nat, sender: Seq<char>, valid: bool, k: int)
    requires
        0 <= k < toks.len(),
        is_size_param(toks[k]),
        number_value(toks[k].skip(5)) >= max,
    ensures
        !mail_from_scan(toks, max, sender, valid).1,
    decreases toks.len(),
{
    let t = toks[0];
    let rest = toks.drop_first();
    if k == 0 {
        lemma_scan_stays_invalid(rest, max, sender);
    } else {
        assert(rest[k - 1] == toks[k]);
        if is_size_param(t) {
            lemma_scan_rejects_large_size(rest, max, sender, valid && number_value(t.skip(5)) < max, k - 1);
        } else if t.len() >= 2 && t[0] == '<' && t.last() == '>' {
            lemma_scan_rejects_large_size(rest, max, t.subrange(1, t.len() - 1), valid, k - 1);
        } else {
            lemma_scan_rejects_large_size(rest, max, t, valid, k - 1);
        }
    }
}

proof fn lemma_scan_stays_invalid(toks: Seq<Seq<char>>, max: nat, sender: Seq<char>)
    ensures
        !mail_from_scan(toks, max, sender, false).1,
    decreases toks.len(),
{
    if toks.len() > 0 {
        let t = toks[0];
        let rest = toks.drop_first();
        if is_size_param(t) {
            lemma_scan_stays_invalid(rest, max, sender);
        } else if t.len() >= 2 && t[0] == '<' && t.last() == '>' {
            lemma_scan_stays_invalid(rest, max, t.subrange(1, t.len() - 1));
        } else {
            lemma_scan_stays_invalid(rest, max, t);
        }
    }
}

/// A `MAIL FROM:` line one of whose words is a `SIZE=` parameter at or over
/// the size limit is answered with the size-exceeded reply and changes
/// nothing: the sender stays as it was.
pub proof fn lemma_size_limit_rejected(s: SessionView, line: Seq<char>, k: int)
    requires
        !s.closed,
        !s.data_mode,
        no_eol(line),
        classify(line) == SMTPCommand::MailFrom,
        0 <= k < words(trim(after(line, 10))).len(),
        is_size_param(words(trim(after(line, 10)))[k]),
        number_value(words(trim(after(line, 10)))[k].skip(5)) >= s.max,
    ensures
        session_next(s, line) == (s, SMTPResponse::SizeLimitExceeded.spec_text()),
{
    lemma_scan_rejects_large_size(words(trim(after(line, 10))), s.max, seq![], true, k);
    assert(strip_eol(line) == line);
}

/// `s` without its trailing `\r` and `\n`.
pub fn strip_line_ending(s: &str) -> (r: &str)
    ensures
        r@ == strip_eol(s@),
{
    let n = s.unicode_len();
    let mut j: usize = n;
    assert(s@.take(n as int) =~= s@);
    while j > 0 && (s.get_char(j - 1) == '\r' || s.get_char(j - 1) == '\n')
        invariant
            n == s@.len(),
            j <= n,
            strip_eol(s@) == strip_eol(s@.take(j as int)),
        decreases j,
    {
        assert(s@.take(j as int).drop_last() =~= s@.take(j - 1));
        j = j - 1;
    }
    assert(s@.take(n as int) =~= s@);
    assert(s@.take(j as int) =~= s@.subrange(0, j as int));
    s.substring_char(0, j)
}

/// `trim(after(line, k))`, computed.
fn argument(line: &str, k: usize) -> (r: String)
    ensures
        r@ == trim(after(line@, k as nat)),
{
    let n = line.unicode_len();
    if n >= k {
        let rest = line.substring_char(k, n);
        assert(rest@ =~= line@.skip(k as int));
        trimmed(rest)
    } else {
        proof {
            reveal_strlit("");
        }
        let r = trimmed("");
        assert(""@ =~= Seq::<char>::empty());
        r
    }
}

/// The address that a `RCPT TO:` line names.
fn recipient_address(line: &str) -> (r: String)
    ensures
        r@ == rcpt_address(after(line@, 8)),
{
    let t = argument(line, 8);
    let n = t.as_str().unicode_len();
    if n >= 2 && t.as_str().get_char(0) == '<' && t.as_str().get_char(n - 1) == '>' {
        t.as_str().substring_char(1, n - 1).to_owned()
    } else {
        t
    }
}

impl Session {
    /// A session for a new connection: an empty message with a fresh
    /// identifier.
    pub fn new(server_name: String, max_email_size: usize) -> (r: Session)
        ensures
            fresh(r@),
            r@.server_name == server_name@,
            r@.max == max_email_size as nat,
    {
        Session {
            server_name,
            max_email_size,
            client_identity: String::new(),
            email: Email::empty(),
            data_mode: false,
            closed: false,
        }
    }

    /// The banner to send when the connection opens.
    pub fn greeting(&self) -> (r: Vec<u8>)
        ensures
            r@ == encode_utf8(greeting_text(self@.server_name)),
    {
        SMTPResponse::greet(&self.server_name)
    }

    /// Handles one line as read from the client, line ending included, and
    /// returns the bytes to send back (none for body text).
    pub fn step(&mut self, raw: &str) -> (r: Vec<u8>)
        ensures
            final(self)@ == session_next(old(self)@, raw@).0,
            r@ == encode_utf8(session_next(old(self)@, raw@).1),
    {
        let line = strip_line_ending(raw);
        if self.closed {
            return Vec::new();
        }
        if self.data_mode {
            if crate::text::same_text(line, ".") {
                self.data_mode = false;
                return SMTPResponse::OkWithMessage.text().as_bytes_vec();
            }
            let mut text = line.to_owned();
            text.append("\n");
            let ghost c = self@.email.content;
            self.email.add_content(text);
            assert(c + (line@ + "\n"@) =~= c + line@ + "\n"@);
            return Vec::new();
        }
        let reply: String = match SMTPCommand::from_str(line) {
            SMTPCommand::HELO => {
                self.client_identity = argument(line, 5);
                helo_reply(&self.server_name)
            },
            SMTPCommand::EHLO => {
                self.client_identity = argument(line, 5);
                ehlo_reply(&self.server_name, self.max_email_size)
            },
            SMTPCommand::MailFrom => {
                let arg = argument(line, 10);
                let (sender, valid) = SMTPResponse::mail_from_response(
                    arg.as_str(),
                    self.max_email_size,
                );
                if valid {
                    self.email.set_sender(sender);
                    SMTPResponse::OK.text().to_owned()
                } else {
                    SMTPResponse::SizeLimitExceeded.text().to_owned()
                }
            },
            SMTPCommand::RcptTo => {
                self.email.add_recipient(recipient_address(line));
                SMTPResponse::OK.text().to_owned()
            },
            SMTPCommand::Data => {
                self.data_mode = true;
                SMTPResponse::DATA.text().to_owned()
            },
            SMTPCommand::Dot => SMTPResponse::OkWithMessage.text().to_owned(),
            SMTPCommand::Reset => {
                self.email.reset();
                SMTPResponse::OK.text().to_owned()
            },
            SMTPCommand::Quit => {
                self.closed = true;
                SMTPResponse::BYE.text().to_owned()
            },
            SMTPCommand::Unknown => SMTPResponse::NotImplemented.text().to_owned(),
        };
        reply.as_str().as_bytes_vec()
    }

    /// Whether the client has sent `QUIT`.
    pub fn is_closed(&self) -> (r: bool)
        ensures
            r == self@.closed,
    {
        self.closed
    }

    /// Whether lines are body text.
    pub fn in_data_mode(&self) -> (r: bool)
        ensures
            r == self@.data_mode,
    {
        self.data_mode
    }

    /// The message gathered so far.
    pub fn email(&self) -> (r: &Email)
        ensures
            r@ == self@.email,
    {
        &self.email
    }

    /// Ends the session. The message is handed on only where the client
    /// ended the session with `QUIT` and the message has a sender, a
    /// recipient and content; a connection closed by the client, a transport
    /// error or the deadline hands nothing on.
    pub fn conclude(self, end: SessionEnd) -> (r: Option<Email>)
        ensures
            r is Some <==> (end == SessionEnd::Quit && forwardable(self@.email)),
            r matches Some(e) ==> e@ == self@.email,
    {
        match end {
            SessionEnd::Quit => match self.email.validate() {
                Ok(()) => Some(self.email),
                Err(_) => None,
            },
            SessionEnd::PeerClosed | SessionEnd::TransportError | SessionEnd::TimedOut => None,
        }
    }
}

} // verus!
