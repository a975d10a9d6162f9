use lsmtp::session::{Session, SessionEnd};

fn run_lines(s: &mut Session, lines: &[&str]) -> Vec<Vec<u8>> {
    lines.iter().map(|l| s.step(l)).collect()
}

#[test]
fn end_to_end_transaction() {
    let mut s = Session::new("mx.example".to_string(), 1000);
    assert_eq!(s.greeting(), b"220 mx.example LSMTP Server (Rust)\r\n".to_vec());
    let replies = run_lines(
        &mut s,
        &[
            "EHLO a\r\n",
            "MAIL FROM:<a@x.com>\r\n",
            "RCPT TO:<b@x.com>\r\n",
            "DATA\r\n",
            "Hello\r\n",
            ".\r\n",
            "QUIT\r\n",
        ],
    );
    assert_eq!(replies[0], b"250-mx.example\r\n250 SIZE 1000\r\n".to_vec());
    assert_eq!(replies[1], b"250 OK\r\n".to_vec());
    assert_eq!(replies[2], b"250 OK\r\n".to_vec());
    assert_eq!(replies[3], b"354 End data with <CR><LF>.<CR><LF>\r\n".to_vec());
    assert!(replies[4].is_empty());
    assert_eq!(replies[5], b"250 OK: Message accepted\r\n".to_vec());
    assert_eq!(replies[6], b"221 Bye\r\n".to_vec());
    assert!(s.is_closed());
    let e = s.conclude(SessionEnd::Quit).expect("message forwarded");
    assert_eq!(e.sender(), "a@x.com");
    assert_eq!(e.recipients(), &vec!["b@x.com".to_string()]);
    assert_eq!(e.content(), "Hello\n");
}

#[test]
fn complete_session_keeps_sender_recipients_and_body() {
    let mut s = Session::new("mx".to_string(), 5000);
    run_lines(
        &mut s,
        &[
            "HELO client.test\n",
            "MAIL FROM: sender@x.org SIZE=10\n",
            "RCPT TO: one@y.org \n",
            "rcpt to:<two@y.org>\n",
            "RCPT TO:<one@y.org>\n",
            "DATA\n",
            "Subject: hi\n",
            "\n",
            "  indented line\r\n",
            ".\n",
            "QUIT\n",
        ],
    );
    assert!(!s.in_data_mode());
    let e = s.conclude(SessionEnd::Quit).expect("message forwarded");
    assert_eq!(e.sender(), "sender@x.org");
    assert_eq!(
        e.recipients(),
        &vec!["one@y.org".to_string(), "two@y.org".to_string(), "one@y.org".to_string()]
    );
    assert_eq!(e.content(), "Subject: hi\n\n  indented line\n");
}

#[test]
fn missing_sender_is_not_forwarded() {
    let mut s = Session::new("mx".to_string(), 100);
    run_lines(&mut s, &["RCPT TO:<b@x.com>", "DATA", "body", ".", "QUIT"]);
    assert!(s.conclude(SessionEnd::Quit).is_none());
}

#[test]
fn missing_recipients_is_not_forwarded() {
    let mut s = Session::new("mx".to_string(), 100);
    run_lines(&mut s, &["MAIL FROM:<a@x.com>", "DATA", "body", ".", "QUIT"]);
    assert!(s.conclude(SessionEnd::Quit).is_none());
}

#[test]
fn missing_content_is_not_forwarded() {
    let mut s = Session::new("mx".to_string(), 100);
    run_lines(&mut s, &["MAIL FROM:<a@x.com>", "RCPT TO:<b@x.com>", "DATA", ".", "QUIT"]);
    assert!(s.conclude(SessionEnd::Quit).is_none());
}

#[test]
fn size_at_limit_is_refused_and_sender_stays_empty() {
    let mut s = Session::new("mx".to_string(), 1000);
    let r = s.step("MAIL FROM:<a@x.com> SIZE=1000\r\n");
    assert_eq!(r, b"552 Message size exceeds fixed maximum message size\r\n".to_vec());
    assert_eq!(s.email().sender(), "");
    let r = s.step("MAIL FROM:<a@x.com> size=5000000000000000000000000\r\n");
    assert_eq!(r, b"552 Message size exceeds fixed maximum message size\r\n".to_vec());
    assert_eq!(s.email().sender(), "");
    let r = s.step("MAIL FROM:<a@x.com> SIZE=999\r\n");
    assert_eq!(r, b"250 OK\r\n".to_vec());
    assert_eq!(s.email().sender(), "a@x.com");
}

#[test]
fn refused_mail_from_keeps_earlier_sender() {
    let mut s = Session::new("mx".to_string(), 100);
    s.step("MAIL FROM:<first@x.com>");
    let r = s.step("MAIL FROM: nonsense");
    assert_eq!(r, b"552 Message size exceeds fixed maximum message size\r\n".to_vec());
    assert_eq!(s.email().sender(), "first@x.com");
}

#[test]
fn timeout_in_data_forwards_nothing() {
    let mut s = Session::new("mx".to_string(), 100);
    run_lines(&mut s, &["EHLO a", "MAIL FROM:<a@x.com>", "RCPT TO:<b@x.com>", "DATA", "Hello"]);
    assert!(s.in_data_mode());
    assert!(s.conclude(SessionEnd::TimedOut).is_none());
}

#[test]
fn transport_error_forwards_nothing() {
    let mut s = Session::new("mx".to_string(), 100);
    run_lines(&mut s, &["MAIL FROM:<a@x.com>", "RCPT TO:<b@x.com>", "DATA", "Hello", "."]);
    assert!(s.conclude(SessionEnd::TransportError).is_none());
}

#[test]
fn peer_close_forwards_nothing() {
    let mut s = Session::new("mx".to_string(), 100);
    run_lines(&mut s, &["MAIL FROM:<a@x.com>", "RCPT TO:<b@x.com>", "DATA", "Hello", "."]);
    assert!(s.conclude(SessionEnd::PeerClosed).is_none());
}

#[test]
fn reset_empties_the_message() {
    let mut s = Session::new("mx".to_string(), 100);
    run_lines(&mut s, &["MAIL FROM:<a@x.com>", "RCPT TO:<b@x.com>"]);
    let id = s.email().get_id().to_string();
    assert_eq!(s.step("RSET\r\n"), b"250 OK\r\n".to_vec());
    assert_eq!(s.email().sender(), "");
    assert!(s.email().recipients().is_empty());
    assert_eq!(s.email().get_id(), id);
}

#[test]
fn unknown_and_near_miss_commands_are_not_implemented() {
    let mut s = Session::new("mx".to_string(), 100);
    for l in ["NOOP", "DATA now", "VRFY x", ""] {
        assert_eq!(s.step(l), b"502 Command not implemented\r\n".to_vec());
    }
    assert!(!s.in_data_mode());
}

#[test]
fn commands_ignore_case() {
    let mut s = Session::new("mx".to_string(), 100);
    assert_eq!(s.step("helo there"), b"250 mx\r\n".to_vec());
    assert_eq!(s.step("mail from:<a@x.com>"), b"250 OK\r\n".to_vec());
    assert_eq!(s.step("Data"), b"354 End data with <CR><LF>.<CR><LF>\r\n".to_vec());
    assert!(s.in_data_mode());
}

#[test]
fn body_lines_are_kept_verbatim() {
    let mut s = Session::new("mx".to_string(), 100);
    run_lines(&mut s, &["DATA", "..leading dots", "QUIT", "MAIL FROM:<x@y>", "."]);
    assert_eq!(s.email().content(), "..leading dots\nQUIT\nMAIL FROM:<x@y>\n");
    assert!(!s.is_closed());
    assert_eq!(s.email().sender(), "");
}

#[test]
fn quit_closes_and_later_lines_are_ignored() {
    let mut s = Session::new("mx".to_string(), 100);
    assert_eq!(s.step("quit"), b"221 Bye\r\n".to_vec());
    assert!(s.is_closed());
    assert!(s.step("MAIL FROM:<a@x.com>").is_empty());
    assert_eq!(s.email().sender(), "");
}

#[test]
fn dot_outside_data_is_acknowledged() {
    let mut s = Session::new("mx".to_string(), 100);
    assert_eq!(s.step(".\r\n"), b"250 OK: Message accepted\r\n".to_vec());
    assert!(!s.in_data_mode());
}

#[test]
fn non_ascii_case_variants_are_commands() {
    let mut s = Session::new("mx".to_string(), 100);
    assert_eq!(s.step("ma\u{131}l from:<a@x.com>\r\n"), b"250 OK\r\n".to_vec());
    assert_eq!(s.email().sender(), "a@x.com");
    assert_eq!(s.step("qu\u{131}t\r\n"), b"221 Bye\r\n".to_vec());
    assert!(s.is_closed());
}
