use lsmtp::command::SMTPCommand;

#[test]
fn classifies_each_command() {
    assert_eq!(SMTPCommand::from_str("EHLO host"), SMTPCommand::EHLO);
    assert_eq!(SMTPCommand::from_str("HELO host"), SMTPCommand::HELO);
    assert_eq!(SMTPCommand::from_str("MAIL FROM:<a@b>"), SMTPCommand::MailFrom);
    assert_eq!(SMTPCommand::from_str("RCPT TO:<a@b>"), SMTPCommand::RcptTo);
    assert_eq!(SMTPCommand::from_str("DATA"), SMTPCommand::Data);
    assert_eq!(SMTPCommand::from_str("."), SMTPCommand::Dot);
    assert_eq!(SMTPCommand::from_str("RSET"), SMTPCommand::Reset);
    assert_eq!(SMTPCommand::from_str("QUIT"), SMTPCommand::Quit);
    assert_eq!(SMTPCommand::from_str("NOOP"), SMTPCommand::Unknown);
}

#[test]
fn classification_ignores_case_but_not_extra_text() {
    assert_eq!(SMTPCommand::from_str("ehlo"), SMTPCommand::EHLO);
    assert_eq!(SMTPCommand::from_str("Mail From:x@y"), SMTPCommand::MailFrom);
    assert_eq!(SMTPCommand::from_str("rcpt to:"), SMTPCommand::RcptTo);
    assert_eq!(SMTPCommand::from_str("quit"), SMTPCommand::Quit);
    assert_eq!(SMTPCommand::from_str("QUIT now"), SMTPCommand::Unknown);
    assert_eq!(SMTPCommand::from_str("RSET "), SMTPCommand::Unknown);
    assert_eq!(SMTPCommand::from_str("MAIL FROM"), SMTPCommand::Unknown);
    assert_eq!(SMTPCommand::from_str(".."), SMTPCommand::Unknown);
    assert_eq!(SMTPCommand::from_str(""), SMTPCommand::Unknown);
}

#[test]
fn classification_follows_unicode_uppercasing() {
    // dotless i and long s uppercase to ASCII I and S
    assert_eq!(SMTPCommand::from_str("qu\u{131}t"), SMTPCommand::Quit);
    assert_eq!(SMTPCommand::from_str("r\u{17F}et"), SMTPCommand::Reset);
    assert_eq!(SMTPCommand::from_str("ma\u{131}l from:<a@x.com>"), SMTPCommand::MailFrom);
    assert_eq!(SMTPCommand::from_str("\u{17F}"), SMTPCommand::Unknown);
}

#[test]
fn classification_of_uppercased_text_is_exact() {
    assert_eq!(SMTPCommand::from_upper("EHLO X"), SMTPCommand::EHLO);
    assert_eq!(SMTPCommand::from_upper("RCPT TO:"), SMTPCommand::RcptTo);
    assert_eq!(SMTPCommand::from_upper("DATA"), SMTPCommand::Data);
    assert_eq!(SMTPCommand::from_upper("data"), SMTPCommand::Unknown);
    assert_eq!(SMTPCommand::from_upper("QUIT "), SMTPCommand::Unknown);
}
