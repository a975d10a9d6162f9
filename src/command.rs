//! Classification of one protocol line into a command.

use vstd::prelude::*;
use crate::support::{upper_of, uppercase};
use crate::text::{has_prefix, same_text, starts_with};

verus! {

/// The commands of the protocol; every line falls under exactly one.
#[derive(Debug, Clone, Copy, PartialEq, Eq, Structural)]
pub enum SMTPCommand {
    EHLO,
    HELO,
    MailFrom,
    RcptTo,
    Data,
    Dot,
    Quit,
    Reset,
    Unknown,
}

/// The command that an uppercased line stands for: the first rule that
/// matches.
pub open spec fn classify_upper(u: Seq<char>) -> SMTPCommand {
    if has_prefix(u, "EHLO"@) {
        SMTPCommand::EHLO
    } else if has_prefix(u, "HELO"@) {
        SMTPCommand::HELO
    } else if has_prefix(u, "MAIL FROM:"@) {
        SMTPCommand::MailFrom
    } else if has_prefix(u, "RCPT TO:"@) {
        SMTPCommand::RcptTo
    } else if u == "DATA"@ {
        SMTPCommand::Data
    } else if u == "."@ {
        SMTPCommand::Dot
    } else if u == "RSET"@ {
        SMTPCommand::Reset
    } else if u == "QUIT"@ {
        SMTPCommand::Quit
    } else {
        SMTPCommand::Unknown
    }
}

/// The command that `line` (already stripped of its line ending) stands
/// for, case being ignored: the line is uppercased, then classified.
pub open spec fn classify(line: Seq<char>) -> SMTPCommand {
    classify_upper(upper_of(line))
}

impl SMTPCommand {
    /// Classifies one line, stripped of its line ending.
    pub fn from_str(command: &str) -> (r: SMTPCommand)
        ensures
            r == classify(command@),
    {
        let u = uppercase(command);
        SMTPCommand::from_upper(u.as_str())
    }

    /// Classifies a line that has already been uppercased.
    pub fn from_upper(u: &str) -> (r: SMTPCommand)
        ensures
            r == classify_upper(u@),
    {
        if starts_with(u, "EHLO") {
            SMTPCommand::EHLO
        } else if starts_with(u, "HELO") {
            SMTPCommand::HELO
        } else if starts_with(u, "MAIL FROM:") {
            SMTPCommand::MailFrom
        } else if starts_with(u, "RCPT TO:") {
            SMTPCommand::RcptTo
        } else if same_text(u, "DATA") {
            SMTPCommand::Data
        } else if same_text(u, ".") {
            SMTPCommand::Dot
        } else if same_text(u, "RSET") {
            SMTPCommand::Reset
        } else if same_text(u, "QUIT") {
            SMTPCommand::Quit
        } else {
            SMTPCommand::Unknown
        }
    }
}

} // verus!
