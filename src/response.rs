//! The server's replies, and the reading of a `MAIL FROM` argument.

use vstd::prelude::*;
use vstd::string::*;
use vstd::utf8::encode_utf8;
use crate::text::{
    ci_starts_with, decimal, decimal_string, is_number, is_number_str, number_capped,
    number_value, split_words, starts_with_ci, views, words,
};

verus! {

/// The replies whose text does not depend on the configuration.
#[derive(Debug, Clone, Copy, PartialEq, Eq, Structural)]
pub enum SMTPResponse {
    OK,
    DATA,
    BYE,
    NotImplemented,
    OkWithMessage,
    SizeLimitExceeded,
}

impl SMTPResponse {
    pub open spec fn spec_text(self) -> Seq<char> {
        match self {
            SMTPResponse::OK => "250 OK\r\n"@,
            SMTPResponse::DATA => "354 End data with <CR><LF>.<CR><LF>\r\n"@,
            SMTPResponse::BYE => "221 Bye\r\n"@,
            SMTPResponse::NotImplemented => "502 Command not implemented\r\n"@,
            SMTPResponse::OkWithMessage => "250 OK: Message accepted\r\n"@,
            SMTPResponse::SizeLimitExceeded =>
                "552 Message size exceeds fixed maximum message size\r\n"@,
        }
    }

    /// The reply's text, line ending included.
    pub fn text(&self) -> (r: &'static str)
        ensures
            r@ == self.spec_text(),
    {
        match self {
            SMTPResponse::OK => "250 OK\r\n",
            SMTPResponse::DATA => "354 End data with <CR><LF>.<CR><LF>\r\n",
            SMTPResponse::BYE => "221 Bye\r\n",
            SMTPResponse::NotImplemented => "502 Command not implemented\r\n",
            SMTPResponse::OkWithMessage => "250 OK: Message accepted\r\n",
            SMTPResponse::SizeLimitExceeded =>
                "552 Message size exceeds fixed maximum message size\r\n",
        }
    }

    /// The reply as it goes on the wire.
    pub fn as_bytes(&self) -> (r: &'static [u8])
        ensures
            r@ == encode_utf8(self.spec_text()),
    {
        self.text().as_bytes()
    }

    /// The banner sent when a client connects.
    pub fn greet(server_name: &String) -> (r: Vec<u8>)
        ensures
            r@ == encode_utf8(greeting_text(server_name@)),
    {
        let s = greeting(server_name);
        s.as_str().as_bytes_vec()
    }

    /// The reply to `HELO`.
    pub fn helo_response(server_name: &String) -> (r: Vec<u8>)
        ensures
            r@ == encode_utf8(helo_text(server_name@)),
    {
        let s = helo_reply(server_name);
        s.as_str().as_bytes_vec()
    }

    /// The reply to `EHLO`: the server's name, then the size limit on the
    /// last line.
    pub fn ehlo_response(server_name: &String, max_email_size: usize) -> (r: Vec<u8>)
        ensures
            r@ == encode_utf8(ehlo_text(server_name@, max_email_size as nat)),
    {
        let s = ehlo_reply(server_name, max_email_size);
        s.as_str().as_bytes_vec()
    }

    /// Reads the argument of `MAIL FROM:` (the text after the colon).
    /// Returns the sender address and whether the command is acceptable.
    pub fn mail_from_response(addr_part: &str, max_email_size: usize) -> (r: (String, bool))
        ensures
            (r.0@, r.1) == mail_from_spec(addr_part@, max_email_size as nat),
    {
        let toks = split_words(addr_part);
        let mut sender = String::new();
        let mut valid = true;
        let mut i: usize = 0;
        let ghost all = views(toks@);
        assert(all.skip(0) =~= all);
        while i < toks.len()
            invariant
                all == views(toks@),
                all == words(addr_part@),
                i <= toks.len(),
                mail_from_spec(addr_part@, max_email_size as nat) == mail_from_scan(
                    all.skip(i as int),
                    max_email_size as nat,
                    sender@,
                    valid,
                ),
            decreases toks.len() - i,
        {
            let t: &str = toks[i].as_str();
            let ghost rest = all.skip(i as int);
            assert(rest[0] == t@);
            assert(rest.drop_first() =~= all.skip(i + 1));
            let n = t.unicode_len();
            if n > 5 && starts_with_ci(t, "SIZE=") && is_number_str(t.substring_char(5, n)) {
                proof {
                    reveal_strlit("SIZE=");
                    assert(t@.skip(5) =~= t@.subrange(5, n as int));
                }
                let v = number_capped(t.substring_char(5, n), max_email_size as u64);
                if v >= max_email_size as u64 {
                    valid = false;
                }
            } else {
                proof {
                    reveal_strlit("SIZE=");
                    if is_size_param(t@) {
                        assert(t@.skip(5) =~= t@.subrange(5, n as int));
                    }
                }
                if n >= 2 && t.get_char(0) == '<' && t.get_char(n - 1) == '>' {
                    sender = t.substring_char(1, n - 1).to_owned();
                } else if has_at_sign(t) {
                    sender = t.to_owned();
                } else {
                    return (sender, false);
                }
            }
            i = i + 1;
        }
        (sender, valid)
    }
}

/// The banner's text.
pub open spec fn greeting_text(name: Seq<char>) -> Seq<char> {
    "220 "@ + name + " LSMTP Server (Rust)\r\n"@
}

/// The text of the reply to `HELO`.
pub open spec fn helo_text(name: Seq<char>) -> Seq<char> {
    "250 "@ + name + "\r\n"@
}

/// The text of the reply to `EHLO`.
pub open spec fn ehlo_text(name: Seq<char>, max: nat) -> Seq<char> {
    "250-"@ + name + "\r\n"@ + "250 SIZE "@ + decimal(max) + "\r\n"@
}

pub fn greeting(server_name: &String) -> (r: String)
    ensures
        r@ == greeting_text(server_name@),
{
    let mut s = "220 ".to_owned();
    s.append(server_name.as_str());
    s.append(" LSMTP Server (Rust)\r\n");
    s
}

pub fn helo_reply(server_name: &String) -> (r: String)
    ensures
        r@ == helo_text(server_name@),
{
    let mut s = "250 ".to_owned();
    s.append(server_name.as_str());
    s.append("\r\n");
    s
}

pub fn ehlo_reply(server_name: &String, max_email_size: usize) -> (r: String)
    ensures
        r@ == ehlo_text(server_name@, max_email_size as nat),
{
    let mut s = "250-".to_owned();
    s.append(server_name.as_str());
    s.append("\r\n");
    s.append("250 SIZE ");
    let d = decimal_string(max_email_size as u64);
    s.append(d.as_str());
    s.append("\r\n");
    s
}

/// A `SIZE=<n>` parameter, its key in any case.
pub open spec fn is_size_param(t: Seq<char>) -> bool {
    t.len() > 5 && ci_starts_with(t, "SIZE="@) && is_number(t.skip(5))
}

/// An address in angle brackets.
pub open spec fn is_bracketed(t: Seq<char>) -> bool {
    t.len() >= 2 && t[0] == '<' && t.last() == '>'
}

pub open spec fn has_at(t: Seq<char>) -> bool {
    exists|k: int| 0 <= k < t.len() && t[k] == '@'
}

/// The scan of the words of a `MAIL FROM` argument. A size parameter at or
/// over `max` makes the command unacceptable; an address in brackets or one
/// that holds `@` becomes the sender, the last one winning; any other word
/// makes the command unacceptable and ends the scan.
pub open spec fn mail_from_scan(
    toks: Seq<Seq<char>>,
    max: nat,
    sender: Seq<char>,
    valid: bool,
) -> (Seq<char>, bool)
    decreases toks.len(),
{
    if toks.len() == 0 {
        (sender, valid)
    } else {
        let t = toks[0];
        let rest = toks.drop_first();
        if is_size_param(t) {
            mail_from_scan(rest, max, sender, valid && number_value(t.skip(5)) < max)
        } else if is_bracketed(t) {
            mail_from_scan(rest, max, t.subrange(1, t.len() - 1), valid)
        } else if has_at(t) {
            mail_from_scan(rest, max, t, valid)
        } else {
            (sender, false)
        }
    }
}

/// The sender and acceptability that a `MAIL FROM` argument gives.
pub open spec fn mail_from_spec(arg: Seq<char>, max: nat) -> (Seq<char>, bool) {
    mail_from_scan(words(arg), max, seq![], true)
}

fn has_at_sign(t: &str) -> (r: bool)
    ensures
        r == has_at(t@),
{
    let n = t.unicode_len();
    let mut k: usize = 0;
    while k < n
        invariant
            n == t@.len(),
            k <= n,
            forall|q: int| 0 <= q < k ==> t@[q] != '@',
        decreases n - k,
    {
        if t.get_char(k) == '@' {
            return true;
        }
        k = k + 1;
    }
    false
}

} // verus!
