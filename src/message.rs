//! The mail record that a session builds and the publisher relays, and its
//! serialised form.

use vstd::prelude::*;
use vstd::string::*;
use vstd::utf8::encode_utf8;
use crate::support::{
    current_timestamp, hex_lower, is_uuid_v4, json_escape, json_escape_char, json_quoted, json_string,
    uuid_v4,
};
use crate::text::views;

verus! {

/// One mail transaction.
#[derive(Debug)]
pub struct Email {
    timestamp: String,
    message_id: String,
    recipients: Vec<String>,
    email_content: String,
    sender: String,
}

/// The mathematical content of an `Email`.
pub struct EmailView {
    pub timestamp: Seq<char>,
    pub id: Seq<char>,
    pub recipients: Seq<Seq<char>>,
    pub content: Seq<char>,
    pub sender: Seq<char>,
}

impl View for Email {
    type V = EmailView;

    closed spec fn view(&self) -> EmailView {
        EmailView {
            timestamp: self.timestamp@,
            id: self.message_id@,
            recipients: views(self.recipients@),
            content: self.email_content@,
            sender: self.sender@,
        }
    }
}

/// A message may be forwarded when it has a sender, a recipient and content.
pub open spec fn forwardable(e: EmailView) -> bool {
    e.sender.len() > 0 && e.recipients.len() > 0 && e.content.len() > 0
}

/// An identifier as the library assigns them: a random UUID in hyphenated
/// lowercase form, so `<id>.json` names a plain file.
pub open spec fn valid_id(id: Seq<char>) -> bool {
    is_uuid_v4(id)
}

/// The same message with sender, recipients and content emptied.
pub open spec fn cleared(e: EmailView) -> EmailView {
    EmailView { recipients: seq![], content: seq![], sender: seq![], ..e }
}

/// The JSON array of the strings `items`, without its brackets.
pub open spec fn json_items(items: Seq<Seq<char>>) -> Seq<char>
    decreases items.len(),
{
    if items.len() == 0 {
        seq![]
    } else if items.len() == 1 {
        json_quoted(items[0])
    } else {
        json_quoted(items[0]) + ","@ + json_items(items.drop_first())
    }
}

proof fn lemma_json_items_push(items: Seq<Seq<char>>, x: Seq<char>)
    requires
        items.len() > 0,
    ensures
        json_items(items.push(x)) == json_items(items) + ","@ + json_quoted(x),
    decreases items.len(),
{
    let p = items.push(x);
    assert(p[0] == items[0]);
    if items.len() == 1 {
        assert(p.drop_first() =~= seq![x]);
        assert(json_items(seq![x]) == json_quoted(x));
    } else {
        assert(p.drop_first() =~= items.drop_first().push(x));
        lemma_json_items_push(items.drop_first(), x);
        assert(json_quoted(items[0]) + ","@ + (json_items(items.drop_first()) + ","@ + json_quoted(x))
            =~= json_quoted(items[0]) + ","@ + json_items(items.drop_first()) + ","@ + json_quoted(x));
    }
}

proof fn lemma_hex_lower_injective(d: nat, e: nat)
    requires
        d < 16,
        e < 16,
        hex_lower(d) == hex_lower(e),
    ensures
        d == e,
{
}

/// An escaped character can be read back: its escape, followed by anything,
/// tells the character.
proof fn lemma_escape_char_unique(a: char, b: char, x: Seq<char>, y: Seq<char>)
    requires
        json_escape_char(a) + x == json_escape_char(b) + y,
    ensures
        a == b,
{
    let ea = json_escape_char(a);
    let eb = json_escape_char(b);
    let l = ea + x;
    let r = eb + y;
    assert(l[0] == ea[0]);
    assert(r[0] == eb[0]);
    if ea.len() > 1 && eb.len() > 1 {
        assert(l[1] == ea[1]);
        assert(r[1] == eb[1]);
        if ea.len() == 6 && eb.len() == 6 {
            assert(l[4] == ea[4] && r[4] == eb[4]);
            assert(l[5] == ea[5] && r[5] == eb[5]);
            lemma_hex_lower_injective((a as u32 / 16) as nat, (b as u32 / 16) as nat);
            lemma_hex_lower_injective((a as u32 % 16) as nat, (b as u32 % 16) as nat);
            assert(a as u32 == b as u32);
        }
    }
}

/// An escaped string followed by a closing quote can be read back: the
/// string and what follows the quote are both determined.
proof fn lemma_escape_unique(a: Seq<char>, b: Seq<char>, x: Seq<char>, y: Seq<char>)
    requires
        json_escape(a) + seq!['"'] + x == json_escape(b) + seq!['"'] + y,
    ensures
        a == b,
        x == y,
    decreases a.len() + b.len(),
{
    let l = json_escape(a) + seq!['"'] + x;
    let r = json_escape(b) + seq!['"'] + y;
    if a.len() == 0 && b.len() == 0 {
        assert(l.skip(1) =~= x);
        assert(r.skip(1) =~= y);
    } else if a.len() == 0 {
        assert(l[0] == '"');
        assert(r[0] == json_escape_char(b[0])[0]);
    } else if b.len() == 0 {
        assert(r[0] == '"');
        assert(l[0] == json_escape_char(a[0])[0]);
    } else {
        let ea = json_escape_char(a[0]);
        let eb = json_escape_char(b[0]);
        let ra = json_escape(a.drop_first()) + seq!['"'] + x;
        let rb = json_escape(b.drop_first()) + seq!['"'] + y;
        assert(l =~= ea + ra);
        assert(r =~= eb + rb);
        lemma_escape_char_unique(a[0], b[0], ra, rb);
        assert(ra =~= l.skip(ea.len() as int));
        assert(rb =~= r.skip(eb.len() as int));
        lemma_escape_unique(a.drop_first(), b.drop_first(), x, y);
        assert(a =~= seq![a[0]] + a.drop_first());
        assert(b =~= seq![b[0]] + b.drop_first());
    }
}

/// A quoted string followed by anything can be read back.
proof fn lemma_quoted_unique(a: Seq<char>, b: Seq<char>, x: Seq<char>, y: Seq<char>)
    requires
        json_quoted(a) + x == json_quoted(b) + y,
    ensures
        a == b,
        x == y,
{
    let l = json_quoted(a) + x;
    let r = json_quoted(b) + y;
    assert(l.skip(1) =~= json_escape(a) + seq!['"'] + x);
    assert(r.skip(1) =~= json_escape(b) + seq!['"'] + y);
    lemma_escape_unique(a, b, x, y);
}

/// A list of quoted strings followed by `]` can be read back.
proof fn lemma_items_unique(a: Seq<Seq<char>>, b: Seq<Seq<char>>, x: Seq<char>, y: Seq<char>)
    requires
        json_items(a) + seq![']'] + x == json_items(b) + seq![']'] + y,
    ensures
        a == b,
        x == y,
    decreases a.len(),
{
    reveal_strlit(",");
    let l = json_items(a) + seq![']'] + x;
    let r = json_items(b) + seq![']'] + y;
    if a.len() == 0 && b.len() == 0 {
        assert(l.skip(1) =~= x);
        assert(r.skip(1) =~= y);
        assert(a =~= b);
    } else if a.len() == 0 {
        assert(l[0] == ']');
        assert(r[0] == json_quoted(b[0])[0]);
    } else if b.len() == 0 {
        assert(r[0] == ']');
        assert(l[0] == json_quoted(a[0])[0]);
    } else {
        let ta = if a.len() == 1 { seq![']'] + x } else { ","@ + json_items(a.drop_first()) + seq![']'] + x };
        let tb = if b.len() == 1 { seq![']'] + y } else { ","@ + json_items(b.drop_first()) + seq![']'] + y };
        assert(l =~= json_quoted(a[0]) + ta);
        assert(r =~= json_quoted(b[0]) + tb);
        lemma_quoted_unique(a[0], b[0], ta, tb);
        assert(ta[0] == tb[0]);
        if a.len() == 1 && b.len() == 1 {
            assert(ta.skip(1) =~= x);
            assert(tb.skip(1) =~= y);
            assert(a =~= b);
        } else if a.len() > 1 && b.len() > 1 {
            assert(ta.skip(1) =~= json_items(a.drop_first()) + seq![']'] + x);
            assert(tb.skip(1) =~= json_items(b.drop_first()) + seq![']'] + y);
            lemma_items_unique(a.drop_first(), b.drop_first(), x, y);
            assert(a =~= seq![a[0]] + a.drop_first());
            assert(b =~= seq![b[0]] + b.drop_first());
        }
    }
}

/// The serialised message: a JSON object with the fields `timestamp`,
/// `message_id`, `recipients`, `email_content` and `sender`, in that order.
pub open spec fn payload_text(e: EmailView) -> Seq<char> {
    "{\"timestamp\":"@ + json_quoted(e.timestamp) + ",\"message_id\":"@ + json_quoted(e.id)
        + ",\"recipients\":["@ + json_items(e.recipients) + "],\"email_content\":"@
        + json_quoted(e.content) + ",\"sender\":"@ + json_quoted(e.sender) + "}"@
}

proof fn lemma_drop_prefix(k: Seq<char>, u: Seq<char>, v: Seq<char>)
    requires
        k + u == k + v,
    ensures
        u == v,
{
    assert((k + u).skip(k.len() as int) =~= u);
    assert((k + v).skip(k.len() as int) =~= v);
}

/// The payload from its recipients on, given what follows the list.
pub open spec fn payload_from_recipients(e: EmailView) -> Seq<char> {
    ",\"recipients\":["@ + json_items(e.recipients) + seq![']'] + payload_from_content(e)
}

/// The payload from its content on.
pub open spec fn payload_from_content(e: EmailView) -> Seq<char> {
    ",\"email_content\":"@ + json_quoted(e.content) + ",\"sender\":"@ + json_quoted(e.sender) + "}"@
}

proof fn lemma_payload_split(e: EmailView)
    ensures
        payload_text(e) == "{\"timestamp\":"@ + (json_quoted(e.timestamp) + (",\"message_id\":"@ + (
        json_quoted(e.id) + payload_from_recipients(e)))),
{
    reveal_strlit("],\"email_content\":");
    reveal_strlit(",\"email_content\":");
    assert("],\"email_content\":"@ =~= seq![']'] + ",\"email_content\":"@);
    assert(payload_text(e) =~= "{\"timestamp\":"@ + (json_quoted(e.timestamp) + (
    ",\"message_id\":"@ + (json_quoted(e.id) + payload_from_recipients(e)))));
}

proof fn lemma_content_unique(a: EmailView, b: EmailView)
    requires
        payload_from_content(a) == payload_from_content(b),
    ensures
        a.content == b.content,
        a.sender == b.sender,
{
    let k4 = ",\"email_content\":"@;
    let k5 = ",\"sender\":"@;
    let k6 = "}"@;
    assert(payload_from_content(a) =~= k4 + (json_quoted(a.content) + (k5 + (json_quoted(a.sender) + k6))));
    assert(payload_from_content(b) =~= k4 + (json_quoted(b.content) + (k5 + (json_quoted(b.sender) + k6))));
    lemma_drop_prefix(k4, json_quoted(a.content) + (k5 + (json_quoted(a.sender) + k6)),
        json_quoted(b.content) + (k5 + (json_quoted(b.sender) + k6)));
    lemma_quoted_unique(a.content, b.content, k5 + (json_quoted(a.sender) + k6),
        k5 + (json_quoted(b.sender) + k6));
    lemma_drop_prefix(k5, json_quoted(a.sender) + k6, json_quoted(b.sender) + k6);
    lemma_quoted_unique(a.sender, b.sender, k6, k6);
}

proof fn lemma_recipients_unique(a: EmailView, b: EmailView)
    requires
        payload_from_recipients(a) == payload_from_recipients(b),
    ensures
        a.recipients == b.recipients,
        a.content == b.content,
        a.sender == b.sender,
{
    let k3 = ",\"recipients\":["@;
    let ta = json_items(a.recipients) + seq![']'] + payload_from_content(a);
    let tb = json_items(b.recipients) + seq![']'] + payload_from_content(b);
    assert(payload_from_recipients(a) =~= k3 + ta);
    assert(payload_from_recipients(b) =~= k3 + tb);
    lemma_drop_prefix(k3, ta, tb);
    lemma_items_unique(a.recipients, b.recipients, payload_from_content(a), payload_from_content(b));
    lemma_content_unique(a, b);
}

/// Serialising loses nothing: two messages with the same payload are equal
/// field for field, so reading a payload back can only give the message that
/// was written.
pub proof fn lemma_payload_determines_message(a: EmailView, b: EmailView)
    requires
        payload_text(a) == payload_text(b),
    ensures
        a == b,
{
    let k1 = "{\"timestamp\":"@;
    let k2 = ",\"message_id\":"@;
    lemma_payload_split(a);
    lemma_payload_split(b);
    let r1a = k2 + (json_quoted(a.id) + payload_from_recipients(a));
    let r1b = k2 + (json_quoted(b.id) + payload_from_recipients(b));
    lemma_drop_prefix(k1, json_quoted(a.timestamp) + r1a, json_quoted(b.timestamp) + r1b);
    lemma_quoted_unique(a.timestamp, b.timestamp, r1a, r1b);
    lemma_drop_prefix(k2, json_quoted(a.id) + payload_from_recipients(a),
        json_quoted(b.id) + payload_from_recipients(b));
    lemma_quoted_unique(a.id, b.id, payload_from_recipients(a), payload_from_recipients(b));
    lemma_recipients_unique(a, b);
}

/// Where the overflow store keeps a message: `<dir>/<id>.json`.
pub open spec fn overflow_path_text(dir: Seq<char>, id: Seq<char>) -> Seq<char> {
    dir + "/"@ + id + ".json"@
}

impl Email {
    /// A message with the given parts, a fresh identifier and the current time.
    pub fn new(recipients: Vec<String>, email_content: String, sender: String) -> (r: Email)
        ensures
            r@.recipients == views(recipients@),
            r@.content == email_content@,
            r@.sender == sender@,
            valid_id(r@.id),
            r@.timestamp.len() > 0,
    {
        let timestamp = current_timestamp();
        let message_id = uuid_v4();
        Email { timestamp, message_id, recipients, email_content, sender }
    }

    /// An empty message with a fresh identifier and the current time.
    pub fn empty() -> (r: Email)
        ensures
            r@.recipients.len() == 0,
            r@.content.len() == 0,
            r@.sender.len() == 0,
            valid_id(r@.id),
            r@.timestamp.len() > 0,
    {
        Email {
            timestamp: current_timestamp(),
            message_id: uuid_v4(),
            recipients: Vec::new(),
            email_content: String::new(),
            sender: String::new(),
        }
    }

    pub fn get_id(&self) -> (r: &str)
        ensures
            r@ == self@.id,
    {
        self.message_id.as_str()
    }

    /// Appends one recipient; earlier ones stay, duplicates included.
    pub fn add_recipient(&mut self, recipient: String)
        ensures
            final(self)@ == (EmailView {
                recipients: old(self)@.recipients.push(recipient@),
                ..old(self)@
            }),
    {
        let ghost prev = self.recipients@;
        self.recipients.push(recipient);
        assert(views(self.recipients@) =~= views(prev).push(recipient@));
    }

    /// Appends text to the content.
    pub fn add_content(&mut self, content: String)
        ensures
            final(self)@ == (EmailView { content: old(self)@.content + content@, ..old(self)@ }),
    {
        self.email_content.append(content.as_str());
    }

    pub fn set_sender(&mut self, sender: String)
        ensures
            final(self)@ == (EmailView { sender: sender@, ..old(self)@ }),
    {
        self.sender = sender;
    }

    /// Empties sender, recipients and content; identifier and time stay.
    pub fn reset(&mut self)
        ensures
            final(self)@ == cleared(old(self)@),
    {
        self.recipients = Vec::new();
        self.email_content = String::new();
        self.sender = String::new();
        assert(views(self.recipients@) =~= Seq::<Seq<char>>::empty());
    }

    /// Checks that the message may be forwarded; the error names the first
    /// part that is missing.
    pub fn validate(&self) -> (r: Result<(), String>)
        ensures
            r is Ok <==> forwardable(self@),
            r matches Err(m) ==> m@ == (if self@.sender.len() == 0 {
                "Sender is empty"@
            } else if self@.recipients.len() == 0 {
                "Recipients are empty"@
            } else {
                "Email content is empty"@
            }),
    {
        if self.sender.as_str().is_empty() {
            return Err("Sender is empty".to_owned());
        }
        if self.recipients.len() == 0 {
            return Err("Recipients are empty".to_owned());
        }
        if self.email_content.as_str().is_empty() {
            return Err("Email content is empty".to_owned());
        }
        Ok(())
    }

    /// The message as the broker and the overflow store receive it.
    pub fn serialize(&self) -> (r: Vec<u8>)
        ensures
            r@ == encode_utf8(payload_text(self@)),
    {
        let s = self.payload();
        s.as_str().as_bytes_vec()
    }

    /// The serialised message as text.
    pub fn payload(&self) -> (r: String)
        ensures
            r@ == payload_text(self@),
    {
        let mut s = "{\"timestamp\":".to_owned();
        s.append(json_string(self.timestamp.as_str()).as_str());
        s.append(",\"message_id\":");
        s.append(json_string(self.message_id.as_str()).as_str());
        s.append(",\"recipients\":[");
        let ghost head = s@;
        let ghost rs = views(self.recipients@);
        let mut i: usize = 0;
        assert(rs.take(0) =~= Seq::<Seq<char>>::empty());
        assert(s@ =~= head + json_items(rs.take(0)));
        while i < self.recipients.len()
            invariant
                rs == views(self.recipients@),
                i <= self.recipients.len(),
                s@ == head + json_items(rs.take(i as int)),
            decreases self.recipients.len() - i,
        {
            let q = json_string(self.recipients[i].as_str());
            assert(rs.take(i + 1).drop_last() =~= rs.take(i as int));
            if i > 0 {
                s.append(",");
            }
            s.append(q.as_str());
            proof {
                if i == 0 {
                    assert(rs.take(1) =~= seq![rs[0]]);
                } else {
                    assert(rs.take(i + 1) =~= rs.take(i as int).push(rs[i as int]));
                    lemma_json_items_push(rs.take(i as int), rs[i as int]);
                }
            }
            i = i + 1;
        }
        assert(rs.take(i as int) =~= rs);
        s.append("],\"email_content\":");
        s.append(json_string(self.email_content.as_str()).as_str());
        s.append(",\"sender\":");
        s.append(json_string(self.sender.as_str()).as_str());
        s.append("}");
        s
    }

    /// The file of the overflow store, under `dir`, that holds this message.
    pub fn overflow_path(&self, dir: &str) -> (r: String)
        ensures
            r@ == overflow_path_text(dir@, self@.id),
    {
        let mut s = dir.to_owned();
        s.append("/");
        s.append(self.message_id.as_str());
        s.append(".json");
        s
    }

    pub fn timestamp(&self) -> (r: &str)
        ensures
            r@ == self@.timestamp,
    {
        self.timestamp.as_str()
    }

    pub fn sender(&self) -> (r: &str)
        ensures
            r@ == self@.sender,
    {
        self.sender.as_str()
    }

    pub fn content(&self) -> (r: &str)
        ensures
            r@ == self@.content,
    {
        self.email_content.as_str()
    }

    pub fn recipients(&self) -> (r: &Vec<String>)
        ensures
            views(r@) == self@.recipients,
    {
        &self.recipients
    }
}

} // verus!
