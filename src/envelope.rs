//! Messages and the JSON envelope in which they travel to clients.
use vstd::prelude::*;
use vstd::string::StringExecFns;

verus! {

/// The lowercase hexadecimal digit of `n` (for `n < 16`).
pub open spec fn hex_digit(n: nat) -> char {
    seq!['0', '1', '2', '3', '4', '5', '6', '7', '8', '9', 'a', 'b', 'c', 'd', 'e', 'f'][n as int]
}

/// How one character stands inside a JSON string literal: quote and
/// backslash are escaped, the control characters below U+0020 take their
/// short escape where JSON has one and `\u00XX` otherwise, and every other
/// character stands as it is.
pub open spec fn json_escape_char(c: char) -> Seq<char> {
    if c == '"' {
        seq!['\\', '"']
    } else if c == '\\' {
        seq!['\\', '\\']
    } else if c == '\x08' {
        seq!['\\', 'b']
    } else if c == '\t' {
        seq!['\\', 't']
    } else if c == '\n' {
        seq!['\\', 'n']
    } else if c == '\x0C' {
        seq!['\\', 'f']
    } else if c == '\r' {
        seq!['\\', 'r']
    } else if (c as u32) < 0x20 {
        seq!['\\', 'u', '0', '0', hex_digit((c as u32 / 16) as nat), hex_digit((c as u32 % 16) as nat)]
    } else {
        seq![c]
    }
}

/// The escaped body of a JSON string literal holding `s`.
pub open spec fn json_escape(s: Seq<char>) -> Seq<char>
    decreases s.len(),
{
    if s.len() == 0 {
        Seq::empty()
    } else {
        json_escape(s.drop_last()) + json_escape_char(s.last())
    }
}

/// The JSON string literal holding `s`, quotes included.
pub open spec fn json_string(s: Seq<char>) -> Seq<char> {
    seq!['"'] + json_escape(s) + seq!['"']
}

/// The wire envelope of a message: a JSON object with exactly the two string
/// fields `channel` and `message`, in that order, without whitespace.
pub open spec fn envelope_of(channel: Seq<char>, payload: Seq<char>) -> Seq<char> {
    seq!['{', '"', 'c', 'h', 'a', 'n', 'n', 'e', 'l', '"', ':']
        + json_string(channel)
        + seq![',', '"', 'm', 'e', 's', 's', 'a', 'g', 'e', '"', ':']
        + json_string(payload)
        + seq!['}']
}

/// Relies on `serde_json::to_string` applied to a `str`: it writes the string
/// as a JSON literal through `format_escaped_str`, escaping by its `ESCAPE`
/// table, into a `Vec<u8>`, whose writes do not fail.
#[verifier::external_body]
fn json_quote(s: &str) -> (r: Option<String>)
    ensures
        r is Some,
        r matches Some(q) ==> q@ == json_string(s@),
{
    serde_json::to_string(s).ok()
}

/// A message taken from the subscription source: the channel it was
/// published on and its payload. It is not changed once made.
pub struct Message {
    pub channel: String,
    pub payload: String,
}

/// The mathematical value of a message.
pub struct MessageView {
    pub channel: Seq<char>,
    pub payload: Seq<char>,
}

impl View for Message {
    type V = MessageView;

    open spec fn view(&self) -> MessageView {
        MessageView { channel: self.channel@, payload: self.payload@ }
    }
}

impl Message {
    /// Normalises a channel name and a payload, as the source hands them
    /// over, into a message.
    pub fn new(channel: String, payload: String) -> (r: Message)
        ensures
            r.channel@ == channel@,
            r.payload@ == payload@,
    {
        Message { channel, payload }
    }

    /// A copy of this message.
    pub fn duplicate(&self) -> (r: Message)
        ensures
            r@ == self@,
    {
        Message { channel: self.channel.clone(), payload: self.payload.clone() }
    }

    /// The JSON envelope that carries this message to a client.
    pub fn envelope(&self) -> (r: String)
        ensures
            r@ == envelope_of(self.channel@, self.payload@),
    {
        let channel = match json_quote(self.channel.as_str()) {
            Some(q) => q,
            None => String::new(),
        };
        let payload = match json_quote(self.payload.as_str()) {
            Some(q) => q,
            None => String::new(),
        };
        let mut r = String::from_str("{\"channel\":");
        r.append(channel.as_str());
        r.append(",\"message\":");
        r.append(payload.as_str());
        r.append("}");
        proof {
            reveal_strlit("{\"channel\":");
            reveal_strlit(",\"message\":");
            reveal_strlit("}");
            assert(r@ =~= envelope_of(self.channel@, self.payload@));
        }
        r
    }
}

} // verus!
