//! The frames of the terminal connection: decoding what the client sends
//! and encoding what it receives.

use vstd::prelude::*;
use vstd::string::*;

verus! {

/// A message from the client.
pub enum ClientMessage {
    /// Start a shell; the client may name the session.
    Create { id: Option<String> },
    /// Raw input for a session's shell.
    Input { session_id: String, data: String },
    /// New terminal geometry for a session.
    Resize { session_id: String, cols: u16, rows: u16 },
    /// End a session.
    Close { session_id: String },
}

/// A message to the client.
pub enum ServerMessage {
    Created { session_id: String },
    Output { session_id: String, data: String },
    Closed { session_id: String },
    Error { message: String },
}

/// One member of a received JSON object, as far as decoding cares.
pub enum Field {
    Absent,
    Null,
    Text(String),
    Unsigned(u64),
    /// Any other JSON value: a negative or fractional number, a boolean,
    /// an array or an object.
    Other,
}

/// The members of a received JSON object that the protocol reads.
pub struct Envelope {
    pub kind: Field,
    pub id: Field,
    pub session_id: Field,
    pub data: Field,
    pub cols: Field,
    pub rows: Field,
}

#[derive(Clone, Copy, Debug, PartialEq, Eq, Structural)]
pub enum FieldName {
    Type,
    Id,
    SessionId,
    Data,
    Cols,
    Rows,
}

/// Why a frame could not be decoded.
pub enum DecodeError {
    /// The `type` member is missing or is not a string.
    MissingType,
    /// The `type` member names no message.
    UnknownType { kind: String },
    /// A member that the message needs is missing or of the wrong kind.
    InvalidField { field: FieldName },
}

/// An optional string member: absent and `null` both mean none.
pub open spec fn optional_text(f: Field) -> Option<Option<String>> {
    match f {
        Field::Absent => Some(None),
        Field::Null => Some(None),
        Field::Text(s) => Some(Some(s)),
        _ => None,
    }
}

pub open spec fn required_text(f: Field) -> Option<String> {
    match f {
        Field::Text(s) => Some(s),
        _ => None,
    }
}

/// A terminal dimension: an unsigned number that fits in 16 bits.
pub open spec fn dimension(f: Field) -> Option<u16> {
    match f {
        Field::Unsigned(n) => if n <= 0xffff {
            Some(n as u16)
        } else {
            None
        },
        _ => None,
    }
}

/// The message that an envelope decodes to, or the first reason it does not.
pub open spec fn decoded(e: Envelope) -> Result<ClientMessage, DecodeError> {
    match e.kind {
        Field::Text(k) => if k@ == "create"@ {
            match optional_text(e.id) {
                Some(id) => Ok(ClientMessage::Create { id }),
                None => Err(DecodeError::InvalidField { field: FieldName::Id }),
            }
        } else if k@ == "input"@ {
            match (required_text(e.session_id), required_text(e.data)) {
                (Some(session_id), Some(data)) => Ok(ClientMessage::Input { session_id, data }),
                (None, _) => Err(DecodeError::InvalidField { field: FieldName::SessionId }),
                (_, None) => Err(DecodeError::InvalidField { field: FieldName::Data }),
            }
        } else if k@ == "resize"@ {
            match (required_text(e.session_id), dimension(e.cols), dimension(e.rows)) {
                (Some(session_id), Some(cols), Some(rows)) => Ok(
                    ClientMessage::Resize { session_id, cols, rows },
                ),
                (None, _, _) => Err(DecodeError::InvalidField { field: FieldName::SessionId }),
                (_, None, _) => Err(DecodeError::InvalidField { field: FieldName::Cols }),
                (_, _, None) => Err(DecodeError::InvalidField { field: FieldName::Rows }),
            }
        } else if k@ == "close"@ {
            match required_text(e.session_id) {
                Some(session_id) => Ok(ClientMessage::Close { session_id }),
                None => Err(DecodeError::InvalidField { field: FieldName::SessionId }),
            }
        } else {
            Err(DecodeError::UnknownType { kind: k })
        },
        _ => Err(DecodeError::MissingType),
    }
}

/// Whether `s` holds exactly the characters of `lit`.
pub fn text_is(s: &String, lit: &str) -> (r: bool)
    ensures
        r == (s@ == lit@),
{
    *s == String::from_str(lit)
}

fn take_optional_text(f: Field, name: FieldName) -> (r: Result<Option<String>, DecodeError>)
    ensures
        match optional_text(f) {
            Some(v) => r == Ok::<Option<String>, DecodeError>(v),
            None => r == Err::<Option<String>, DecodeError>(
                DecodeError::InvalidField { field: name },
            ),
        },
{
    match f {
        Field::Absent => Ok(None),
        Field::Null => Ok(None),
        Field::Text(s) => Ok(Some(s)),
        _ => Err(DecodeError::InvalidField { field: name }),
    }
}

fn take_text(f: Field, name: FieldName) -> (r: Result<String, DecodeError>)
    ensures
        match required_text(f) {
            Some(v) => r == Ok::<String, DecodeError>(v),
            None => r == Err::<String, DecodeError>(DecodeError::InvalidField { field: name }),
        },
{
    match f {
        Field::Text(s) => Ok(s),
        _ => Err(DecodeError::InvalidField { field: name }),
    }
}

fn take_dimension(f: Field, name: FieldName) -> (r: Result<u16, DecodeError>)
    ensures
        match dimension(f) {
            Some(v) => r == Ok::<u16, DecodeError>(v),
            None => r == Err::<u16, DecodeError>(DecodeError::InvalidField { field: name }),
        },
{
    match f {
        Field::Unsigned(n) => if n <= 0xffff {
            Ok(n as u16)
        } else {
            Err(DecodeError::InvalidField { field: name })
        },
        _ => Err(DecodeError::InvalidField { field: name }),
    }
}

impl ClientMessage {
    /// Decodes a frame from the members of its JSON object. The `type` member
    /// selects the message; members that the message does not use are ignored.
    pub fn decode(e: Envelope) -> (r: Result<ClientMessage, DecodeError>)
        ensures
            r == decoded(e),
    {
        let Envelope { kind, id, session_id, data, cols, rows } = e;
        match kind {
            Field::Text(k) => {
                if text_is(&k, "create") {
                    let id = take_optional_text(id, FieldName::Id)?;
                    Ok(ClientMessage::Create { id })
                } else if text_is(&k, "input") {
                    let session_id = take_text(session_id, FieldName::SessionId)?;
                    let data = take_text(data, FieldName::Data)?;
                    Ok(ClientMessage::Input { session_id, data })
                } else if text_is(&k, "resize") {
                    let session_id = take_text(session_id, FieldName::SessionId)?;
                    let cols = take_dimension(cols, FieldName::Cols)?;
                    let rows = take_dimension(rows, FieldName::Rows)?;
                    Ok(ClientMessage::Resize { session_id, cols, rows })
                } else if text_is(&k, "close") {
                    let session_id = take_text(session_id, FieldName::SessionId)?;
                    Ok(ClientMessage::Close { session_id })
                } else {
                    Err(DecodeError::UnknownType { kind: k })
                }
            },
            _ => Err(DecodeError::MissingType),
        }
    }
}

/// A lower-case hexadecimal digit.
pub open spec fn hex_digit(n: u32) -> char {
    if n == 0 { '0' } else if n == 1 { '1' } else if n == 2 { '2' } else if n == 3 { '3' }
    else if n == 4 { '4' } else if n == 5 { '5' } else if n == 6 { '6' } else if n == 7 { '7' }
    else if n == 8 { '8' } else if n == 9 { '9' } else if n == 10 { 'a' } else if n == 11 { 'b' }
    else if n == 12 { 'c' } else if n == 13 { 'd' } else if n == 14 { 'e' } else { 'f' }
}

/// How one character stands inside a JSON string literal: the quote, the
/// backslash and the control characters are escaped, all others stand as
/// they are.
pub open spec fn json_escape_char(c: char) -> Seq<char> {
    if c == '"' {
        seq!['\\', '"']
    } else if c == '\\' {
        seq!['\\', '\\']
    } else if c == '\u{8}' {
        seq!['\\', 'b']
    } else if c == '\t' {
        seq!['\\', 't']
    } else if c == '\n' {
        seq!['\\', 'n']
    } else if c == '\u{c}' {
        seq!['\\', 'f']
    } else if c == '\r' {
        seq!['\\', 'r']
    } else if (c as u32) < 0x20 {
        seq!['\\', 'u', '0', '0', hex_digit((c as u32) / 16), hex_digit((c as u32) % 16)]
    } else {
        seq![c]
    }
}

pub open spec fn json_escaped(s: Seq<char>) -> Seq<char>
    decreases s.len(),
{
    if s.len() == 0 {
        Seq::empty()
    } else {
        json_escape_char(s[0]) + json_escaped(s.drop_first())
    }
}

/// The JSON string literal that stands for `s`.
pub open spec fn json_string(s: Seq<char>) -> Seq<char> {
    seq!['"'] + json_escaped(s) + seq!['"']
}

/// Relies on serde_json::to_string on a `str`: it writes the quoted string
/// with exactly the escapes of `json_escape_char`, and cannot fail on a `str`.
#[verifier::external_body]
fn json_quote(s: &str) -> (r: String)
    ensures
        r@ == json_string(s@),
{
    serde_json::to_string(s).unwrap_or_default()
}

/// The JSON text of a message with one string member besides `type`.
pub open spec fn one_member(head: Seq<char>, v: Seq<char>) -> Seq<char> {
    head + json_string(v) + "}"@
}

impl ServerMessage {
    /// The frame that carries this message on the wire: a compact JSON object
    /// whose first member is `type`.
    pub open spec fn wire(self) -> Seq<char> {
        match self {
            ServerMessage::Created { session_id } => one_member(
                "{\"type\":\"created\",\"session_id\":"@,
                session_id@,
            ),
            ServerMessage::Output { session_id, data } => "{\"type\":\"output\",\"session_id\":"@
                + json_string(session_id@) + ",\"data\":"@ + json_string(data@) + "}"@,
            ServerMessage::Closed { session_id } => one_member(
                "{\"type\":\"closed\",\"session_id\":"@,
                session_id@,
            ),
            ServerMessage::Error { message } => one_member(
                "{\"type\":\"error\",\"message\":"@,
                message@,
            ),
        }
    }

    pub fn encode(&self) -> (r: String)
        ensures
            r@ == self.wire(),
    {
        match self {
            ServerMessage::Created { session_id } => {
                let mut r = String::from_str("{\"type\":\"created\",\"session_id\":");
                r.append(json_quote(session_id.as_str()).as_str());
                r.append("}");
                r
            },
            ServerMessage::Output { session_id, data } => {
                let mut r = String::from_str("{\"type\":\"output\",\"session_id\":");
                r.append(json_quote(session_id.as_str()).as_str());
                r.append(",\"data\":");
                r.append(json_quote(data.as_str()).as_str());
                r.append("}");
                r
            },
            ServerMessage::Closed { session_id } => {
                let mut r = String::from_str("{\"type\":\"closed\",\"session_id\":");
                r.append(json_quote(session_id.as_str()).as_str());
                r.append("}");
                r
            },
            ServerMessage::Error { message } => {
                let mut r = String::from_str("{\"type\":\"error\",\"message\":");
                r.append(json_quote(message.as_str()).as_str());
                r.append("}");
                r
            },
        }
    }
}

} // verus!
