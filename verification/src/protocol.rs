//! The request protocol with the Lua side: each request goes to a private
//! file in the runtime directory, and only a small envelope naming that file
//! is announced to WezTerm through an OSC user-variable sequence.
use vstd::prelude::*;

use base64::Engine as _;

use crate::json::{JsonNumber, JsonObject, JsonValue, JsonView, Members, NumberView};
use crate::runtime::{
    is_hex_text, is_runtime_dir_name, is_valid_token, owned_file_ok, request_name_ok,
    runtime_dir_name_ok, token_ok,
};
use crate::editor::bytes_of;
use crate::text::{decimal, u64_to_string};
use crate::types::{ManagerRequest, RequestEnvelope, RequestView};

verus! {

/// Why a protocol could not be opened or a request not numbered.
#[derive(Clone, Copy, Debug, PartialEq, Eq)]
pub enum ProtocolError {
    InvalidRuntimeDirectory,
    InvalidSessionToken,
    SequenceOverflow,
}

impl ProtocolError {
    /// The message the manager shows for the error.
    pub fn message(&self) -> (r: String)
        ensures
            r@ == protocol_error_text(*self),
    {
        match self {
            ProtocolError::InvalidRuntimeDirectory => "invalid runtime directory".to_owned(),
            ProtocolError::InvalidSessionToken => "invalid session token".to_owned(),
            ProtocolError::SequenceOverflow => "sshmgr request sequence overflow".to_owned(),
        }
    }
}

pub open spec fn protocol_error_text(e: ProtocolError) -> Seq<char> {
    match e {
        ProtocolError::InvalidRuntimeDirectory => "invalid runtime directory"@,
        ProtocolError::InvalidSessionToken => "invalid session token"@,
        ProtocolError::SequenceOverflow => "sshmgr request sequence overflow"@,
    }
}

/// The manager's side of the protocol: where request files go, the session
/// token, and the number of the last request.
pub struct RequestProtocol {
    runtime_dir: std::path::PathBuf,
    token: String,
    sequence: u64,
}

impl RequestProtocol {
    pub closed spec fn token_view(&self) -> Seq<char> {
        self.token@
    }

    pub closed spec fn sequence_view(&self) -> u64 {
        self.sequence
    }

    pub closed spec fn dir_view(&self) -> std::path::PathBuf {
        self.runtime_dir
    }

    /// The runtime directory that request files go to.
    pub fn runtime_dir(&self) -> (r: &std::path::PathBuf)
        ensures
            *r == self.dir_view(),
    {
        &self.runtime_dir
    }

    /// Opens the protocol for a runtime directory (named `dir_name`, when it
    /// has a name) and a session token: the directory must be a runtime
    /// directory, and the token valid. Numbering starts at zero.
    pub fn with_parts(runtime_dir: std::path::PathBuf, dir_name: Option<&str>, token: String) -> (r:
        Result<RequestProtocol, ProtocolError>)
        ensures
            match dir_name {
                Some(n) => runtime_dir_name_ok(n@),
                None => false,
            } ==> (match r {
                Ok(p) => token_ok(token@) && p.token_view() == token@ && p.sequence_view() == 0
                    && p.dir_view() == runtime_dir,
                Err(e) => !token_ok(token@) && e == ProtocolError::InvalidSessionToken,
            }),
            !match dir_name {
                Some(n) => runtime_dir_name_ok(n@),
                None => false,
            } ==> r == Err::<RequestProtocol, ProtocolError>(
                ProtocolError::InvalidRuntimeDirectory,
            ),
    {
        let dir_ok = match dir_name {
            Some(n) => is_runtime_dir_name(n),
            None => false,
        };
        if !dir_ok {
            return Err(ProtocolError::InvalidRuntimeDirectory);
        }
        if !is_valid_token(token.as_str()) {
            return Err(ProtocolError::InvalidSessionToken);
        }
        Ok(RequestProtocol { runtime_dir, token, sequence: 0 })
    }

    /// Opens the protocol for a runtime directory and a session token, the
    /// directory's name being the last component of its path: the name and
    /// the token are checked as `with_parts` checks them.
    pub fn open(runtime_dir: std::path::PathBuf, token: String) -> (r: Result<RequestProtocol, ProtocolError>)
        ensures
            match r {
                Ok(p) => token_ok(token@) && p.token_view() == token@ && p.sequence_view() == 0
                    && p.dir_view() == runtime_dir,
                Err(e) => e == ProtocolError::InvalidRuntimeDirectory || (!token_ok(token@)
                    && e == ProtocolError::InvalidSessionToken),
            },
    {
        let name = last_name(&runtime_dir);
        match &name {
            Some(n) => Self::with_parts(runtime_dir, Some(n.as_str()), token),
            None => Self::with_parts(runtime_dir, None, token),
        }
    }

    pub fn token(&self) -> (r: &str)
        ensures
            r@ == self.token_view(),
    {
        self.token.as_str()
    }

    pub fn sequence(&self) -> (r: u64)
        ensures
            r == self.sequence_view(),
    {
        self.sequence
    }

    /// Numbers the next request: one more than the last, or an overflow error
    /// that leaves the numbering as it was.
    pub fn next_sequence(&mut self) -> (r: Result<u64, ProtocolError>)
        ensures
            final(self).token_view() == old(self).token_view(),
            final(self).dir_view() == old(self).dir_view(),
            old(self).sequence_view() < u64::MAX ==> r == Ok::<u64, ProtocolError>(
                (old(self).sequence_view() + 1) as u64,
            ) && final(self).sequence_view() == old(self).sequence_view() + 1,
            old(self).sequence_view() == u64::MAX ==> r == Err::<u64, ProtocolError>(
                ProtocolError::SequenceOverflow,
            ) && final(self).sequence_view() == old(self).sequence_view(),
    {
        if self.sequence == u64::MAX {
            return Err(ProtocolError::SequenceOverflow);
        }
        self.sequence = self.sequence + 1;
        Ok(self.sequence)
    }

    /// The envelope that announces request file `request` as number `seq`.
    pub fn envelope(&self, seq: u64, request: String) -> (e: RequestEnvelope)
        ensures
            e.v == 2,
            e.token@ == self.token_view(),
            e.seq == seq,
            e.request@ == request@,
    {
        RequestEnvelope { v: 2, token: self.token.clone(), seq, request }
    }

    /// The request's JSON body, with the session token and the number.
    pub fn request_body(&self, request: &ManagerRequest, seq: u64) -> (r: JsonObject)
        ensures
            r@ == body_members(request@, self.token_view(), seq),
    {
        request_object(request, self.token.as_str(), seq)
    }
}

/// The name of request file number `seq` with nonce `id`.
pub open spec fn request_name_of(seq: u64, id: Seq<char>) -> Seq<char> {
    "request-"@ + decimal(seq as nat) + "-"@ + id + ".json"@
}

pub fn request_file_name(seq: u64, id: &str) -> (r: String)
    ensures
        r@ == request_name_of(seq, id@),
{
    let mut r = "request-".to_owned();
    let digits = u64_to_string(seq);
    r.append(digits.as_str());
    r.append("-");
    r.append(id);
    r.append(".json");
    r
}

/// The members a request serialises to: its `op` tag, then its fields.
pub open spec fn request_members(r: RequestView) -> Members {
    match r {
        RequestView::Connect { id, where_ } => seq![
            ("op"@, JsonView::Text("connect"@)),
            ("id"@, JsonView::Text(id)),
            ("where"@, JsonView::Text(where_)),
        ],
        RequestView::Quick { target, where_ } => seq![
            ("op"@, JsonView::Text("quick"@)),
            ("target"@, JsonView::Text(target)),
            ("where"@, JsonView::Text(where_)),
        ],
        RequestView::Hide => seq![("op"@, JsonView::Text("hide"@))],
        RequestView::Upsert { id, raw } => seq![
            ("op"@, JsonView::Text("upsert"@)),
            (
                "id"@,
                match id {
                    Some(i) => JsonView::Text(i),
                    None => JsonView::Null,
                },
            ),
            ("raw"@, JsonView::Object(raw)),
        ],
        RequestView::Delete { id } => seq![
            ("op"@, JsonView::Text("delete"@)),
            ("id"@, JsonView::Text(id)),
        ],
        RequestView::CopyIn { id } => seq![
            ("op"@, JsonView::Text("copy_in"@)),
            ("id"@, JsonView::Text(id)),
        ],
        RequestView::Reload => seq![("op"@, JsonView::Text("reload"@))],
    }
}

/// A request file's body: the request's members, the session token under
/// `_session` and the number under `_seq`.
pub open spec fn body_members(r: RequestView, token: Seq<char>, seq: u64) -> Members {
    request_members(r) + seq![
        ("_session"@, JsonView::Text(token)),
        ("_seq"@, JsonView::Number(NumberView::PosInt(seq))),
    ]
}

fn text_value(s: &str) -> (v: JsonValue)
    ensures
        v@ == JsonView::Text(s@),
{
    JsonValue::Text(s.to_owned())
}

fn push_member(o: &mut JsonObject, key: &str, value: JsonValue)
    ensures
        final(o)@ == old(o)@.push((key@, value@)),
{
    let e = (key.to_owned(), value);
    proof {
        crate::json::lemma_entries_view_push(o.entries@, e);
    }
    o.entries.push(e);
}

fn request_object(request: &ManagerRequest, token: &str, seq: u64) -> (r: JsonObject)
    ensures
        r@ == body_members(request@, token@, seq),
{
    let mut o = JsonObject::new();
    match request {
        ManagerRequest::Connect { id, where_ } => {
            push_member(&mut o, "op", text_value("connect"));
            push_member(&mut o, "id", text_value(id.as_str()));
            push_member(&mut o, "where", text_value(where_.as_str()));
        },
        ManagerRequest::Quick { target, where_ } => {
            push_member(&mut o, "op", text_value("quick"));
            push_member(&mut o, "target", text_value(target.as_str()));
            push_member(&mut o, "where", text_value(where_.as_str()));
        },
        ManagerRequest::Hide => {
            push_member(&mut o, "op", text_value("hide"));
        },
        ManagerRequest::Upsert { id, raw } => {
            push_member(&mut o, "op", text_value("upsert"));
            let idv = match id {
                Some(i) => text_value(i.as_str()),
                None => JsonValue::Null,
            };
            push_member(&mut o, "id", idv);
            push_member(&mut o, "raw", JsonValue::Object(raw.clone()));
        },
        ManagerRequest::Delete { id } => {
            push_member(&mut o, "op", text_value("delete"));
            push_member(&mut o, "id", text_value(id.as_str()));
        },
        ManagerRequest::CopyIn { id } => {
            push_member(&mut o, "op", text_value("copy_in"));
            push_member(&mut o, "id", text_value(id.as_str()));
        },
        ManagerRequest::Reload => {
            push_member(&mut o, "op", text_value("reload"));
        },
    }
    push_member(&mut o, "_session", text_value(token));
    push_member(&mut o, "_seq", JsonValue::Number(JsonNumber::PosInt(seq)));
    assert(o@ =~= body_members(request@, token@, seq));
    o
}

/// The lower-case hexadecimal digit of `n < 16`.
pub open spec fn hex_lower(n: nat) -> char {
    crate::runtime::hex_digit_of(n)
}

/// How JSON writes one character inside a string: quote and backslash
/// escaped, the common control characters by letter, other control
/// characters as `\u00XX`, everything else as it is.
pub open spec fn escaped_char(c: char) -> Seq<char> {
    if c == '"' {
        seq!['\\', '"']
    } else if c == '\\' {
        seq!['\\', '\\']
    } else if c == '\n' {
        seq!['\\', 'n']
    } else if c == '\r' {
        seq!['\\', 'r']
    } else if c == '\t' {
        seq!['\\', 't']
    } else if c == '\u{8}' {
        seq!['\\', 'b']
    } else if c == '\u{c}' {
        seq!['\\', 'f']
    } else if (c as u32) < 0x20 {
        seq!['\\', 'u', '0', '0', hex_lower(((c as u32) / 16) as nat), hex_lower(((c as u32) % 16) as nat)]
    } else {
        seq![c]
    }
}

/// A JSON string literal for `s`.
pub open spec fn escaped_text(s: Seq<char>) -> Seq<char>
    decreases s.len(),
{
    if s.len() == 0 {
        Seq::empty()
    } else {
        escaped_text(s.drop_last()) + escaped_char(s.last())
    }
}

pub open spec fn json_string_text(s: Seq<char>) -> Seq<char> {
    seq!['"'] + escaped_text(s) + seq!['"']
}

fn push_escaped(out: &mut String, c: char)
    ensures
        final(out)@ == old(out)@ + escaped_char(c),
{
    if c == '"' {
        out.push('\\');
        out.push('"');
    } else if c == '\\' {
        out.push('\\');
        out.push('\\');
    } else if c == '\n' {
        out.push('\\');
        out.push('n');
    } else if c == '\r' {
        out.push('\\');
        out.push('r');
    } else if c == '\t' {
        out.push('\\');
        out.push('t');
    } else if c == '\u{8}' {
        out.push('\\');
        out.push('b');
    } else if c == '\u{c}' {
        out.push('\\');
        out.push('f');
    } else if (c as u32) < 0x20 {
        let n = c as u32;
        out.push('\\');
        out.push('u');
        out.push('0');
        out.push('0');
        let hi = crate::runtime::hex_char((n / 16) as u8);
        let lo = crate::runtime::hex_char((n % 16) as u8);
        out.push(hi);
        out.push(lo);
    } else {
        out.push(c);
    }
    assert(final(out)@ =~= old(out)@ + escaped_char(c));
}

/// Appends `s` as a JSON string literal.
fn push_json_string(out: &mut String, s: &str)
    ensures
        final(out)@ == old(out)@ + json_string_text(s@),
{
    let chars = crate::text::chars_of(s);
    let ghost start = out@;
    out.push('"');
    let mut i: usize = 0;
    while i < chars.len()
        invariant
            i <= chars.len(),
            chars@ == s@,
            out@ == start + seq!['"'] + escaped_text(chars@.take(i as int)),
        decreases chars.len() - i,
    {
        assert(chars@.take(i + 1).drop_last() =~= chars@.take(i as int));
        push_escaped(out, chars[i]);
        assert(out@ =~= start + seq!['"'] + escaped_text(chars@.take(i + 1)));
        i += 1;
    }
    assert(chars@.take(i as int) =~= chars@);
    out.push('"');
    assert(out@ =~= start + json_string_text(s@));
}

/// Calls `Path::file_name` and `OsStr::to_str`: the last component of a
/// path, when it has one that is valid UTF-8. Which component that is goes
/// by the platform's path rules and is left unstated.
#[verifier::external_body]
fn last_name(path: &std::path::PathBuf) -> (r: Option<String>) {
    path.file_name().and_then(|name| name.to_str()).map(|name| name.to_owned())
}

/// The envelope as compact JSON, its members in declaration order.
pub open spec fn envelope_text(v: u8, token: Seq<char>, seq: u64, request: Seq<char>) -> Seq<char> {
    "{\"v\":"@ + decimal(v as nat) + ",\"token\":"@ + json_string_text(token) + ",\"seq\":"@
        + decimal(seq as nat) + ",\"request\":"@ + json_string_text(request) + "}"@
}

pub fn envelope_json(e: &RequestEnvelope) -> (r: String)
    ensures
        r@ == envelope_text(e.v, e.token@, e.seq, e.request@),
{
    let mut out = "{\"v\":".to_owned();
    let v = u64_to_string(e.v as u64);
    out.append(v.as_str());
    out.append(",\"token\":");
    push_json_string(&mut out, e.token.as_str());
    out.append(",\"seq\":");
    let s = u64_to_string(e.seq);
    out.append(s.as_str());
    out.append(",\"request\":");
    push_json_string(&mut out, e.request.as_str());
    out.append("}");
    out
}

/// The character of a six-bit value in the standard Base64 alphabet.
pub open spec fn base64_digit(v: int) -> char {
    if v < 26 {
        (('A' as int) + v) as char
    } else if v < 52 {
        (('a' as int) + v - 26) as char
    } else if v < 62 {
        (('0' as int) + v - 52) as char
    } else if v == 62 {
        '+'
    } else {
        '/'
    }
}

/// Base64 with the standard alphabet and `=` padding: each group of three
/// bytes, read as a 24-bit number, gives four six-bit digits; a last group
/// of one or two bytes is filled with zero bits and padded to four.
pub open spec fn base64_of(b: Seq<u8>) -> Seq<char>
    decreases b.len(),
{
    if b.len() == 0 {
        seq![]
    } else if b.len() == 1 {
        let n = b[0] as int * 65536;
        seq![base64_digit(n / 262144), base64_digit(n / 4096 % 64), '=', '=']
    } else if b.len() == 2 {
        let n = b[0] as int * 65536 + b[1] as int * 256;
        seq![base64_digit(n / 262144), base64_digit(n / 4096 % 64), base64_digit(n / 64 % 64), '=']
    } else {
        let n = b[0] as int * 65536 + b[1] as int * 256 + b[2] as int;
        seq![
            base64_digit(n / 262144),
            base64_digit(n / 4096 % 64),
            base64_digit(n / 64 % 64),
            base64_digit(n % 64),
        ] + base64_of(b.skip(3))
    }
}

/// The encoded length of a text fits in memory: `STANDARD.encode` allocates
/// four bytes for every started group of three, and panics where that
/// exceeds `isize::MAX`.
pub open spec fn encodable(text: Seq<char>) -> bool {
    (bytes_of(text).len() + 2) / 3 <= isize::MAX / 4
}

/// Calls `base64::engine::general_purpose::STANDARD.encode` on the text's
/// UTF-8 bytes: standard alphabet, with padding.
#[verifier::external_body]
fn base64_encode(text: &str) -> (r: String)
    requires
        encodable(text@),
    ensures
        r@ == base64_of(bytes_of(text@)),
{
    base64::engine::general_purpose::STANDARD.encode(text.as_bytes())
}

/// The OSC sequence that sets WezTerm's `sshmgr` user variable to the
/// encoded envelope.
pub open spec fn osc_prefix() -> Seq<char> {
    "\u{1b}]1337;SetUserVar=sshmgr="@
}

/// The terminal output that announces an envelope: the variable set to the
/// encoded envelope, then cleared again.
pub open spec fn wakeup_of(envelope_json: Seq<char>) -> Seq<char> {
    osc_prefix() + base64_of(bytes_of(envelope_json)) + "\u{7}"@ + osc_prefix() + "\u{7}"@
}

/// The wake-up sequence for an envelope whose JSON text is `json`.
pub fn wakeup_text(json: &str) -> (r: String)
    requires
        encodable(json@),
    ensures
        r@ == wakeup_of(json@),
{
    let encoded = base64_encode(json);
    let mut out = "\u{1b}]1337;SetUserVar=sshmgr=".to_owned();
    out.append(encoded.as_str());
    out.append("\u{7}");
    out.append("\u{1b}]1337;SetUserVar=sshmgr=");
    out.append("\u{7}");
    out
}

/// Every request file the manager names (a number from one up, a nonce of 32
/// lower-case hexadecimal digits) is recognised as a request file, and so is
/// removed with the runtime directory.
pub proof fn lemma_request_files_are_owned(seq: u64, id: Seq<char>)
    requires
        seq >= 1,
        is_hex_text(id, 32),
    ensures
        request_name_ok(request_name_of(seq, id)),
        owned_file_ok(request_name_of(seq, id)),
{
    reveal_strlit("request-");
    reveal_strlit("-");
    reveal_strlit(".json");
    let d = decimal(seq as nat);
    crate::text::lemma_decimal_digits(seq as nat);
    let p = "request-"@;
    let x = ".json"@;
    let name = request_name_of(seq, id);
    let body = d + "-"@ + id;
    assert(name =~= p + body + x);
    assert(name.take(p.len() as int) =~= p);
    assert(name.skip(name.len() - x.len()) =~= x);
    assert(name.subrange(p.len() as int, name.len() - x.len()) =~= body);
    assert(body[d.len() as int] == '-');
    assert forall|j: int| 0 <= j < d.len() implies body[j] != '-' by {
        assert(body[j] == d[j]);
        assert('0' <= d[j] <= '9');
    }
    assert(crate::text::first_at(body, '-', d.len() as int));
    crate::text::lemma_find_char(body, '-', d.len() as int);
    assert(body.take(d.len() as int) =~= d);
    assert(body.skip(d.len() as int + 1) =~= id);
    assert forall|i: int| 0 <= i < d.len() implies crate::runtime::is_ascii_digit(
        #[trigger] d[i],
    ) by {
        assert('0' <= d[i] <= '9');
    }
}

} // verus!
