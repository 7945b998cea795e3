//! The runtime directory shared with the Lua side: its name, its session
//! token, and the names of the files the manager owns in it.
use vstd::prelude::*;

use crate::text::{has_prefix, str_eq, str_starts_with};

verus! {

/// The prefix of every runtime directory name.
pub const RUNTIME_PREFIX: &'static str = "wezterm-sshmgr-";

/// The name of the snapshot file in a runtime directory.
pub const SNAPSHOT_FILE: &'static str = "snapshot.json";

/// What a new runtime hands the Lua side: the directory and the session token.
#[derive(Debug, PartialEq, Eq)]
pub struct RuntimeContext {
    pub runtime_dir: std::path::PathBuf,
    pub token: String,
}

#[verifier::external_type_specification]
#[verifier::external_body]
pub struct ExPathBuf(std::path::PathBuf);

/// A lower-case hexadecimal digit.
pub open spec fn is_hex_digit(c: char) -> bool {
    ('0' <= c && c <= '9') || ('a' <= c && c <= 'f')
}

/// Text of `n` lower-case hexadecimal digits.
pub open spec fn is_hex_text(s: Seq<char>, n: nat) -> bool {
    s.len() == n && forall|i: int| 0 <= i < s.len() ==> is_hex_digit(#[trigger] s[i])
}

/// The two hexadecimal digits of a byte, high nibble first.
pub open spec fn hex_digit_of(n: nat) -> char {
    if n < 10 {
        ((n + '0' as nat) as u8) as char
    } else {
        ((n - 10 + 'a' as nat) as u8) as char
    }
}

/// `bytes` written as lower-case hexadecimal, two digits per byte.
pub open spec fn hex_text(bytes: Seq<u8>) -> Seq<char>
    decreases bytes.len(),
{
    if bytes.len() == 0 {
        Seq::empty()
    } else {
        hex_text(bytes.drop_last()) + seq![
            hex_digit_of((bytes.last() / 16) as nat),
            hex_digit_of((bytes.last() % 16) as nat),
        ]
    }
}

pub(crate) fn hex_char(n: u8) -> (c: char)
    requires
        n < 16,
    ensures
        c == hex_digit_of(n as nat),
        is_hex_digit(c),
{
    if n < 10 {
        (n + 48) as char
    } else {
        (n - 10 + 97) as char
    }
}

pub proof fn lemma_hex_text(bytes: Seq<u8>)
    ensures
        is_hex_text(hex_text(bytes), 2 * bytes.len()),
    decreases bytes.len(),
{
    if bytes.len() > 0 {
        lemma_hex_text(bytes.drop_last());
        let b = bytes.last();
        let h = hex_text(bytes.drop_last());
        let t = hex_text(bytes);
        assert(t == h + seq![hex_digit_of((b / 16) as nat), hex_digit_of((b % 16) as nat)]);
        assert forall|i: int| 0 <= i < t.len() implies is_hex_digit(#[trigger] t[i]) by {
            if i < h.len() {
                assert(t[i] == h[i]);
            }
        }
    }
}

/// Bytes as lower-case hexadecimal.
pub fn encode_hex(bytes: &[u8]) -> (s: String)
    ensures
        s@ == hex_text(bytes@),
{
    let mut s = String::new();
    let mut i: usize = 0;
    while i < bytes.len()
        invariant
            i <= bytes.len(),
            s@ == hex_text(bytes@.take(i as int)),
        decreases bytes.len() - i,
    {
        let b = bytes[i];
        s.push(hex_char(b / 16));
        s.push(hex_char(b % 16));
        assert(bytes@.take(i + 1).drop_last() =~= bytes@.take(i as int));
        assert(s@ =~= hex_text(bytes@.take(i + 1)));
        i += 1;
    }
    assert(bytes@.take(i as int) =~= bytes@);
    s
}

/// Sixteen random bytes from `rand::random`; nothing is known of their values.
#[verifier::external_body]
fn random_bytes_16() -> (r: [u8; 16]) {
    rand::random::<[u8; 16]>()
}

/// Twelve random bytes from `rand::random`; nothing is known of their values.
#[verifier::external_body]
fn random_bytes_12() -> (r: [u8; 12]) {
    rand::random::<[u8; 12]>()
}

/// Thirty-two random bytes from `rand::random`; nothing is known of their values.
#[verifier::external_body]
fn random_bytes_32() -> (r: [u8; 32]) {
    rand::random::<[u8; 32]>()
}

/// A fresh request nonce: 32 lower-case hexadecimal digits.
pub fn random_request_id() -> (s: String)
    ensures
        is_hex_text(s@, 32),
{
    let bytes = random_bytes_16();
    let s = encode_hex(&bytes);
    proof {
        lemma_hex_text(bytes@);
    }
    s
}

/// A fresh backup or runtime directory suffix: 24 lower-case hexadecimal digits.
pub fn random_backup_id() -> (s: String)
    ensures
        is_hex_text(s@, 24),
{
    let bytes = random_bytes_12();
    let s = encode_hex(&bytes);
    proof {
        lemma_hex_text(bytes@);
    }
    s
}

/// A fresh session token: 64 lower-case hexadecimal digits.
pub fn random_token() -> (s: String)
    ensures
        is_hex_text(s@, 64),
        token_ok(s@),
{
    let bytes = random_bytes_32();
    let s = encode_hex(&bytes);
    proof {
        lemma_hex_text(bytes@);
    }
    s
}

/// A session token: 64 lower-case hexadecimal digits.
pub open spec fn token_ok(t: Seq<char>) -> bool {
    is_hex_text(t, 64)
}

fn all_hex(chars: &Vec<char>, from: usize, to: usize) -> (r: bool)
    requires
        from <= to <= chars.len(),
    ensures
        r == forall|i: int| from <= i < to ==> is_hex_digit(#[trigger] chars@[i]),
{
    let mut i = from;
    while i < to
        invariant
            from <= i <= to <= chars.len(),
            forall|j: int| from <= j < i ==> is_hex_digit(#[trigger] chars@[j]),
        decreases to - i,
    {
        let c = chars[i];
        if !(('0' <= c && c <= '9') || ('a' <= c && c <= 'f')) {
            assert(!is_hex_digit(chars@[i as int]));
            return false;
        }
        i += 1;
    }
    true
}

/// A valid session token.
pub fn is_valid_token(token: &str) -> (r: bool)
    ensures
        r == token_ok(token@),
{
    let chars = crate::text::chars_of(token);
    chars.len() == 64 && all_hex(&chars, 0, 64)
}

pub open spec fn is_ascii_digit(c: char) -> bool {
    '0' <= c && c <= '9'
}

/// `request-<sequence>-<nonce>.json`: a sequence number without leading zero
/// and a nonce of 32 lower-case hexadecimal digits.
pub open spec fn request_name_ok(name: Seq<char>) -> bool {
    let p = "request-"@;
    let x = ".json"@;
    &&& name.len() >= p.len() + x.len()
    &&& name.take(p.len() as int) == p
    &&& name.skip(name.len() - x.len()) == x
    &&& {
        let body = name.subrange(p.len() as int, name.len() - x.len());
        match crate::text::find_char(body, '-') {
            Some(d) => {
                let sequence = body.take(d);
                let nonce = body.skip(d + 1);
                &&& sequence.len() > 0
                &&& sequence[0] != '0'
                &&& forall|i: int| 0 <= i < sequence.len() ==> is_ascii_digit(#[trigger] sequence[i])
                &&& is_hex_text(nonce, 32)
            },
            None => false,
        }
    }
}

/// A request file name spelled out: `request-`, a number from one up
/// without leading zeros, `-`, 32 lower-case hexadecimal digits, `.json`.
pub open spec fn request_name_form(name: Seq<char>) -> bool {
    exists|sequence: Seq<char>, nonce: Seq<char>|
        #![trigger "request-"@ + sequence + "-"@ + nonce + ".json"@]
        {
            &&& name == "request-"@ + sequence + "-"@ + nonce + ".json"@
            &&& sequence.len() > 0
            &&& sequence[0] != '0'
            &&& forall|i: int| 0 <= i < sequence.len() ==> is_ascii_digit(#[trigger] sequence[i])
            &&& is_hex_text(nonce, 32)
        }
}

/// A name is recognised as a request file exactly when it has that form.
pub proof fn lemma_request_name_form(name: Seq<char>)
    ensures
        request_name_ok(name) == request_name_form(name),
{
    reveal_strlit("request-");
    reveal_strlit("-");
    reveal_strlit(".json");
    let p = "request-"@;
    let x = ".json"@;
    if request_name_ok(name) {
        let body = name.subrange(p.len() as int, name.len() - x.len());
        let d = choose|i: int| crate::text::first_at(body, '-', i);
        crate::text::lemma_find_char(body, '-', d);
        let sequence = body.take(d);
        let nonce = body.skip(d + 1);
        assert(name =~= name.take(p.len() as int) + body + name.skip(name.len() - x.len()));
        assert(body =~= sequence + "-"@ + nonce);
        assert(name =~= "request-"@ + sequence + "-"@ + nonce + ".json"@);
    }
    if request_name_form(name) {
        let (sequence, nonce) = choose|sequence: Seq<char>, nonce: Seq<char>|
            {
                &&& name == "request-"@ + sequence + "-"@ + nonce + ".json"@
                &&& sequence.len() > 0
                &&& sequence[0] != '0'
                &&& forall|i: int| 0 <= i < sequence.len() ==> is_ascii_digit(#[trigger] sequence[i])
                &&& is_hex_text(nonce, 32)
            };
        let body = sequence + "-"@ + nonce;
        assert(name =~= p + body + x);
        assert(name.take(p.len() as int) =~= p);
        assert(name.skip(name.len() - x.len()) =~= x);
        assert(name.subrange(p.len() as int, name.len() - x.len()) =~= body);
        assert(body[sequence.len() as int] == '-');
        assert forall|j: int| 0 <= j < sequence.len() implies body[j] != '-' by {
            assert(body[j] == sequence[j]);
            assert(is_ascii_digit(sequence[j]));
        }
        assert(crate::text::first_at(body, '-', sequence.len() as int));
        crate::text::lemma_find_char(body, '-', sequence.len() as int);
        assert(body.take(sequence.len() as int) =~= sequence);
        assert(body.skip(sequence.len() as int + 1) =~= nonce);
    }
}

pub fn is_request_filename(name: &str) -> (r: bool)
    ensures
        r == request_name_ok(name@),
{
    proof {
        reveal_strlit("request-");
        reveal_strlit(".json");
    }
    let chars = crate::text::chars_of(name);
    let n = chars.len();
    if n < 13 {
        return false;
    }
    if !(chars[0] == 'r' && chars[1] == 'e' && chars[2] == 'q' && chars[3] == 'u' && chars[4]
        == 'e' && chars[5] == 's' && chars[6] == 't' && chars[7] == '-') {
        proof {
            assert(chars@.take(8) != "request-"@ ) by {
                if chars@.take(8) == "request-"@ {
                    assert(chars@.take(8)[0] == 'r');
                    assert(chars@.take(8)[1] == 'e');
                    assert(chars@.take(8)[2] == 'q');
                    assert(chars@.take(8)[3] == 'u');
                    assert(chars@.take(8)[4] == 'e');
                    assert(chars@.take(8)[5] == 's');
                    assert(chars@.take(8)[6] == 't');
                    assert(chars@.take(8)[7] == '-');
                }
            }
        }
        return false;
    }
    assert(chars@.take(8) =~= "request-"@);
    if !(chars[n - 5] == '.' && chars[n - 4] == 'j' && chars[n - 3] == 's' && chars[n - 2] == 'o'
        && chars[n - 1] == 'n') {
        proof {
            let t = chars@.skip(n - 5);
            if t == ".json"@ {
                assert(t[0] == chars@[n - 5]);
                assert(t[1] == chars@[n - 4]);
                assert(t[2] == chars@[n - 3]);
                assert(t[3] == chars@[n - 2]);
                assert(t[4] == chars@[n - 1]);
            }
        }
        return false;
    }
    assert(chars@.skip(n - 5) =~= ".json"@);
    let body_s = crate::text::string_from_range(&chars, 8, n - 5);
    let body = crate::text::chars_of(body_s.as_str());
    assert(body@ =~= chars@.subrange(8, n - 5));
    match crate::text::find_char_in(&body, '-') {
        Some(d) => {
            let blen = body.len();
            if d == 0 || body[0] == '0' {
                return false;
            }
            let mut i: usize = 0;
            while i < d
                invariant
                    i <= d < blen == body.len(),
                    forall|j: int| 0 <= j < i ==> is_ascii_digit(#[trigger] body@[j]),
                decreases d - i,
            {
                if !('0' <= body[i] && body[i] <= '9') {
                    assert(body@.take(d as int)[i as int] == body@[i as int]);
                    return false;
                }
                i += 1;
            }
            assert forall|j: int| 0 <= j < d implies is_ascii_digit(
                #[trigger] body@.take(d as int)[j],
            ) by {
                assert(body@.take(d as int)[j] == body@[j]);
            }
            if blen - (d + 1) != 32 {
                return false;
            }
            let ok = all_hex(&body, d + 1, blen);
            proof {
                let nonce = body@.skip(d + 1);
                if ok {
                    assert forall|j: int| 0 <= j < nonce.len() implies is_hex_digit(
                        #[trigger] nonce[j],
                    ) by {
                        assert(nonce[j] == body@[j + d + 1]);
                    }
                } else {
                    let j = choose|j: int| d + 1 <= j < blen && !is_hex_digit(#[trigger] body@[j]);
                    assert(nonce[j - d - 1] == body@[j]);
                }
            }
            ok
        },
        None => false,
    }
}

/// A runtime directory name.
pub open spec fn runtime_dir_name_ok(name: Seq<char>) -> bool {
    has_prefix(name, RUNTIME_PREFIX@)
}

pub fn is_runtime_dir_name(name: &str) -> (r: bool)
    ensures
        r == runtime_dir_name_ok(name@),
{
    str_starts_with(name, RUNTIME_PREFIX)
}

/// The files the manager owns in its runtime directory: the snapshot, its
/// temporary and backup copies, and the request files.
pub open spec fn owned_file_ok(name: Seq<char>) -> bool {
    ||| name == SNAPSHOT_FILE@
    ||| has_prefix(name, "snapshot.json.tmp-"@)
    ||| has_prefix(name, "snapshot.json.backup-"@)
    ||| request_name_ok(name)
}

pub fn is_owned_runtime_file(name: &str) -> (r: bool)
    ensures
        r == owned_file_ok(name@),
{
    str_eq(name, SNAPSHOT_FILE) || str_starts_with(name, "snapshot.json.tmp-") || str_starts_with(
        name,
        "snapshot.json.backup-",
    ) || is_request_filename(name)
}

/// The backup name for a replaced file: `<name>.backup-<id>`, with the
/// snapshot's name standing in for a missing one.
pub open spec fn backup_name_of(file_name: Option<Seq<char>>, id: Seq<char>) -> Seq<char> {
    let base = match file_name {
        Some(n) => n,
        None => SNAPSHOT_FILE@,
    };
    base + ".backup-"@ + id
}

pub fn backup_file_name(file_name: Option<&str>, id: &str) -> (r: String)
    ensures
        r@ == backup_name_of(
            match file_name {
                Some(n) => Some(n@),
                None => None,
            },
            id@,
        ),
{
    let mut r = match file_name {
        Some(n) => n.to_owned(),
        None => SNAPSHOT_FILE.to_owned(),
    };
    r.append(".backup-");
    r.append(id);
    r
}

/// Cleaning a runtime directory removes the snapshot's backups.
pub proof fn lemma_snapshot_backups_are_owned(id: Seq<char>)
    ensures
        owned_file_ok(backup_name_of(Some(SNAPSHOT_FILE@), id)),
{
    reveal_strlit("snapshot.json");
    reveal_strlit(".backup-");
    reveal_strlit("snapshot.json.backup-");
    let name = backup_name_of(Some(SNAPSHOT_FILE@), id);
    let p = "snapshot.json.backup-"@;
    assert(name.take(p.len() as int) =~= p);
}

/// A component of a local path, as `Path::components` gives it.
#[derive(Debug, PartialEq, Eq)]
pub enum PathPart {
    /// A Windows prefix such as `C:`, as written.
    Prefix(String),
    /// The root, as written.
    Root(String),
    /// `.`
    Current,
    /// `..`
    Parent,
    /// A name.
    Name(String),
}

/// A path component by value.
pub enum PartView {
    Prefix(Seq<char>),
    Root(Seq<char>),
    Current,
    Parent,
    Name(Seq<char>),
}

impl PathPart {
    pub open spec fn view(&self) -> PartView {
        match self {
            PathPart::Prefix(s) => PartView::Prefix(s@),
            PathPart::Root(s) => PartView::Root(s@),
            PathPart::Current => PartView::Current,
            PathPart::Parent => PartView::Parent,
            PathPart::Name(s) => PartView::Name(s@),
        }
    }
}

/// The views of path components.
pub open spec fn parts_view(v: Seq<PathPart>) -> Seq<PartView> {
    v.map_values(|p: PathPart| p.view())
}

/// Components resolved lexically: `.` goes, and `..` takes away the name
/// before it (nothing at a root, a prefix or the start).
pub open spec fn resolved_of(parts: Seq<PartView>) -> Seq<PartView>
    decreases parts.len(),
{
    if parts.len() == 0 {
        Seq::empty()
    } else {
        let r = resolved_of(parts.drop_last());
        match parts.last() {
            PartView::Current => r,
            PartView::Parent => if r.len() > 0 && r.last() is Name {
                r.drop_last()
            } else {
                r
            },
            p => r.push(p),
        }
    }
}

/// Resolves path components lexically, without looking at the disk.
pub fn resolve_parts(parts: &Vec<PathPart>) -> (r: Vec<PathPart>)
    ensures
        parts_view(r@) == resolved_of(parts_view(parts@)),
{
    let ghost given = parts_view(parts@);
    let mut out: Vec<PathPart> = Vec::new();
    let mut i: usize = 0;
    assert(given.take(0) =~= Seq::<PartView>::empty());
    while i < parts.len()
        invariant
            i <= parts.len(),
            given == parts_view(parts@),
            parts_view(out@) == resolved_of(given.take(i as int)),
        decreases parts.len() - i,
    {
        proof {
            assert(given.take(i + 1).drop_last() =~= given.take(i as int));
            assert(given.take(i + 1).last() == given[i as int]);
            assert(given[i as int] == parts@[i as int].view());
        }
        match &parts[i] {
            PathPart::Current => {},
            PathPart::Parent => {
                let name_last = match out.last() {
                    Some(PathPart::Name(_)) => true,
                    _ => false,
                };
                if name_last {
                    let ghost prev = parts_view(out@);
                    out.pop();
                    assert(parts_view(out@) =~= prev.drop_last());
                }
            },
            PathPart::Prefix(t) => {
                let ghost prev = parts_view(out@);
                out.push(PathPart::Prefix(t.clone()));
                assert(parts_view(out@) =~= prev.push(given[i as int]));
            },
            PathPart::Root(t) => {
                let ghost prev = parts_view(out@);
                out.push(PathPart::Root(t.clone()));
                assert(parts_view(out@) =~= prev.push(given[i as int]));
            },
            PathPart::Name(t) => {
                let ghost prev = parts_view(out@);
                out.push(PathPart::Name(t.clone()));
                assert(parts_view(out@) =~= prev.push(given[i as int]));
            },
        }
        i += 1;
    }
    assert(given.take(i as int) =~= given);
    out
}

/// Calls `Path::components` and copies each component out; how the
/// platform splits a path is left unstated.
#[verifier::external_body]
fn path_parts(path: &str) -> (r: Vec<PathPart>) {
    std::path::Path::new(path).components().map(|c| match c {
        std::path::Component::Prefix(p) => PathPart::Prefix(p.as_os_str().to_string_lossy().into_owned()),
        std::path::Component::RootDir => PathPart::Root(c.as_os_str().to_string_lossy().into_owned()),
        std::path::Component::CurDir => PathPart::Current,
        std::path::Component::ParentDir => PathPart::Parent,
        std::path::Component::Normal(n) => PathPart::Name(n.to_string_lossy().into_owned()),
    }).collect()
}

/// Calls `Path::is_absolute`; what counts as absolute is the platform's.
#[verifier::external_body]
fn is_absolute_path(path: &str) -> (r: bool) {
    std::path::Path::new(path).is_absolute()
}

/// A path resolved lexically, as Node's `path.resolve` does, without
/// requiring it to exist or following links: a relative path is taken
/// inside `cwd`, then its components are resolved by `resolve_parts` and
/// joined again.
pub fn resolve_path(path: &str, cwd: &str) -> (r: String) {
    let absolute = if is_absolute_path(path) {
        path.to_owned()
    } else {
        crate::workspace::local_join(cwd, path)
    };
    let parts = resolve_parts(&path_parts(absolute.as_str()));
    let mut out = String::new();
    let mut i: usize = 0;
    while i < parts.len()
        decreases parts.len() - i,
    {
        let text = match &parts[i] {
            PathPart::Prefix(s) => s.as_str(),
            PathPart::Root(s) => s.as_str(),
            PathPart::Current => ".",
            PathPart::Parent => "..",
            PathPart::Name(s) => s.as_str(),
        };
        out = crate::workspace::local_join(out.as_str(), text);
        i += 1;
    }
    out
}

} // verus!
