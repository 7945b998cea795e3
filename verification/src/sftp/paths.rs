//! Path rules of the SFTP workspace: remote paths are `/`-separated text,
//! temporary and backup files are hidden siblings of their destination, and
//! listings put directories first.
use vstd::prelude::*;

use crate::sftp::types::{FileEntry, FileKind};
use crate::text::{
    chars_of, find_char, rfind_char, rfind_char_in, spec_to_lowercase, str_eq, string_from_range,
    to_lowercase,
};

verus! {

/// `s` without its trailing `c`s.
pub open spec fn trim_end_char(s: Seq<char>, c: char) -> Seq<char>
    decreases s.len(),
{
    if s.len() > 0 && s.last() == c {
        trim_end_char(s.drop_last(), c)
    } else {
        s
    }
}

proof fn lemma_trim_end_char(s: Seq<char>, c: char)
    ensures
        trim_end_char(s, c).len() <= s.len(),
        trim_end_char(s, c) == s.take(trim_end_char(s, c).len() as int),
        trim_end_char(s, c).len() > 0 ==> trim_end_char(s, c).last() != c,
    decreases s.len(),
{
    if s.len() > 0 && s.last() == c {
        lemma_trim_end_char(s.drop_last(), c);
        let t = trim_end_char(s.drop_last(), c);
        assert(s.drop_last().take(t.len() as int) =~= s.take(t.len() as int));
    } else {
        assert(s.take(s.len() as int) =~= s);
    }
}

fn trim_end_bound(chars: &Vec<char>, c: char) -> (r: usize)
    ensures
        r <= chars.len(),
        chars@.take(r as int) == trim_end_char(chars@, c),
{
    let mut n = chars.len();
    assert(chars@.take(n as int) =~= chars@);
    while n > 0 && chars[n - 1] == c
        invariant
            n <= chars.len(),
            trim_end_char(chars@.take(n as int), c) == trim_end_char(chars@, c),
        decreases n,
    {
        assert(chars@.take(n as int).drop_last() =~= chars@.take(n - 1));
        n -= 1;
    }
    assert(trim_end_char(chars@.take(n as int), c) == chars@.take(n as int));
    n
}

/// `str::trim_end_matches` with one character.
pub fn trim_end_matches(s: &str, c: char) -> (r: String)
    ensures
        r@ == trim_end_char(s@, c),
{
    let chars = chars_of(s);
    proof {
        assert(chars@.take(chars@.len() as int) =~= chars@);
    }
    let n = trim_end_bound(&chars, c);
    string_from_range(&chars, 0, n)
}

/// The last name of a remote path (`/` for the root).
pub open spec fn remote_basename_of(path: Seq<char>) -> Seq<char> {
    let t = trim_end_char(path, '/');
    let part = match rfind_char(t, '/') {
        Some(i) => t.skip(i + 1),
        None => t,
    };
    if part.len() == 0 {
        seq!['/']
    } else {
        part
    }
}

pub fn remote_basename(path: &str) -> (r: String)
    ensures
        r@ == remote_basename_of(path@),
{
    let t = trim_end_matches(path, '/');
    let chars = chars_of(t.as_str());
    let part = match rfind_char_in(&chars, '/') {
        Some(i) => string_from_range(&chars, i + 1, chars.len()),
        None => t,
    };
    proof {
        match rfind_char(chars@, '/') {
            Some(i) => {
                assert(part@ =~= chars@.skip(i + 1));
            },
            None => {},
        }
    }
    if part.as_str().is_empty() {
        let mut r = String::new();
        r.push('/');
        r
    } else {
        part
    }
}

/// The directory of a remote path: `/` at the root, `.` for a bare name.
pub open spec fn remote_dirname_of(path: Seq<char>) -> Seq<char> {
    let t = trim_end_char(path, '/');
    match rfind_char(t, '/') {
        Some(i) => if i == 0 {
            seq!['/']
        } else {
            t.take(i)
        },
        None => seq!['.'],
    }
}

pub fn remote_dirname(path: &str) -> (r: String)
    ensures
        r@ == remote_dirname_of(path@),
{
    let t = trim_end_matches(path, '/');
    let chars = chars_of(t.as_str());
    let mut r = String::new();
    match rfind_char_in(&chars, '/') {
        Some(i) => {
            if i == 0 {
                r.push('/');
            } else {
                r = string_from_range(&chars, 0, i);
            }
        },
        None => {
            r.push('.');
        },
    }
    assert(r@ =~= remote_dirname_of(path@));
    r
}

/// `child` inside remote directory `parent`.
pub open spec fn remote_join_of(parent: Seq<char>, child: Seq<char>) -> Seq<char> {
    if parent.len() == 0 || parent == seq!['.'] {
        child
    } else if parent == seq!['/'] {
        seq!['/'] + child
    } else {
        trim_end_char(parent, '/') + seq!['/'] + child
    }
}

pub fn remote_join(parent: &str, child: &str) -> (r: String)
    ensures
        r@ == remote_join_of(parent@, child@),
{
    proof {
        reveal_strlit(".");
        reveal_strlit("/");
        assert("."@ =~= seq!['.']);
        assert("/"@ =~= seq!['/']);
    }
    if parent.is_empty() || str_eq(parent, ".") {
        child.to_owned()
    } else if str_eq(parent, "/") {
        let mut r = String::new();
        r.push('/');
        r.append(child);
        assert(r@ =~= remote_join_of(parent@, child@));
        r
    } else {
        let mut r = trim_end_matches(parent, '/');
        r.push('/');
        r.append(child);
        assert(r@ =~= remote_join_of(parent@, child@));
        r
    }
}

/// One step of normalising: `..` leaves the last name unless that is `..`
/// itself; a relative path keeps a leading `..`; empty and `.` parts go.
pub open spec fn normalize_step(parts: Seq<Seq<char>>, part: Seq<char>, absolute: bool) -> Seq<
    Seq<char>,
> {
    if part.len() == 0 || part == seq!['.'] {
        parts
    } else if part == seq!['.', '.'] {
        if parts.len() > 0 && parts.last() != seq!['.', '.'] {
            parts.drop_last()
        } else if !absolute {
            parts.push(part)
        } else {
            parts
        }
    } else {
        parts.push(part)
    }
}

pub open spec fn normalize_parts(parts: Seq<Seq<char>>, absolute: bool) -> Seq<Seq<char>>
    decreases parts.len(),
{
    if parts.len() == 0 {
        Seq::empty()
    } else {
        normalize_step(normalize_parts(parts.drop_last(), absolute), parts.last(), absolute)
    }
}

/// The parts joined with `/`.
pub open spec fn join_slash(parts: Seq<Seq<char>>) -> Seq<char>
    decreases parts.len(),
{
    if parts.len() == 0 {
        Seq::empty()
    } else if parts.len() == 1 {
        parts[0]
    } else {
        join_slash(parts.drop_last()) + seq!['/'] + parts.last()
    }
}

/// A remote path with `.`, `..` and repeated slashes resolved lexically.
pub open spec fn normalize_remote_of(path: Seq<char>) -> Seq<char> {
    let absolute = path.len() > 0 && path[0] == '/';
    let joined = join_slash(normalize_parts(crate::text::split_char(path, '/'), absolute));
    if absolute {
        seq!['/'] + joined
    } else if joined.len() == 0 {
        seq!['.']
    } else {
        joined
    }
}

fn is_dot(s: &str) -> (r: bool)
    ensures
        r == (s@ == seq!['.']),
{
    let c = chars_of(s);
    let r = c.len() == 1 && c[0] == '.';
    proof {
        if s@ == seq!['.'] {
            assert(c@[0] == '.');
        }
        if r {
            assert(c@ =~= seq!['.']);
        }
    }
    r
}

fn is_dot_dot(s: &str) -> (r: bool)
    ensures
        r == (s@ == seq!['.', '.']),
{
    let c = chars_of(s);
    let r = c.len() == 2 && c[0] == '.' && c[1] == '.';
    proof {
        if s@ == seq!['.', '.'] {
            assert(c@[0] == '.' && c@[1] == '.');
        }
        if r {
            assert(c@ =~= seq!['.', '.']);
        }
    }
    r
}

pub fn normalize_remote_path(path: &str) -> (r: String)
    ensures
        r@ == normalize_remote_of(path@),
{
    let pc = chars_of(path);
    let absolute = pc.len() > 0 && pc[0] == '/';
    let pieces = crate::text::split_on(path, '/');
    let ghost pv = pieces@.map_values(|x: String| x@);
    let mut parts: Vec<String> = Vec::new();
    let mut i: usize = 0;
    while i < pieces.len()
        invariant
            i <= pieces.len(),
            pv == pieces@.map_values(|x: String| x@),
            parts@.map_values(|x: String| x@) == normalize_parts(pv.take(i as int), absolute),
        decreases pieces.len() - i,
    {
        let part = &pieces[i];
        let ghost before = parts@.map_values(|x: String| x@);
        assert(pv.take(i + 1).drop_last() =~= pv.take(i as int));
        assert(pv.take(i + 1).last() == part@);
        if part.as_str().is_empty() || is_dot(part.as_str()) {
        } else if is_dot_dot(part.as_str()) {
            let n = parts.len();
            if n > 0 && !is_dot_dot(parts[n - 1].as_str()) {
                parts.pop();
                assert(parts@.map_values(|x: String| x@) =~= before.drop_last());
            } else if !absolute {
                parts.push(part.clone());
                assert(parts@.map_values(|x: String| x@) =~= before.push(part@));
            }
        } else {
            parts.push(part.clone());
            assert(parts@.map_values(|x: String| x@) =~= before.push(part@));
        }
        i += 1;
    }
    assert(pv.take(i as int) =~= pv);
    let ghost nv = parts@.map_values(|x: String| x@);
    let mut joined = String::new();
    let mut k: usize = 0;
    while k < parts.len()
        invariant
            k <= parts.len(),
            nv == parts@.map_values(|x: String| x@),
            joined@ == join_slash(nv.take(k as int)),
        decreases parts.len() - k,
    {
        let ghost before = joined@;
        assert(nv.take(k + 1).drop_last() =~= nv.take(k as int));
        if k > 0 {
            joined.push('/');
        }
        joined.append(parts[k].as_str());
        proof {
            if k == 0 {
                assert(nv.take(1).len() == 1);
                assert(joined@ =~= nv.take(1)[0]);
            } else {
                assert(joined@ =~= before + seq!['/'] + nv.take(k + 1).last());
            }
        }
        k += 1;
    }
    assert(nv.take(k as int) =~= nv);
    if absolute {
        let mut r = String::new();
        r.push('/');
        r.append(joined.as_str());
        assert(r@ =~= seq!['/'] + joined@);
        r
    } else if joined.as_str().is_empty() {
        let mut r = String::new();
        r.push('.');
        r
    } else {
        joined
    }
}

/// The hidden sibling a remote upload is written to before it replaces the
/// destination: `.<name>.sshmgr-<id>.part` in the same directory.
pub open spec fn remote_temporary_of(path: Seq<char>, id: Seq<char>) -> Seq<char> {
    remote_join_of(
        remote_dirname_of(path),
        seq!['.'] + remote_basename_of(path) + ".sshmgr-"@ + id + ".part"@,
    )
}

pub fn remote_temporary(path: &str, id: &str) -> (r: String)
    ensures
        r@ == remote_temporary_of(path@, id@),
{
    let dir = remote_dirname(path);
    let base = remote_basename(path);
    let mut name = String::new();
    name.push('.');
    name.append(base.as_str());
    name.append(".sshmgr-");
    name.append(id);
    name.append(".part");
    assert(name@ =~= seq!['.'] + base@ + ".sshmgr-"@ + id@ + ".part"@);
    remote_join(dir.as_str(), name.as_str())
}

/// The name of a local file's hidden sibling: `.<name>.sshmgr-<id><suffix>`,
/// with `download` standing in for a path without a name.
pub open spec fn local_sibling_of(file_name: Option<Seq<char>>, id: Seq<char>, suffix: Seq<char>) -> Seq<
    char,
> {
    let name = match file_name {
        Some(n) => n,
        None => "download"@,
    };
    seq!['.'] + name + ".sshmgr-"@ + id + suffix
}

fn local_sibling(file_name: Option<&str>, id: &str, suffix: &str) -> (r: String)
    ensures
        r@ == local_sibling_of(
            match file_name {
                Some(n) => Some(n@),
                None => None,
            },
            id@,
            suffix@,
        ),
{
    let mut r = String::new();
    r.push('.');
    match file_name {
        Some(n) => r.append(n),
        None => r.append("download"),
    }
    r.append(".sshmgr-");
    r.append(id);
    r.append(suffix);
    r
}

/// The name of the temporary file a download is written to.
pub fn local_temporary(file_name: Option<&str>, id: &str) -> (r: String)
    ensures
        r@ == local_sibling_of(
            match file_name {
                Some(n) => Some(n@),
                None => None,
            },
            id@,
            ".part"@,
        ),
{
    local_sibling(file_name, id, ".part")
}

/// The name the replaced local file is kept under until the download is in place.
pub fn local_backup(file_name: Option<&str>, id: &str) -> (r: String)
    ensures
        r@ == local_sibling_of(
            match file_name {
                Some(n) => Some(n@),
                None => None,
            },
            id@,
            ".backup"@,
        ),
{
    local_sibling(file_name, id, ".backup")
}

/// Seconds since the epoch as a remote timestamp: capped at `u32::MAX`.
pub fn unix_seconds_u32(seconds: u64) -> (r: u32)
    ensures
        r == (if seconds <= u32::MAX {
            seconds
        } else {
            u32::MAX as u64
        }),
{
    if seconds <= 4294967295 {
        seconds as u32
    } else {
        4294967295
    }
}

/// Lexicographic order of character sequences: -1, 0 or 1.
pub open spec fn lex_order(a: Seq<char>, b: Seq<char>) -> int
    decreases a.len(),
{
    if a.len() == 0 && b.len() == 0 {
        0
    } else if a.len() == 0 {
        -1
    } else if b.len() == 0 {
        1
    } else if a[0] < b[0] {
        -1
    } else if b[0] < a[0] {
        1
    } else {
        lex_order(a.drop_first(), b.drop_first())
    }
}

fn lex_compare(a: &Vec<char>, b: &Vec<char>) -> (r: i8)
    ensures
        r as int == lex_order(a@, b@),
{
    let mut i: usize = 0;
    assert(a@.skip(0) =~= a@);
    assert(b@.skip(0) =~= b@);
    while i < a.len() && i < b.len()
        invariant
            i <= a.len(),
            i <= b.len(),
            a@.take(i as int) == b@.take(i as int),
            lex_order(a@, b@) == lex_order(a@.skip(i as int), b@.skip(i as int)),
        decreases a.len() - i,
    {
        let x = a[i];
        let y = b[i];
        assert(a@.skip(i as int)[0] == x);
        assert(b@.skip(i as int)[0] == y);
        if x < y {
            return -1;
        }
        if y < x {
            return 1;
        }
        assert(a@.skip(i as int).drop_first() =~= a@.skip(i + 1));
        assert(b@.skip(i as int).drop_first() =~= b@.skip(i + 1));
        assert(a@.take(i + 1) =~= a@.take(i as int).push(x));
        assert(b@.take(i + 1) =~= b@.take(i as int).push(y));
        i += 1;
    }
    if i == a.len() && i == b.len() {
        0
    } else if i == a.len() {
        -1
    } else {
        1
    }
}

/// The listing order: directories first, then by lower-cased name, then by name.
pub open spec fn entry_order(l_dir: bool, l_name: Seq<char>, r_dir: bool, r_name: Seq<char>) -> int {
    if l_dir && !r_dir {
        -1
    } else if !l_dir && r_dir {
        1
    } else {
        let c = lex_order(spec_to_lowercase(l_name), spec_to_lowercase(r_name));
        if c != 0 {
            c
        } else {
            lex_order(l_name, r_name)
        }
    }
}

fn entry_rank(left: &FileEntry, right: &FileEntry) -> (r: i8)
    ensures
        r as int == entry_order(
            left.kind == FileKind::Directory,
            left.name@,
            right.kind == FileKind::Directory,
            right.name@,
        ),
{
    let l_dir = left.kind == FileKind::Directory;
    let r_dir = right.kind == FileKind::Directory;
    if l_dir && !r_dir {
        return -1;
    }
    if !l_dir && r_dir {
        return 1;
    }
    let ll = to_lowercase(left.name.as_str());
    let rl = to_lowercase(right.name.as_str());
    let c = lex_compare(&chars_of(ll.as_str()), &chars_of(rl.as_str()));
    if c != 0 {
        c
    } else {
        lex_compare(&chars_of(left.name.as_str()), &chars_of(right.name.as_str()))
    }
}

/// How two entries of a listing are ordered.
pub fn compare_entries(left: &FileEntry, right: &FileEntry) -> (r: std::cmp::Ordering)
    ensures
        ({
            let o = entry_order(
                left.kind == FileKind::Directory,
                left.name@,
                right.kind == FileKind::Directory,
                right.name@,
            );
            &&& o < 0 <==> r == std::cmp::Ordering::Less
            &&& o == 0 <==> r == std::cmp::Ordering::Equal
            &&& o > 0 <==> r == std::cmp::Ordering::Greater
        }),
{
    let c = entry_rank(left, right);
    if c < 0 {
        std::cmp::Ordering::Less
    } else if c == 0 {
        std::cmp::Ordering::Equal
    } else {
        std::cmp::Ordering::Greater
    }
}

/// Swapping two names negates their lexicographic order.
pub proof fn lemma_lex_order_flips(a: Seq<char>, b: Seq<char>)
    ensures
        lex_order(a, b) == -lex_order(b, a),
        -1 <= lex_order(a, b) <= 1,
    decreases a.len(),
{
    if a.len() > 0 && b.len() > 0 && a[0] == b[0] {
        lemma_lex_order_flips(a.drop_first(), b.drop_first());
    }
}

/// Swapping two entries negates their listing order.
pub proof fn lemma_entry_order_flips(l_dir: bool, l_name: Seq<char>, r_dir: bool, r_name: Seq<char>)
    ensures
        entry_order(l_dir, l_name, r_dir, r_name) == -entry_order(r_dir, r_name, l_dir, l_name),
{
    lemma_lex_order_flips(spec_to_lowercase(l_name), spec_to_lowercase(r_name));
    lemma_lex_order_flips(l_name, r_name);
}

/// `a` may stand right before `b` in a listing.
pub open spec fn listed_before(a: FileEntry, b: FileEntry) -> bool {
    entry_order(a.kind == FileKind::Directory, a.name@, b.kind == FileKind::Directory, b.name@) <= 0
}

/// A listing in order: directories first, then by lower-cased name, then by
/// name.
pub fn sort_listing(entries: Vec<FileEntry>) -> (r: Vec<FileEntry>)
    ensures
        r@.to_multiset() == entries@.to_multiset(),
        r@.len() == entries@.len(),
        forall|i: int| 0 <= i < r@.len() - 1 ==> listed_before(#[trigger] r@[i], r@[i + 1]),
{
    broadcast use vstd::seq_lib::to_multiset_insert, vstd::seq_lib::to_multiset_build;
    broadcast use vstd::seq_lib::to_multiset_len, vstd::multiset::lemma_multiset_empty_len;
    broadcast use vstd::multiset::group_multiset_axioms;

    let ghost all = entries@;
    let mut input = entries;
    let mut out: Vec<FileEntry> = Vec::new();
    assert(out@.to_multiset().len() == 0);
    while input.len() > 0
        invariant
            out@.to_multiset().add(input@.to_multiset()) == all.to_multiset(),
            out@.len() + input@.len() == all.len(),
            forall|i: int| 0 <= i < out@.len() - 1 ==> listed_before(#[trigger] out@[i], out@[i + 1]),
        decreases input@.len(),
    {
        let ghost before = input@;
        let x = input.pop().unwrap();
        assert(before =~= input@.push(x));
        let mut p: usize = 0;
        while p < out.len() && entry_rank(&x, &out[p]) > 0
            invariant
                p <= out@.len(),
                forall|j: int|
                    0 <= j < p ==> entry_order(
                        x.kind == FileKind::Directory,
                        x.name@,
                        (#[trigger] out@[j]).kind == FileKind::Directory,
                        out@[j].name@,
                    ) > 0,
            decreases out@.len() - p,
        {
            p += 1;
        }
        let ghost old_out = out@;
        proof {
            if p > 0 {
                let y = old_out[p - 1];
                lemma_entry_order_flips(
                    x.kind == FileKind::Directory,
                    x.name@,
                    y.kind == FileKind::Directory,
                    y.name@,
                );
            }
        }
        out.insert(p, x);
        proof {
            assert forall|i: int| 0 <= i < out@.len() - 1 implies listed_before(#[trigger] out@[i], out@[i + 1]) by {
                if i < p as int - 1 {
                    assert(out@[i] == old_out[i] && out@[i + 1] == old_out[i + 1]);
                } else if i == p as int - 1 {
                } else if i == p as int {
                } else {
                    assert(out@[i] == old_out[i - 1] && out@[i + 1] == old_out[i]);
                    assert(listed_before(old_out[i - 1], old_out[i - 1 + 1]));
                }
            }
            assert(out@.to_multiset().add(input@.to_multiset()) =~= all.to_multiset());
        }
    }
    assert(input@.to_multiset().len() == 0);
    assert(out@.to_multiset().add(input@.to_multiset()) =~= out@.to_multiset());
    out
}

proof fn lemma_trim_end_kept(s: Seq<char>, c: char)
    requires
        s.len() == 0 || s.last() != c,
    ensures
        trim_end_char(s, c) == s,
{
}

/// The last name of a path with something before its trailing slashes has
/// no slash and is not empty.
proof fn lemma_basename_plain(path: Seq<char>)
    requires
        trim_end_char(path, '/').len() > 0,
    ensures
        remote_basename_of(path).len() > 0,
        forall|i: int| 0 <= i < remote_basename_of(path).len() ==> remote_basename_of(path)[i]
            != '/',
{
    let t = trim_end_char(path, '/');
    lemma_trim_end_char(path, '/');
    crate::text::lemma_rfind_facts(t, '/');
    match rfind_char(t, '/') {
        Some(i) => {
            let part = t.skip(i + 1);
            assert forall|j: int| 0 <= j < part.len() implies part[j] != '/' by {
                assert(part[j] == t[i + 1 + j]);
            }
            if part.len() == 0 {
                assert(t.last() == t[i]);
            }
        },
        None => {},
    }
}

/// The hidden file an upload goes to lies in the destination's directory:
/// for a destination with a name whose directory does not end in a slash
/// (other than the root), and a nonce without slashes.
pub proof fn lemma_remote_temporary_is_sibling(path: Seq<char>, id: Seq<char>)
    requires
        trim_end_char(path, '/').len() > 0,
        forall|i: int| 0 <= i < id.len() ==> id[i] != '/',
        remote_dirname_of(path) == seq!['/'] || remote_dirname_of(path).last() != '/',
    ensures
        remote_dirname_of(remote_temporary_of(path, id)) == remote_dirname_of(path),
{
    reveal_strlit(".sshmgr-");
    reveal_strlit(".part");
    let dir = remote_dirname_of(path);
    let base = remote_basename_of(path);
    lemma_basename_plain(path);
    let name = seq!['.'] + base + ".sshmgr-"@ + id + ".part"@;
    assert forall|i: int| 0 <= i < name.len() implies name[i] != '/' by {
        if i == 0 {
        } else if i < 1 + base.len() {
            assert(name[i] == base[i - 1]);
        } else if i < 1 + base.len() + 8 {
            assert(name[i] == ".sshmgr-"@[i - 1 - base.len()]);
        } else if i < 1 + base.len() + 8 + id.len() {
            assert(name[i] == id[i - 9 - base.len()]);
        } else {
            assert(name[i] == ".part"@[i - 9 - base.len() - id.len()]);
        }
    }
    assert(name.last() == 't');
    let joined = remote_join_of(dir, name);
    if dir == seq!['.'] {
        assert(joined == name);
        lemma_trim_end_kept(name, '/');
        if exists|k: int| crate::text::last_at(name, '/', k) {
            let k = choose|k: int| crate::text::last_at(name, '/', k);
            assert(name[k] != '/');
        }
        assert(rfind_char(name, '/') is None);
    } else if dir == seq!['/'] {
        assert(joined == seq!['/'] + name);
        assert(joined.last() == 't');
        lemma_trim_end_kept(joined, '/');
        assert(crate::text::last_at(joined, '/', 0)) by {
            assert forall|j: int| 0 < j < joined.len() implies joined[j] != '/' by {
                assert(joined[j] == name[j - 1]);
            }
        }
        crate::text::lemma_rfind_char(joined, '/', 0);
    } else {
        assert(dir.len() > 0);
        lemma_trim_end_kept(dir, '/');
        assert(joined == dir + seq!['/'] + name);
        assert(joined.last() == 't');
        lemma_trim_end_kept(joined, '/');
        let at = dir.len() as int;
        assert(crate::text::last_at(joined, '/', at)) by {
            assert forall|j: int| at < j < joined.len() implies joined[j] != '/' by {
                assert(joined[j] == name[j - at - 1]);
            }
        }
        crate::text::lemma_rfind_char(joined, '/', at);
        assert(joined.take(at) =~= dir);
    }
}

} // verus!

verus! {

/// The parts of a normalised remote path: none is empty or `.` or holds a
/// `/`; any `..` comes before every name, and an absolute path has none.
pub open spec fn normal_parts(p: Seq<Seq<char>>, absolute: bool) -> bool {
    &&& forall|i: int|
        0 <= i < p.len() ==> (#[trigger] p[i]).len() > 0 && p[i] != seq!['.'] && !p[i].contains('/')
    &&& forall|i: int, j: int|
        0 <= i < j < p.len() && #[trigger] p[j] == seq!['.', '.'] ==> #[trigger] p[i] == seq!['.', '.']
    &&& absolute ==> forall|i: int| 0 <= i < p.len() ==> #[trigger] p[i] != seq!['.', '.']
}

/// No part of a split holds the separator.
proof fn lemma_split_parts(s: Seq<char>, c: char)
    ensures
        forall|i: int|
            0 <= i < crate::text::split_char(s, c).len() ==> !(#[trigger] crate::text::split_char(
                s,
                c,
            )[i]).contains(c),
    decreases s.len(),
{
    crate::text::lemma_split_char_len(s, c);
    if s.len() > 0 {
        lemma_split_parts(s.drop_last(), c);
        let r = crate::text::split_char(s.drop_last(), c);
        crate::text::lemma_split_char_len(s.drop_last(), c);
        if s.last() != c {
            let l = r.last().push(s.last());
            assert forall|k: int| 0 <= k < l.len() implies l[k] != c by {
                if k < r.last().len() {
                    assert(r[r.len() - 1][k] == l[k]);
                    assert(!r[r.len() - 1].contains(c));
                }
            }
        }
    }
}

/// Normalising parts without `/` gives normal parts.
proof fn lemma_normalize_shape(q: Seq<Seq<char>>, absolute: bool)
    requires
        forall|i: int| 0 <= i < q.len() ==> !(#[trigger] q[i]).contains('/'),
    ensures
        normal_parts(normalize_parts(q, absolute), absolute),
    decreases q.len(),
{
    if q.len() > 0 {
        lemma_normalize_shape(q.drop_last(), absolute);
        let r = normalize_parts(q.drop_last(), absolute);
        let x = q.last();
        assert(!q[q.len() - 1].contains('/'));
        if x.len() == 0 || x == seq!['.'] {
        } else if x == seq!['.', '.'] {
            if r.len() > 0 && r.last() != seq!['.', '.'] {
                let d = r.drop_last();
                assert forall|i: int| 0 <= i < d.len() implies #[trigger] d[i] == r[i] by {}
            } else if !absolute {
                let p = r.push(x);
                assert forall|i: int| 0 <= i < r.len() implies #[trigger] r[i] == seq!['.', '.'] by {
                    assert(r[r.len() - 1] == seq!['.', '.']);
                }
                assert forall|i: int| 0 <= i < p.len() implies (#[trigger] p[i]).len() > 0 && p[i]
                    != seq!['.'] && !p[i].contains('/') by {
                    if i == r.len() {
                        assert(p[i] == seq!['.', '.']);
                        assert(!seq!['.', '.'].contains('/')) by {
                            assert forall|k: int| 0 <= k < 2 implies seq!['.', '.'][k] != '/' by {}
                        }
                        assert(seq!['.', '.'] != seq!['.']) by {
                            assert(seq!['.', '.'].len() != seq!['.'].len());
                        }
                    } else {
                        assert(p[i] == r[i]);
                    }
                }
            }
        } else {
            let p = r.push(x);
            assert forall|i: int| 0 <= i < p.len() implies (#[trigger] p[i]).len() > 0 && p[i] != seq!['.']
                && !p[i].contains('/') by {
                if i < r.len() {
                    assert(p[i] == r[i]);
                }
            }
            assert forall|i: int, j: int|
                0 <= i < j < p.len() && #[trigger] p[j] == seq!['.', '.'] implies #[trigger] p[i] == seq![
                '.',
                '.',
            ] by {
                assert(j < r.len());
                assert(p[j] == r[j] && p[i] == r[i]);
            }
        }
    }
}

/// Normalising after parts that normalise to nothing leaves normal parts as
/// they are.
proof fn lemma_normalize_keeps(q: Seq<Seq<char>>, p: Seq<Seq<char>>, absolute: bool)
    requires
        normalize_parts(q, absolute) == Seq::<Seq<char>>::empty(),
        normal_parts(p, absolute),
    ensures
        normalize_parts(q + p, absolute) == p,
    decreases p.len(),
{
    if p.len() == 0 {
        assert(q + p =~= q);
    } else {
        let d = p.drop_last();
        assert forall|i: int| 0 <= i < d.len() implies #[trigger] d[i] == p[i] by {}
        lemma_normalize_keeps(q, d, absolute);
        assert((q + p).drop_last() =~= q + d);
        assert((q + p).last() == p.last());
        let x = p.last();
        assert(x == p[p.len() - 1]);
        if x == seq!['.', '.'] {
            assert(!absolute);
            if d.len() > 0 {
                assert(d.last() == p[d.len() - 1]);
            }
        }
        assert(d.push(x) =~= p);
    }
}

/// Splitting after a separator adds the parts that were joined.
proof fn lemma_split_join(x: Seq<char>, p: Seq<Seq<char>>)
    requires
        p.len() > 0,
        forall|i: int| 0 <= i < p.len() ==> !(#[trigger] p[i]).contains('/'),
    ensures
        crate::text::split_char(x + seq!['/'] + join_slash(p), '/') == crate::text::split_char(x, '/')
            + p,
    decreases p.len(),
{
    if p.len() == 1 {
        assert(join_slash(p) == p[0]);
        lemma_split_push(x, p[0]);
        assert(crate::text::split_char(x, '/').push(p[0]) =~= crate::text::split_char(x, '/') + p);
    } else {
        let d = p.drop_last();
        assert forall|i: int| 0 <= i < d.len() implies !(#[trigger] d[i]).contains('/') by {
            assert(d[i] == p[i]);
        }
        lemma_split_join(x, d);
        let a = x + seq!['/'] + join_slash(d);
        assert(x + seq!['/'] + join_slash(p) =~= a + seq!['/'] + p.last());
        assert(!p[p.len() - 1].contains('/'));
        lemma_split_push(a, p.last());
        assert((crate::text::split_char(x, '/') + d).push(p.last()) =~= crate::text::split_char(x, '/')
            + p);
    }
}

/// Text ending in a separator and a part splits into the first text's parts
/// and that part.
proof fn lemma_split_push(a: Seq<char>, b: Seq<char>)
    requires
        !b.contains('/'),
    ensures
        crate::text::split_char(a + seq!['/'] + b, '/') == crate::text::split_char(a, '/').push(b),
    decreases b.len(),
{
    let s = a + seq!['/'] + b;
    crate::text::lemma_split_char_len(a, '/');
    if b.len() == 0 {
        assert(s.drop_last() =~= a);
        assert(s.last() == '/');
        assert(b =~= Seq::<char>::empty());
    } else {
        let b2 = b.drop_last();
        assert(b[b.len() - 1] != '/');
        assert(!b2.contains('/')) by {
            assert forall|k: int| 0 <= k < b2.len() implies b2[k] != '/' by {
                assert(b2[k] == b[k]);
            }
        }
        lemma_split_push(a, b2);
        assert(s.drop_last() =~= a + seq!['/'] + b2);
        assert(s.last() == b.last());
        assert(b2.push(b.last()) =~= b);
        let r = crate::text::split_char(a, '/').push(b2);
        assert(r.update(r.len() - 1, r.last().push(b.last())) =~= crate::text::split_char(a, '/').push(b));
    }
}

/// Joined normal parts start with the first part and are not empty.
proof fn lemma_join_start(p: Seq<Seq<char>>)
    requires
        p.len() > 0,
        forall|i: int| 0 <= i < p.len() ==> (#[trigger] p[i]).len() > 0,
    ensures
        join_slash(p).len() > 0,
        join_slash(p)[0] == p[0][0],
    decreases p.len(),
{
    assert(p[0].len() > 0);
    if p.len() > 1 {
        let d = p.drop_last();
        assert forall|i: int| 0 <= i < d.len() implies (#[trigger] d[i]).len() > 0 by {
            assert(d[i] == p[i]);
        }
        lemma_join_start(d);
        assert(d[0] == p[0]);
    }
}

/// Normalising a remote path gives normal parts, keeps it absolute or
/// relative, and normalising the result again changes nothing.
pub proof fn lemma_normalize_remote_idempotent(path: Seq<char>)
    ensures
        normal_parts(
            normalize_parts(crate::text::split_char(path, '/'), path.len() > 0 && path[0] == '/'),
            path.len() > 0 && path[0] == '/',
        ),
        normalize_remote_of(path).len() > 0,
        (normalize_remote_of(path)[0] == '/') == (path.len() > 0 && path[0] == '/'),
        normalize_remote_of(normalize_remote_of(path)) == normalize_remote_of(path),
{
    let absolute = path.len() > 0 && path[0] == '/';
    let q = crate::text::split_char(path, '/');
    lemma_split_parts(path, '/');
    lemma_normalize_shape(q, absolute);
    let p = normalize_parts(q, absolute);
    let j = join_slash(p);
    let n = normalize_remote_of(path);
    assert forall|i: int| 0 <= i < p.len() implies !(#[trigger] p[i]).contains('/') by {}
    assert(!seq!['.'].contains('/')) by {
        assert(seq!['.'][0] != '/');
    }
    let q1 = seq![Seq::<char>::empty()];
    assert(q1.drop_last() =~= Seq::<Seq<char>>::empty());
    assert(q1.last().len() == 0);
    assert(normalize_parts(q1.drop_last(), absolute) == Seq::<Seq<char>>::empty());
    assert(normalize_parts(q1, absolute) == Seq::<Seq<char>>::empty());
    if absolute {
        assert(n =~= seq!['/'] + j);
        assert(n[0] == '/');
        let e = Seq::<char>::empty();
        if p.len() == 0 {
            assert(j =~= e);
            assert(n =~= e + seq!['/'] + e);
            lemma_split_push(e, e);
            assert(crate::text::split_char(e, '/') =~= seq![e]);
            let q2 = seq![e].push(e);
            assert(q2.drop_last() =~= seq![e]);
            assert(normalize_parts(q2, true) =~= Seq::<Seq<char>>::empty());
        } else {
            assert(n =~= e + seq!['/'] + j);
            lemma_split_join(e, p);
            assert(crate::text::split_char(e, '/') =~= seq![e]);
            lemma_normalize_keeps(seq![e], p, true);
        }
    } else {
        if p.len() == 0 {
            assert(j =~= Seq::<char>::empty());
            assert(n =~= seq!['.']);
            crate::text::lemma_split_none(seq!['.'], '/');
            let q2 = seq![seq!['.']];
            assert(q2.drop_last() =~= Seq::<Seq<char>>::empty());
            assert(normalize_parts(q2, false) =~= Seq::<Seq<char>>::empty());
        } else {
            lemma_join_start(p);
            assert(n == j);
            assert(p[0].len() > 0 && !p[0].contains('/'));
            assert(n[0] != '/');
            let e = Seq::<char>::empty();
            if p.len() == 1 {
                assert(j == p[0]);
                assert forall|k: int| 0 <= k < p[0].len() implies p[0][k] != '/' by {}
                crate::text::lemma_split_none(p[0], '/');
                lemma_normalize_keeps(Seq::<Seq<char>>::empty(), p, false);
                assert(Seq::<Seq<char>>::empty() + p =~= p);
                assert(seq![p[0]] =~= p);
            } else {
                let d = p.drop_last();
                assert forall|i: int| 0 <= i < d.len() implies !(#[trigger] d[i]).contains('/') && d[i].len()
                    > 0 by {
                    assert(d[i] == p[i]);
                }
                // j = join(d) + "/" + last; split it as the parts of join(d) and the last.
                assert(j == join_slash(d) + seq!['/'] + p.last());
                assert(!p[p.len() - 1].contains('/'));
                lemma_split_join_plain(d);
                lemma_split_push(join_slash(d), p.last());
                assert(d.push(p.last()) =~= p);
                lemma_normalize_keeps(Seq::<Seq<char>>::empty(), p, false);
                assert(Seq::<Seq<char>>::empty() + p =~= p);
            }
        }
    }
}

/// Joined parts without `/` split back into the parts.
proof fn lemma_split_join_plain(p: Seq<Seq<char>>)
    requires
        p.len() > 0,
        forall|i: int| 0 <= i < p.len() ==> !(#[trigger] p[i]).contains('/'),
    ensures
        crate::text::split_char(join_slash(p), '/') == p,
    decreases p.len(),
{
    if p.len() == 1 {
        assert(join_slash(p) == p[0]);
        assert(!p[0].contains('/'));
        assert forall|k: int| 0 <= k < p[0].len() implies p[0][k] != '/' by {}
        crate::text::lemma_split_none(p[0], '/');
        assert(seq![p[0]] =~= p);
    } else {
        let d = p.drop_last();
        assert forall|i: int| 0 <= i < d.len() implies !(#[trigger] d[i]).contains('/') by {
            assert(d[i] == p[i]);
        }
        lemma_split_join_plain(d);
        assert(!p[p.len() - 1].contains('/'));
        lemma_split_push(join_slash(d), p.last());
        assert(d.push(p.last()) =~= p);
    }
}

} // verus!
