//! Small rules of the manager's screens: list selection, and path steps in
//! the two panels of the SFTP workspace.
use vstd::prelude::*;

use crate::sftp::paths::trim_end_char;
use crate::text::{chars_of, rfind_char, rfind_char_in, string_from_range};

verus! {

/// The last valid index of a list of `len` items (0 for an empty list), at most `index`.
pub open spec fn clamp_of(index: usize, len: usize) -> usize {
    if len == 0 {
        0
    } else if index < len {
        index
    } else {
        (len - 1) as usize
    }
}

pub fn clamp_index(index: usize, len: usize) -> (r: usize)
    ensures
        r == clamp_of(index, len),
{
    let last = if len == 0 {
        0
    } else {
        len - 1
    };
    if index < last {
        index
    } else {
        last
    }
}

/// `index` moved by `delta` in a list of `len` items, stopping at both ends.
pub open spec fn moved_of(index: usize, delta: isize, len: usize) -> usize {
    if len == 0 {
        0
    } else {
        let target = index + delta;
        if target < 0 {
            0
        } else if target >= len {
            (len - 1) as usize
        } else {
            target as usize
        }
    }
}

pub fn move_index(index: usize, delta: isize, len: usize) -> (r: usize)
    ensures
        r == moved_of(index, delta, len),
{
    if len == 0 {
        return 0;
    }
    let moved: usize = if delta < 0 {
        let back: usize = if delta == isize::MIN {
            (isize::MAX as usize) + 1
        } else {
            (-delta) as usize
        };
        if back > index {
            0
        } else {
            index - back
        }
    } else {
        let forward = delta as usize;
        if index > usize::MAX - forward {
            usize::MAX
        } else {
            index + forward
        }
    };
    if moved < len - 1 {
        moved
    } else {
        len - 1
    }
}

/// `Some` of non-empty text.
pub fn non_empty_string(value: &str) -> (r: Option<String>)
    ensures
        crate::types::opt_str(r) == (if value@.len() > 0 {
            Some(value@)
        } else {
            None
        }),
{
    if value.is_empty() {
        None
    } else {
        Some(value.to_owned())
    }
}

/// Which panel of the SFTP workspace.
#[derive(Clone, Copy, Debug, PartialEq, Eq, Structural)]
pub enum SftpSide {
    Local,
    Remote,
}

/// `name` inside remote directory `base`, with slashes between them collapsed.
pub open spec fn remote_child_of(base: Seq<char>, name: Seq<char>) -> Seq<char> {
    let b = trim_end_char(base, '/');
    let n = trim_start_char(name, '/');
    if b.len() == 0 {
        seq!['/'] + n
    } else {
        b + seq!['/'] + n
    }
}

/// `s` without its leading `c`s.
pub open spec fn trim_start_char(s: Seq<char>, c: char) -> Seq<char>
    decreases s.len(),
{
    if s.len() > 0 && s[0] == c {
        trim_start_char(s.drop_first(), c)
    } else {
        s
    }
}

fn trim_start_matches(s: &str, c: char) -> (r: String)
    ensures
        r@ == trim_start_char(s@, c),
{
    let chars = chars_of(s);
    let mut i: usize = 0;
    assert(chars@.skip(0) =~= chars@);
    while i < chars.len() && chars[i] == c
        invariant
            i <= chars.len(),
            trim_start_char(chars@.skip(i as int), c) == trim_start_char(chars@, c),
        decreases chars.len() - i,
    {
        assert(chars@.skip(i as int).drop_first() =~= chars@.skip(i + 1));
        i += 1;
    }
    let r = string_from_range(&chars, i, chars.len());
    assert(r@ =~= chars@.skip(i as int));
    r
}

/// The parent of a remote directory: `/` above the root and top names, `.`
/// above a bare name.
pub open spec fn remote_parent_of(current: Seq<char>) -> Seq<char> {
    let t = trim_end_char(current, '/');
    if t.len() == 0 {
        seq!['/']
    } else {
        match rfind_char(t, '/') {
            Some(i) => if i == 0 {
                seq!['/']
            } else {
                t.take(i)
            },
            None => seq!['.'],
        }
    }
}

/// `name` is a single plain name on every platform: it has no `/` or `\\`
/// separator and no `:` that could start a Windows drive.
pub open spec fn plain_name(name: Seq<char>) -> bool {
    !name.contains('/') && !name.contains('\\') && !name.contains(':')
}

/// `path` is a Windows verbatim path (`\\?\...`), to which joining
/// re-writes the separators.
pub open spec fn verbatim(path: Seq<char>) -> bool {
    crate::text::has_prefix(path, seq!['\\', '\\', '?', '\\'])
}

/// `r` is `name` joined to the local directory `base`: directly (after a
/// separator or a bare drive, or to an empty base), or after one `/` or `\\`.
pub open spec fn joined_locally(base: Seq<char>, name: Seq<char>, r: Seq<char>) -> bool {
    ||| r == base + name
    ||| r == base + seq!['/'] + name
    ||| r == base + seq!['\\'] + name
}

/// `r` may be the parent of the local path `current`: `current` itself (a
/// path without a parent), or a shorter start of it.
pub open spec fn local_parent_of(current: Seq<char>, r: Seq<char>) -> bool {
    r == current || (r.len() < current.len() && r == current.take(r.len() as int))
}

/// Calls `Path::join` and `to_string_lossy`. For a plain `name` and a base
/// that is not a verbatim path, `PathBuf::push` appends the name, after the
/// platform's separator when `base` does not already end in one; which
/// separator, and what happens to other names, is left unstated.
#[verifier::external_body]
pub(crate) fn local_join(base: &str, name: &str) -> (r: String)
    ensures
        plain_name(name@) && !verbatim(base@) ==> joined_locally(base@, name@, r@),
{
    std::path::Path::new(base).join(name).to_string_lossy().into_owned()
}

/// Calls `Path::parent` and `to_string_lossy`. The parent, when there is one,
/// is a shorter start of the path (the path without its last component);
/// where the platform's rules cut it is left unstated.
#[verifier::external_body]
fn local_parent(current: &str) -> (r: Option<String>)
    ensures
        r matches Some(p) ==> p@.len() < current@.len() && p@ == current@.take(p@.len() as int),
{
    std::path::Path::new(current).parent().map(|path| path.to_string_lossy().into_owned())
}

/// `name` inside the panel's directory `base`.
pub fn join_path(side: SftpSide, base: &str, name: &str) -> (r: String)
    ensures
        side == SftpSide::Remote ==> r@ == remote_child_of(base@, name@),
        side == SftpSide::Local && plain_name(name@) && !verbatim(base@) ==> joined_locally(
            base@,
            name@,
            r@,
        ),
{
    match side {
        SftpSide::Local => local_join(base, name),
        SftpSide::Remote => {
            let b = crate::sftp::paths::trim_end_matches(base, '/');
            let n = trim_start_matches(name, '/');
            let mut r = String::new();
            if b.as_str().is_empty() {
                r.push('/');
            } else {
                r.append(b.as_str());
                r.push('/');
            }
            r.append(n.as_str());
            assert(r@ =~= remote_child_of(base@, name@));
            r
        },
    }
}

/// The directory above the panel's directory `current` (itself when a local
/// path has no parent).
pub fn parent_path(side: SftpSide, current: &str) -> (r: String)
    ensures
        side == SftpSide::Remote ==> r@ == remote_parent_of(current@),
        side == SftpSide::Local ==> local_parent_of(current@, r@),
{
    match side {
        SftpSide::Local => match local_parent(current) {
            Some(p) => p,
            None => current.to_owned(),
        },
        SftpSide::Remote => {
            let t = crate::sftp::paths::trim_end_matches(current, '/');
            let mut r = String::new();
            if t.as_str().is_empty() {
                r.push('/');
                assert(r@ =~= seq!['/']);
                return r;
            }
            let chars = chars_of(t.as_str());
            match rfind_char_in(&chars, '/') {
                Some(i) => {
                    if i == 0 {
                        r.push('/');
                    } else {
                        r = string_from_range(&chars, 0, i);
                    }
                },
                None => {
                    r.push('.');
                },
            }
            assert(r@ =~= remote_parent_of(current@));
            r
        },
    }
}

/// `name` next to the panel's `current` path.
pub fn sibling_path(side: SftpSide, current: &str, name: &str) -> (r: String)
    ensures
        side == SftpSide::Remote ==> r@ == remote_child_of(remote_parent_of(current@), name@),
        side == SftpSide::Local && plain_name(name@) && !verbatim(current@) ==> exists|p: Seq<
            char,
        >| local_parent_of(current@, p) && joined_locally(p, name@, r@),
{
    let parent = parent_path(side, current);
    proof {
        if side == SftpSide::Local {
            lemma_start_not_verbatim(current@, parent@);
        }
    }
    join_path(side, parent.as_str(), name)
}

/// A start of a path that is not verbatim is not verbatim either.
proof fn lemma_start_not_verbatim(current: Seq<char>, p: Seq<char>)
    requires
        local_parent_of(current, p),
    ensures
        verbatim(p) ==> verbatim(current),
{
    if verbatim(p) && p != current {
        assert(p.take(4) =~= current.take(4));
    }
}

/// The last name of a path with `/` or `\\` separators.
pub open spec fn basename_of(path: Seq<char>) -> Seq<char> {
    let a = rfind_char(path, '/');
    let b = rfind_char(path, '\\');
    let cut: int = match (a, b) {
        (Some(x), Some(y)) => if x > y {
            x
        } else {
            y
        },
        (Some(x), None) => x,
        (None, Some(y)) => y,
        (None, None) => -1,
    };
    path.skip(cut + 1)
}

pub fn path_basename(path: &str) -> (r: String)
    ensures
        r@ == basename_of(path@),
{
    let chars = chars_of(path);
    let a = rfind_char_in(&chars, '/');
    let b = rfind_char_in(&chars, '\\');
    let start: usize = match (a, b) {
        (Some(x), Some(y)) => if x > y {
            x + 1
        } else {
            y + 1
        },
        (Some(x), None) => x + 1,
        (None, Some(y)) => y + 1,
        (None, None) => 0,
    };
    let r = string_from_range(&chars, start, chars.len());
    assert(r@ =~= basename_of(path@));
    r
}

/// Moving a selection keeps it on an item: below the length of a non-empty
/// list, at 0 for an empty one; so does clamping.
pub proof fn lemma_selection_stays_in_list(index: usize, delta: isize, len: usize)
    ensures
        len > 0 ==> moved_of(index, delta, len) < len && clamp_of(index, len) < len,
        len == 0 ==> moved_of(index, delta, len) == 0 && clamp_of(index, len) == 0,
        index < len ==> clamp_of(index, len) == index,
        delta == 0 && index < len ==> moved_of(index, delta, len) == index,
{
}

} // verus!
