//! The single-line text input of the forms: a value and a cursor that sits
//! on a grapheme boundary, counted in UTF-8 bytes, and moves by grapheme.
use vstd::prelude::*;

use unicode_segmentation::UnicodeSegmentation;
use unicode_width::UnicodeWidthStr;
use vstd::utf8::{encode_utf8, is_char_boundary, valid_utf8};

verus! {

/// The UTF-8 bytes of text.
pub open spec fn bytes_of(s: Seq<char>) -> Seq<u8> {
    encode_utf8(s)
}

/// The byte length of a string.
pub fn byte_len(s: &str) -> (n: usize)
    ensures
        n == bytes_of(s@).len(),
{
    broadcast use vstd::slice::axiom_spec_len;

    s.as_bytes().len()
}

/// A text input field.
#[derive(Clone, Debug, PartialEq, Eq)]
pub struct TextInput {
    pub value: String,
    /// Cursor position in bytes; it is kept on a grapheme boundary.
    pub cursor: usize,
    pub secret: bool,
}

/// Where the last grapheme cluster of `text` starts, in bytes; nothing for
/// empty text.
pub uninterp spec fn last_grapheme_start(text: Seq<char>) -> Option<usize>;

/// Where the second grapheme cluster of `text` starts, in bytes; nothing when
/// `text` has fewer than two.
pub uninterp spec fn second_grapheme_start(text: Seq<char>) -> Option<usize>;

/// Calls `UnicodeSegmentation::grapheme_indices` (extended clusters) and
/// takes the start of the last cluster. The segmentation rules are left to
/// the name; what is stated is that the offsets lie inside the text, on a
/// character boundary, that only empty text has no cluster, and that the
/// cluster is the last of those `graphemes` gives (both walk the same
/// extended clusters).
#[verifier::external_body]
fn last_grapheme(text: &str) -> (r: Option<usize>)
    ensures
        r == last_grapheme_start(text@),
        r is None <==> text@.len() == 0,
        r matches Some(i) ==> i == cluster_start(text@, graphemes_of(text@).len() - 1),
        r matches Some(i) ==> i < bytes_of(text@).len() && is_char_boundary(bytes_of(text@), i as int),
{
    text.grapheme_indices(true).next_back().map(|(index, _)| index)
}

/// Calls `UnicodeSegmentation::grapheme_indices` (extended clusters) and
/// takes the start of the second cluster. The segmentation rules are left
/// to the name; what is stated is that such an offset lies strictly inside
/// the text, on a character boundary, and is where the second of the
/// clusters `graphemes` gives starts; there is none for fewer than two.
#[verifier::external_body]
fn second_grapheme(text: &str) -> (r: Option<usize>)
    ensures
        r == second_grapheme_start(text@),
        r matches Some(i) ==> i == cluster_start(text@, 1),
        r is None ==> graphemes_of(text@).len() < 2,
        r matches Some(i) ==> 0 < i < bytes_of(text@).len() && is_char_boundary(
            bytes_of(text@),
            i as int,
        ),
{
    text.grapheme_indices(true).nth(1).map(|(index, _)| index)
}

/// `String::insert_str`: the bytes of `text` go in at byte offset `at`,
/// which must be a character boundary.
#[verifier::external_body]
fn insert_str_at(s: &mut String, at: usize, text: &str)
    requires
        at <= bytes_of(old(s)@).len(),
        is_char_boundary(bytes_of(old(s)@), at as int),
    ensures
        bytes_of(final(s)@) == bytes_of(old(s)@).take(at as int) + bytes_of(text@) + bytes_of(
            old(s)@,
        ).skip(at as int),
{
    s.insert_str(at, text)
}

impl TextInput {
    /// The cursor is on a grapheme boundary of the value, and so on a
    /// character boundary.
    pub open spec fn wf(&self) -> bool {
        &&& self.cursor <= bytes_of(self.value@).len()
        &&& is_char_boundary(bytes_of(self.value@), self.cursor as int)
        &&& grapheme_boundary(self.value@, self.cursor as int)
    }

    /// A plain input with the cursor at the end.
    pub fn new(value: String) -> (r: TextInput)
        ensures
            r.value@ == value@,
            r.cursor == bytes_of(value@).len(),
            !r.secret,
            r.wf(),
    {
        let cursor = byte_len(value.as_str());
        end_boundary(value.as_str());
        proof {
            vstd::utf8::encode_utf8_valid_utf8(value@);
            vstd::utf8::is_char_boundary_start_end_of_seq(bytes_of(value@));
        }
        TextInput { value, cursor, secret: false }
    }

    /// A secret input (shown masked) with the cursor at the end.
    pub fn secret(value: String) -> (r: TextInput)
        ensures
            r.value@ == value@,
            r.cursor == bytes_of(value@).len(),
            r.secret,
            r.wf(),
    {
        let input = Self::new(value);
        TextInput { value: input.value, cursor: input.cursor, secret: true }
    }

    /// The value before the cursor.
    pub open spec fn before_cursor(&self) -> Seq<char> {
        vstd::utf8::decode_utf8(bytes_of(self.value@).take(self.cursor as int))
    }

    /// The value from the cursor on.
    pub open spec fn after_cursor(&self) -> Seq<char> {
        vstd::utf8::decode_utf8(bytes_of(self.value@).skip(self.cursor as int))
    }

    fn split(&self) -> (r: (&str, &str))
        requires
            self.wf(),
        ensures
            r.0@ == self.before_cursor(),
            r.1@ == self.after_cursor(),
            bytes_of(r.0@) == bytes_of(self.value@).take(self.cursor as int),
            bytes_of(r.1@) == bytes_of(self.value@).skip(self.cursor as int),
    {
        let (a, b) = self.value.as_str().split_at(self.cursor);
        proof {
            assert(bytes_of(a@) =~= bytes_of(self.value@).take(self.cursor as int));
            assert(bytes_of(b@) =~= bytes_of(self.value@).skip(self.cursor as int));
            vstd::utf8::encode_utf8_decode_utf8(a@);
            vstd::utf8::encode_utf8_decode_utf8(b@);
        }
        (a, b)
    }

    /// Where the grapheme before the cursor starts (0 at the start).
    pub fn previous_boundary(&self) -> (r: usize)
        requires
            self.wf(),
        ensures
            r == match last_grapheme_start(self.before_cursor()) {
                Some(i) => i,
                None => 0,
            },
            r <= self.cursor,
            self.cursor > 0 ==> r < self.cursor,
            is_char_boundary(bytes_of(self.value@), r as int),
    {
        let (before, _) = self.split();
        proof {
            lemma_valid(self.value@);
            lemma_valid(before@);
        }
        match last_grapheme(before) {
            Some(i) => {
                proof {
                    lemma_boundary_prefix(bytes_of(self.value@), self.cursor as int, i as int);
                }
                i
            },
            None => {
                proof {
                    if self.cursor > 0 {
                        assert(bytes_of(before@).len() > 0);
                        assert(before@.len() > 0) by {
                            if before@.len() == 0 {
                                assert(bytes_of(before@) =~= Seq::<u8>::empty());
                            }
                        }
                    }
                }
                0
            },
        }
    }

    /// Where the grapheme after the cursor ends (the end of the value at
    /// the last one).
    pub fn next_boundary(&self) -> (r: usize)
        requires
            self.wf(),
        ensures
            r as int == match second_grapheme_start(self.after_cursor()) {
                Some(i) => self.cursor + i,
                None => bytes_of(self.value@).len() as int,
            },
            self.cursor <= r <= bytes_of(self.value@).len(),
            is_char_boundary(bytes_of(self.value@), r as int),
    {
        let total = byte_len(self.value.as_str());
        let (before, after) = self.split();
        proof {
            lemma_valid(self.value@);
            lemma_valid(before@);
            lemma_valid(after@);
            assert(bytes_of(self.value@) =~= bytes_of(before@) + bytes_of(after@));
        }
        match second_grapheme(after) {
            Some(i) => {
                proof {
                    lemma_boundary_concat(bytes_of(before@), bytes_of(after@), i as int);
                }
                self.cursor + i
            },
            None => total,
        }
    }

    /// Inserts text at the cursor and moves the cursor past it, to the end
    /// of the grapheme cluster it lands in.
    pub fn insert_text(&mut self, text: &str)
        requires
            old(self).wf(),
            bytes_of(old(self).value@).len() + bytes_of(text@).len() <= usize::MAX,
        ensures
            bytes_of(final(self).value@) == bytes_of(old(self).value@).take(old(self).cursor as int)
                + bytes_of(text@) + bytes_of(old(self).value@).skip(old(self).cursor as int),
            boundary_after(
                final(self).value@,
                old(self).cursor + bytes_of(text@).len(),
                final(self).cursor as int,
            ),
            final(self).secret == old(self).secret,
            final(self).wf(),
    {
        let ghost b = bytes_of(self.value@);
        let ghost c = self.cursor as int;
        proof {
            self.lemma_split_pieces();
            lemma_valid(text@);
        }
        let n = byte_len(text);
        insert_str_at(&mut self.value, self.cursor, text);
        proof {
            let a = b.take(c) + bytes_of(text@);
            lemma_boundary_concat(b.take(c), bytes_of(text@), bytes_of(text@).len() as int);
            lemma_boundary_concat(a, b.skip(c), 0);
            assert(bytes_of(self.value@) =~= a + b.skip(c));
        }
        self.cursor = snap_forward(self.value.as_str(), self.cursor + n);
    }
}

/// `String::drain` of a byte range whose ends are character boundaries.
#[verifier::external_body]
fn remove_range(s: &mut String, from: usize, to: usize)
    requires
        from <= to <= bytes_of(old(s)@).len(),
        is_char_boundary(bytes_of(old(s)@), from as int),
        is_char_boundary(bytes_of(old(s)@), to as int),
    ensures
        bytes_of(final(s)@) == bytes_of(old(s)@).take(from as int) + bytes_of(old(s)@).skip(
            to as int,
        ),
{
    s.drain(from..to);
}

/// `String::truncate` at a character boundary.
#[verifier::external_body]
fn truncate_at(s: &mut String, at: usize)
    requires
        at <= bytes_of(old(s)@).len(),
        is_char_boundary(bytes_of(old(s)@), at as int),
    ensures
        bytes_of(final(s)@) == bytes_of(old(s)@).take(at as int),
{
    s.truncate(at)
}

/// The UTF-8 bytes of text are valid, with boundaries at both ends.
pub proof fn lemma_valid(s: Seq<char>)
    ensures
        valid_utf8(bytes_of(s)),
        is_char_boundary(bytes_of(s), 0),
        is_char_boundary(bytes_of(s), bytes_of(s).len() as int),
{
    vstd::utf8::encode_utf8_valid_utf8(s);
    vstd::utf8::is_char_boundary_start_end_of_seq(bytes_of(s));
}

/// Where two valid pieces meet is a boundary, and so is every boundary of
/// either piece.
proof fn lemma_boundary_concat(a: Seq<u8>, b: Seq<u8>, i: int)
    requires
        valid_utf8(a),
        valid_utf8(b),
        0 <= i <= b.len(),
        is_char_boundary(b, i),
    ensures
        valid_utf8(a + b),
        is_char_boundary(a + b, a.len() + i),
{
    vstd::utf8::valid_utf8_concat(a, b);
    let ab = a + b;
    if i == b.len() {
        vstd::utf8::is_char_boundary_start_end_of_seq(ab);
        assert(ab.len() == a.len() + i);
    } else {
        vstd::utf8::is_char_boundary_iff_not_is_continuation_byte(b, i);
        vstd::utf8::is_char_boundary_iff_not_is_continuation_byte(ab, a.len() + i);
        assert(ab[a.len() + i] == b[i]);
    }
}

/// A boundary of a prefix is a boundary of the whole.
proof fn lemma_boundary_prefix(b: Seq<u8>, cut: int, i: int)
    requires
        valid_utf8(b),
        0 <= cut <= b.len(),
        is_char_boundary(b, cut),
        0 <= i <= cut,
        is_char_boundary(b.take(cut), i),
    ensures
        is_char_boundary(b, i),
{
    vstd::utf8::valid_utf8_split(b, cut);
    assert(b.subrange(0, cut) =~= b.take(cut));
    assert(b.subrange(cut, b.len() as int) =~= b.skip(cut));
    vstd::utf8::valid_utf8_split(b, cut);
    if i == cut {
    } else {
        vstd::utf8::is_char_boundary_iff_not_is_continuation_byte(b.take(cut), i);
        vstd::utf8::is_char_boundary_iff_not_is_continuation_byte(b, i);
        assert(b.take(cut)[i] == b[i]);
    }
}

/// A key as the text input sees it.
#[derive(Clone, Copy, Debug, PartialEq, Eq)]
pub enum InputKeyCode {
    Char(char),
    Backspace,
    Delete,
    Left,
    Right,
    Home,
    End,
    Other,
}

/// A key with the modifiers the input cares about.
#[derive(Clone, Copy, Debug, PartialEq, Eq)]
pub struct InputKey {
    pub code: InputKeyCode,
    pub control: bool,
    pub alt: bool,
}

/// What a key does to an input `t0`, giving `t1` and whether it was used:
/// Ctrl-U clears before the cursor, Ctrl-K after it; a character without
/// Ctrl or Alt goes in at the cursor; Backspace and Delete remove a
/// grapheme; the arrows move by grapheme, Home and End to the ends. The
/// cursor ends on a grapheme boundary of the new value: the first one at or
/// after where an insertion or a step right leaves it, the last one at or
/// before where a deletion or a step left leaves it.
pub open spec fn key_edit(t0: TextInput, t1: TextInput, key: InputKey, used: bool) -> bool {
    let b = bytes_of(t0.value@);
    let c = t0.cursor as int;
    let nb = bytes_of(t1.value@);
    match key.code {
        InputKeyCode::Char(ch) => if key.control && ch == 'u' {
            used && nb == b.skip(c) && t1.cursor == 0
        } else if key.control && ch == 'k' {
            used && nb == b.take(c) && t1.cursor == c
        } else if !key.control && !key.alt {
            used && nb == b.take(c) + bytes_of(seq![ch]) + b.skip(c) && boundary_after(
                t1.value@,
                c + bytes_of(seq![ch]).len(),
                t1.cursor as int,
            )
        } else {
            !used && t1.value@ == t0.value@ && t1.cursor
                == t0.cursor
        },
        InputKeyCode::Backspace => used && if c > 0 {
            let p = match last_grapheme_start(t0.before_cursor()) {
                Some(i) => i as int,
                None => 0,
            };
            nb == b.take(p) + b.skip(c) && boundary_before(t1.value@, p, t1.cursor as int)
        } else {
            t1.value@ == t0.value@ && t1.cursor == 0
        },
        InputKeyCode::Delete => used && if c < b.len() {
            let n = match second_grapheme_start(t0.after_cursor()) {
                Some(i) => c + i,
                None => b.len() as int,
            };
            nb == b.take(c) + b.skip(n) && boundary_before(t1.value@, c, t1.cursor as int)
        } else {
            t1.value@ == t0.value@ && t1.cursor == c
        },
        InputKeyCode::Left => used && t1.value@ == t0.value@ && boundary_before(
            t0.value@,
            match last_grapheme_start(t0.before_cursor()) {
                Some(i) => i as int,
                None => 0,
            },
            t1.cursor as int,
        ),
        InputKeyCode::Right => used && t1.value@ == t0.value@ && boundary_after(
            t0.value@,
            match second_grapheme_start(t0.after_cursor()) {
                Some(i) => c + i,
                None => b.len() as int,
            },
            t1.cursor as int,
        ),
        InputKeyCode::Home => used && t1.value@ == t0.value@
            && t1.cursor == 0,
        InputKeyCode::End => used && t1.value@ == t0.value@
            && t1.cursor == b.len(),
        InputKeyCode::Other => !used && t1.value@ == t0.value@
            && t1.cursor == t0.cursor,
    }
}

impl TextInput {
    proof fn lemma_split_pieces(&self)
        requires
            self.wf(),
        ensures
            valid_utf8(bytes_of(self.value@)),
            valid_utf8(bytes_of(self.value@).take(self.cursor as int)),
            valid_utf8(bytes_of(self.value@).skip(self.cursor as int)),
            bytes_of(self.value@) == bytes_of(self.value@).take(self.cursor as int) + bytes_of(
                self.value@,
            ).skip(self.cursor as int),
    {
        let b = bytes_of(self.value@);
        lemma_valid(self.value@);
        vstd::utf8::valid_utf8_split(b, self.cursor as int);
        assert(b.subrange(0, self.cursor as int) =~= b.take(self.cursor as int));
        assert(b.subrange(self.cursor as int, b.len() as int) =~= b.skip(self.cursor as int));
        assert(b =~= b.take(self.cursor as int) + b.skip(self.cursor as int));
    }

    /// Edits the value for a key: Ctrl-U clears before the cursor, Ctrl-K
    /// after it; a character without Ctrl or Alt goes in at the cursor;
    /// Backspace and Delete remove a grapheme; the arrows move by grapheme,
    /// Home and End to the ends. Wherever the cursor lands inside a cluster
    /// of the new value, it moves to the cluster's end (after an insertion
    /// or a step right) or start (otherwise). Returns whether the key was
    /// used.
    pub fn handle_key(&mut self, key: InputKey) -> (used: bool)
        requires
            old(self).wf(),
            bytes_of(old(self).value@).len() + 4 <= usize::MAX,
        ensures
            final(self).wf(),
            final(self).secret == old(self).secret,
            key_edit(*old(self), *final(self), key, used),
    {
        let ghost b = bytes_of(self.value@);
        let ghost c = self.cursor as int;
        proof {
            self.lemma_split_pieces();
            lemma_valid(self.value@);
        }
        match key.code {
            InputKeyCode::Char(ch) => {
                if key.control && ch == 'u' {
                    remove_range(&mut self.value, 0, self.cursor);
                    self.cursor = 0;
                    proof {
                        assert(b.take(0) + b.skip(c) =~= b.skip(c));
                        lemma_valid(self.value@);
                        lemma_start_boundary(self.value@);
                    }
                    true
                } else if key.control && ch == 'k' {
                    truncate_at(&mut self.value, self.cursor);
                    end_boundary(self.value.as_str());
                    proof {
                        lemma_valid(self.value@);
                        assert(bytes_of(self.value@).len() == c);
                    }
                    true
                } else if !key.control && !key.alt {
                    let mut piece = String::new();
                    piece.push(ch);
                    let n = byte_len(piece.as_str());
                    proof {
                        lemma_valid(piece@);
                        assert(piece@ =~= seq![ch]);
                        vstd::utf8::encode_utf8_first_scalar(seq![ch]);
                        assert(n <= 4) by {
                            assert(bytes_of(seq![ch]).len() <= 4) by {
                                reveal_with_fuel(encode_utf8, 2);
                                assert(seq![ch].drop_first() =~= Seq::<char>::empty());
                            }
                        }
                    }
                    insert_str_at(&mut self.value, self.cursor, piece.as_str());
                    proof {
                        let a = b.take(c) + bytes_of(piece@);
                        lemma_boundary_concat(b.take(c), bytes_of(piece@), bytes_of(piece@).len() as int);
                        lemma_boundary_concat(a, b.skip(c), 0);
                        assert(bytes_of(self.value@) =~= a + b.skip(c));
                    }
                    self.cursor = snap_forward(self.value.as_str(), self.cursor + n);
                    true
                } else {
                    false
                }
            },
            InputKeyCode::Backspace => {
                if self.cursor > 0 {
                    let previous = self.previous_boundary();
                    remove_range(&mut self.value, previous, self.cursor);
                    proof {
                        let p = previous as int;
                        vstd::utf8::valid_utf8_split(b, p);
                        assert(b.subrange(0, p) =~= b.take(p));
                        lemma_boundary_concat(b.take(p), b.skip(c), 0);
                        lemma_valid(self.value@);
                    }
                    self.cursor = snap_back(self.value.as_str(), previous);
                }
                true
            },
            InputKeyCode::Delete => {
                let total = byte_len(self.value.as_str());
                if self.cursor < total {
                    let next = self.next_boundary();
                    remove_range(&mut self.value, self.cursor, next);
                    proof {
                        let n = next as int;
                        vstd::utf8::valid_utf8_split(b, n);
                        assert(b.subrange(n, b.len() as int) =~= b.skip(n));
                        lemma_boundary_concat(b.take(c), b.skip(n), 0);
                        lemma_valid(self.value@);
                    }
                    self.cursor = snap_back(self.value.as_str(), self.cursor);
                }
                true
            },
            InputKeyCode::Left => {
                let previous = self.previous_boundary();
                self.cursor = snap_back(self.value.as_str(), previous);
                true
            },
            InputKeyCode::Right => {
                let next = self.next_boundary();
                self.cursor = snap_forward(self.value.as_str(), next);
                true
            },
            InputKeyCode::Home => {
                self.cursor = 0;
                proof {
                    lemma_start_boundary(self.value@);
                }
                true
            },
            InputKeyCode::End => {
                self.cursor = byte_len(self.value.as_str());
                end_boundary(self.value.as_str());
                true
            },
            InputKeyCode::Other => false,
        }
    }
}


/// The grapheme clusters (extended) of text, in order.
pub uninterp spec fn graphemes_of(text: Seq<char>) -> Seq<Seq<char>>;

/// The number of terminal columns text takes.
pub uninterp spec fn display_width(text: Seq<char>) -> usize;

/// Calls `UnicodeSegmentation::graphemes` (extended clusters) and copies
/// each cluster out. Where the clusters break is left to the name; what is
/// stated is that they are consecutive slices of the text, covering it.
#[verifier::external_body]
fn graphemes(text: &str) -> (r: Vec<String>)
    ensures
        crate::types::strs_view(r@) == graphemes_of(text@),
        crate::types::strs_view(r@).flatten() == text@,
{
    text.graphemes(true).map(|g| g.to_owned()).collect()
}

/// Where the `k`-th grapheme cluster of `text` starts, in bytes (the end of
/// the text for `k` = the number of clusters).
pub open spec fn cluster_start(text: Seq<char>, k: int) -> int {
    bytes_of(graphemes_of(text).take(k).flatten()).len() as int
}

/// `at` is a grapheme boundary of `text`: where a cluster starts, or the end.
pub open spec fn grapheme_boundary(text: Seq<char>, at: int) -> bool {
    exists|k: int| 0 <= k <= graphemes_of(text).len() && #[trigger] cluster_start(text, k) == at
}

/// `r` is the first grapheme boundary of `text` at or after `at`.
pub open spec fn boundary_after(text: Seq<char>, at: int, r: int) -> bool {
    &&& at <= r
    &&& grapheme_boundary(text, r)
    &&& forall|b: int| at <= b < r ==> !#[trigger] grapheme_boundary(text, b)
}

/// `r` is the last grapheme boundary of `text` at or before `at`.
pub open spec fn boundary_before(text: Seq<char>, at: int, r: int) -> bool {
    &&& r <= at
    &&& grapheme_boundary(text, r)
    &&& forall|b: int| r < b <= at ==> !#[trigger] grapheme_boundary(text, b)
}

/// The bytes of joined text are the joined bytes.
proof fn lemma_bytes_concat(a: Seq<char>, b: Seq<char>)
    ensures
        bytes_of(a + b) == bytes_of(a) + bytes_of(b),
    decreases a.len(),
{
    if a.len() == 0 {
        assert(a + b =~= b);
        assert(bytes_of(a) =~= Seq::<u8>::empty());
        assert(bytes_of(a) + bytes_of(b) =~= bytes_of(b));
    } else {
        assert((a + b).drop_first() =~= a.drop_first() + b);
        assert((a + b)[0] == a[0]);
        lemma_bytes_concat(a.drop_first(), b);
        assert(bytes_of(a + b) =~= bytes_of(a) + bytes_of(b));
    }
}

/// The start of the text is a grapheme boundary.
proof fn lemma_start_boundary(text: Seq<char>)
    ensures
        grapheme_boundary(text, 0),
{
    let g = graphemes_of(text);
    assert(g.take(0) =~= Seq::<Seq<char>>::empty());
    assert(g.take(0).flatten() =~= Seq::<char>::empty());
    assert(bytes_of(Seq::<char>::empty()) =~= Seq::<u8>::empty());
    assert(cluster_start(text, 0) == 0);
}

/// Cluster starts, for clusters that cover the text: each is a character
/// boundary inside the text, the next adds the cluster's bytes, and the
/// last is the end.
proof fn lemma_cluster_start(text: Seq<char>, k: int)
    requires
        graphemes_of(text).flatten() == text,
        0 <= k <= graphemes_of(text).len(),
    ensures
        0 <= cluster_start(text, k) <= bytes_of(text).len(),
        is_char_boundary(bytes_of(text), cluster_start(text, k)),
        k < graphemes_of(text).len() ==> cluster_start(text, k + 1) == cluster_start(text, k) + bytes_of(
            graphemes_of(text)[k],
        ).len(),
        k == graphemes_of(text).len() ==> cluster_start(text, k) == bytes_of(text).len(),
{
    let g = graphemes_of(text);
    let a = g.take(k).flatten();
    let b = g.skip(k).flatten();
    assert(g =~= g.take(k) + g.skip(k));
    vstd::seq_lib::lemma_flatten_concat(g.take(k), g.skip(k));
    assert(text =~= a + b);
    lemma_bytes_concat(a, b);
    lemma_valid(a);
    lemma_valid(b);
    lemma_boundary_concat(bytes_of(a), bytes_of(b), 0);
    if k < g.len() {
        assert(g.take(k + 1) =~= g.take(k).push(g[k]));
        g.take(k).lemma_flatten_push(g[k]);
        lemma_bytes_concat(a, g[k]);
    } else {
        assert(g.take(k) =~= g);
    }
}

/// Later clusters start no earlier.
proof fn lemma_cluster_mono(text: Seq<char>, j: int, k: int)
    requires
        graphemes_of(text).flatten() == text,
        0 <= j <= k <= graphemes_of(text).len(),
    ensures
        cluster_start(text, j) <= cluster_start(text, k),
    decreases k - j,
{
    if j < k {
        lemma_cluster_start(text, j);
        lemma_cluster_mono(text, j + 1, k);
    }
}

/// The end of the text is a grapheme boundary.
pub(crate) fn end_boundary(text: &str)
    ensures
        grapheme_boundary(text@, bytes_of(text@).len() as int),
{
    let gs = graphemes(text);
    proof {
        let n = graphemes_of(text@).len() as int;
        lemma_cluster_start(text@, n);
    }
}

/// The first grapheme boundary of `text` at or after `at`.
fn snap_forward(text: &str, at: usize) -> (r: usize)
    requires
        at <= bytes_of(text@).len(),
    ensures
        boundary_after(text@, at as int, r as int),
        r <= bytes_of(text@).len(),
        is_char_boundary(bytes_of(text@), r as int),
{
    let gs = graphemes(text);
    let count = gs.len();
    let total = byte_len(text);
    let ghost g = graphemes_of(text@);
    proof {
        lemma_cluster_start(text@, 0);
        lemma_cluster_start(text@, g.len() as int);
        assert(gs@.len() == g.len());
    }
    let mut k: usize = 0;
    let mut sum: usize = 0;
    assert(g.take(0) =~= Seq::<Seq<char>>::empty());
    assert(bytes_of(Seq::<char>::empty()) =~= Seq::<u8>::empty());
    while sum < at
        invariant
            k <= g.len(),
            gs@.len() == g.len(),
            count == g.len(),
            total == bytes_of(text@).len(),
            crate::types::strs_view(gs@) == g,
            g.flatten() == text@,
            at <= bytes_of(text@).len(),
            sum == cluster_start(text@, k as int),
            forall|j: int| 0 <= j < k ==> #[trigger] cluster_start(text@, j) < at,
        decreases g.len() - k,
    {
        proof {
            lemma_cluster_start(text@, k as int);
            assert(k < g.len());
            lemma_cluster_start(text@, k + 1);
            assert(gs@[k as int]@ == g[k as int]);
            assert(sum + bytes_of(g[k as int]).len() <= bytes_of(text@).len());
        }
        let n = byte_len(gs[k].as_str());
        sum = sum + n;
        k = k + 1;
    }
    proof {
        lemma_cluster_start(text@, k as int);
        assert forall|b: int| at <= b < sum implies !#[trigger] grapheme_boundary(text@, b) by {
            if grapheme_boundary(text@, b) {
                let m = choose|m: int| 0 <= m <= g.len() && #[trigger] cluster_start(text@, m) == b;
                if m < k {
                } else {
                    lemma_cluster_mono(text@, k as int, m);
                }
            }
        }
    }
    sum
}

/// The last grapheme boundary of `text` at or before `at`.
fn snap_back(text: &str, at: usize) -> (r: usize)
    requires
        at <= bytes_of(text@).len(),
    ensures
        boundary_before(text@, at as int, r as int),
        is_char_boundary(bytes_of(text@), r as int),
{
    let gs = graphemes(text);
    let count = gs.len();
    let ghost g = graphemes_of(text@);
    proof {
        lemma_cluster_start(text@, 0);
        assert(gs@.len() == g.len());
    }
    let mut k: usize = 0;
    let mut sum: usize = 0;
    assert(g.take(0) =~= Seq::<Seq<char>>::empty());
    assert(bytes_of(Seq::<char>::empty()) =~= Seq::<u8>::empty());
    loop
        invariant
            k <= g.len(),
            gs@.len() == g.len(),
            count == g.len(),
            crate::types::strs_view(gs@) == g,
            g.flatten() == text@,
            at <= bytes_of(text@).len(),
            sum == cluster_start(text@, k as int),
            sum <= at,
        decreases g.len() - k,
    {
        if k == count {
            break;
        }
        proof {
            lemma_cluster_start(text@, k as int);
            lemma_cluster_start(text@, k + 1);
            assert(gs@[k as int]@ == g[k as int]);
        }
        let n = byte_len(gs[k].as_str());
        if n > at - sum {
            break;
        }
        sum = sum + n;
        k = k + 1;
    }
    proof {
        lemma_cluster_start(text@, k as int);
        assert(k < g.len() ==> cluster_start(text@, k + 1) > at);
        assert forall|b: int| sum < b <= at implies !#[trigger] grapheme_boundary(text@, b) by {
            if grapheme_boundary(text@, b) {
                let m = choose|m: int| 0 <= m <= g.len() && #[trigger] cluster_start(text@, m) == b;
                if m <= k {
                    lemma_cluster_mono(text@, m, k as int);
                } else {
                    lemma_cluster_mono(text@, k + 1, m);
                }
            }
        }
    }
    sum
}

/// Calls `UnicodeWidthStr::width`. The width tables are left to the name.
#[verifier::external_body]
fn text_width(text: &str) -> (r: usize)
    ensures
        r == display_width(text@),
{
    UnicodeWidthStr::width(text)
}

/// What an input field shows: the visible part of the text and the column
/// of the cursor in it.
#[derive(Clone, Debug, PartialEq, Eq)]
pub struct InputView {
    pub text: String,
    pub cursor_column: usize,
}

/// A cluster as shown, with its width: a secret input shows one bullet per
/// cluster.
pub open spec fn cell_of(g: Seq<char>, secret: bool) -> (Seq<char>, usize) {
    if secret {
        ("•"@, 1)
    } else {
        (g, display_width(g))
    }
}

/// `a + b`, stopping at `usize::MAX`.
pub open spec fn add_sat(a: usize, b: usize) -> usize {
    if a + b > usize::MAX {
        usize::MAX
    } else {
        (a + b) as usize
    }
}

/// The width of the first `n` cells, added up stopping at `usize::MAX`.
pub open spec fn widths_upto(gs: Seq<Seq<char>>, secret: bool, n: int) -> usize
    decreases n,
{
    if n <= 0 {
        0
    } else {
        add_sat(widths_upto(gs, secret, n - 1), cell_of(gs[n - 1], secret).1)
    }
}

/// The first cell shown: the cells before the cursor are dropped from the
/// left only while the cursor would lie past `max_column`.
pub open spec fn scroll_from(gs: Seq<Seq<char>>, secret: bool, cursor_index: int, prefix: usize, max_column: usize, s: int) -> int
    decreases cursor_index - s,
{
    if s >= cursor_index || (if prefix >= widths_upto(gs, secret, s) {
        prefix - widths_upto(gs, secret, s)
    } else {
        0
    }) <= max_column {
        s
    } else {
        scroll_from(gs, secret, cursor_index, prefix, max_column, s + 1)
    }
}

/// Where the shown cells end: cells from `i` are added while they fit in
/// `width` columns together.
pub open spec fn fit_until(gs: Seq<Seq<char>>, secret: bool, i: int, used: usize, width: usize) -> int
    decreases gs.len() - i,
{
    if i >= gs.len() || used + cell_of(gs[i], secret).1 > width {
        i
    } else {
        fit_until(gs, secret, i + 1, (used + cell_of(gs[i], secret).1) as usize, width)
    }
}

/// The texts of cells `from..to`, joined.
pub open spec fn cells_text(gs: Seq<Seq<char>>, secret: bool, from: int, to: int) -> Seq<char>
    decreases to - from,
{
    if to <= from {
        Seq::empty()
    } else {
        cells_text(gs, secret, from, to - 1) + cell_of(gs[to - 1], secret).0
    }
}

/// What an input `width` columns wide shows: the placeholder when empty;
/// otherwise its clusters from `scroll_from`, as many as fit, with the cursor
/// after the clusters before it, at most in the last column.
pub open spec fn view_of(t: TextInput, width: usize, placeholder: Seq<char>, before: Seq<char>) -> (Seq<char>, usize) {
    if t.value@.len() == 0 {
        (placeholder, 0)
    } else {
        let gs = graphemes_of(t.value@);
        let ci = if graphemes_of(before).len() < gs.len() {
            graphemes_of(before).len() as int
        } else {
            gs.len() as int
        };
        let prefix = widths_upto(gs, t.secret, ci);
        let max_column = if width >= 1 {
            (width - 1) as usize
        } else {
            0
        };
        let start = scroll_from(gs, t.secret, ci, prefix, max_column, 0);
        let removed = widths_upto(gs, t.secret, start);
        let end = fit_until(gs, t.secret, start, 0, width);
        let column = if prefix >= removed {
            (prefix - removed) as usize
        } else {
            0
        };
        (cells_text(gs, t.secret, start, end), if column < max_column {
            column
        } else {
            max_column
        })
    }
}

fn minus(a: usize, b: usize) -> (r: usize)
    ensures
        r == (if a >= b {
            a - b
        } else {
            0
        }),
{
    if a >= b {
        a - b
    } else {
        0
    }
}

/// How an input `width` columns wide shows; `placeholder` stands for empty
/// text.
pub fn input_view(input: &TextInput, width: usize, placeholder: &str) -> (r: InputView)
    requires
        input.wf(),
    ensures
        (r.text@, r.cursor_column) == view_of(*input, width, placeholder@, input.before_cursor()),
{
    if input.value.as_str().is_empty() {
        return InputView { text: placeholder.to_owned(), cursor_column: 0 };
    }
    let (before, _) = input.split();
    let gs = graphemes(input.value.as_str());
    let ghost gv = graphemes_of(input.value@);
    let ghost secret = input.secret;
    let before_count = graphemes(before).len();
    let ci = if before_count < gs.len() {
        before_count
    } else {
        gs.len()
    };
    let mut widths: Vec<usize> = Vec::new();
    let mut k: usize = 0;
    while k < gs.len()
        invariant
            k <= gs.len(),
            crate::types::strs_view(gs@) == gv,
            secret == input.secret,
            widths@.len() == k,
            forall|j: int| 0 <= j < k ==> #[trigger] widths@[j] == cell_of(gv[j], secret).1,
        decreases gs.len() - k,
    {
        let w = if input.secret {
            1
        } else {
            text_width(gs[k].as_str())
        };
        widths.push(w);
        k += 1;
    }
    let mut prefix: usize = 0;
    let mut i: usize = 0;
    while i < ci
        invariant
            i <= ci <= gs.len() == widths@.len(),
            prefix == widths_upto(gv, secret, i as int),
            forall|j: int| 0 <= j < widths@.len() ==> #[trigger] widths@[j] == cell_of(gv[j], secret).1,
        decreases ci - i,
    {
        prefix = if prefix > usize::MAX - widths[i] {
            usize::MAX
        } else {
            prefix + widths[i]
        };
        i += 1;
    }
    let max_column: usize = if width >= 1 {
        width - 1
    } else {
        0
    };
    let mut start: usize = 0;
    let mut removed: usize = 0;
    while start < ci && minus(prefix, removed) > max_column
        invariant
            start <= ci <= gs.len() == widths@.len(),
            removed == widths_upto(gv, secret, start as int),
            scroll_from(gv, secret, ci as int, prefix, max_column, start as int) == scroll_from(
                gv,
                secret,
                ci as int,
                prefix,
                max_column,
                0,
            ),
            forall|j: int| 0 <= j < widths@.len() ==> #[trigger] widths@[j] == cell_of(gv[j], secret).1,
        decreases ci - start,
    {
        removed = if removed > usize::MAX - widths[start] {
            usize::MAX
        } else {
            removed + widths[start]
        };
        start += 1;
    }
    assert(scroll_from(gv, secret, ci as int, prefix, max_column, start as int) == start as int);
    let mut shown = String::new();
    let mut shown_width: usize = 0;
    let mut e: usize = start;
    assert(shown@ =~= cells_text(gv, secret, start as int, start as int));
    while e < gs.len() && !(shown_width > usize::MAX - widths[e] || shown_width + widths[e] > width)
        invariant
            start <= e <= gs.len() == widths@.len(),
            crate::types::strs_view(gs@) == gv,
            shown_width <= width,
            fit_until(gv, secret, e as int, shown_width, width) == fit_until(gv, secret, start as int, 0, width),
            shown@ == cells_text(gv, secret, start as int, e as int),
            forall|j: int| 0 <= j < widths@.len() ==> #[trigger] widths@[j] == cell_of(gv[j], secret).1,
        decreases gs.len() - e,
    {
        assert(gv[e as int] == gs@[e as int]@);
        if input.secret {
            shown.append("•");
        } else {
            shown.append(gs[e].as_str());
        }
        shown_width = shown_width + widths[e];
        e += 1;
    }
    proof {
        if e < gs.len() {
            assert(widths@[e as int] == cell_of(gv[e as int], secret).1);
            assert(shown_width + cell_of(gv[e as int], secret).1 > width);
        }
        assert(fit_until(gv, secret, e as int, shown_width, width) == e as int);
    }
    let column = if prefix >= removed {
        prefix - removed
    } else {
        0
    };
    InputView { text: shown, cursor_column: if column < max_column {
        column
    } else {
        max_column
    } }
}

} // verus!
