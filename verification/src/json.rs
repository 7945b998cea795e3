//! A JSON document model: the snapshot and the request files are JSON, and the
//! logic reads and edits them through these types.
use vstd::prelude::*;

use crate::text::{decimal, signed_decimal, str_eq, u64_to_string, i64_to_string};

verus! {

/// What the snapshot logic reads of a non-integral JSON number: its printed
/// form, its value as a `u32` when it is finite, whole and within `u32`, and
/// its truncation to `u64` when it is finite and positive.
#[derive(Debug, PartialEq)]
pub struct FloatNumber {
    pub text: String,
    pub whole_u32: Option<u32>,
    pub positive_u64: Option<u64>,
}

/// A JSON number as JSON parsers classify it.
#[derive(Debug, PartialEq)]
pub enum JsonNumber {
    PosInt(u64),
    NegInt(i64),
    Float(FloatNumber),
}

/// A JSON object: its members in order.
#[derive(Debug, PartialEq)]
pub struct JsonObject {
    pub entries: Vec<(String, JsonValue)>,
}

/// A JSON value.
#[derive(Debug, PartialEq)]
pub enum JsonValue {
    Null,
    Bool(bool),
    Number(JsonNumber),
    Text(String),
    Array(Vec<JsonValue>),
    Object(JsonObject),
}

/// The mathematical form of a number.
pub enum NumberView {
    PosInt(u64),
    NegInt(i64),
    Float(Seq<char>, Option<u32>, Option<u64>),
}

/// The mathematical form of a JSON value.
pub enum JsonView {
    Null,
    Bool(bool),
    Number(NumberView),
    Text(Seq<char>),
    Array(Seq<JsonView>),
    Object(Seq<(Seq<char>, JsonView)>),
}

/// The members of an object, by value.
pub type Members = Seq<(Seq<char>, JsonView)>;

pub open spec fn number_view(n: JsonNumber) -> NumberView {
    match n {
        JsonNumber::PosInt(v) => NumberView::PosInt(v),
        JsonNumber::NegInt(v) => NumberView::NegInt(v),
        JsonNumber::Float(f) => NumberView::Float(f.text@, f.whole_u32, f.positive_u64),
    }
}

pub open spec fn json_view(v: JsonValue) -> JsonView
    decreases v, 0nat,
{
    match v {
        JsonValue::Null => JsonView::Null,
        JsonValue::Bool(b) => JsonView::Bool(b),
        JsonValue::Number(n) => JsonView::Number(number_view(n)),
        JsonValue::Text(s) => JsonView::Text(s@),
        JsonValue::Array(items) => JsonView::Array(items_view(items@)),
        JsonValue::Object(o) => JsonView::Object(entries_view(o.entries@)),
    }
}

pub open spec fn items_view(s: Seq<JsonValue>) -> Seq<JsonView>
    decreases s, s.len(),
{
    if s.len() == 0 {
        Seq::empty()
    } else {
        items_view(s.drop_last()).push(json_view(s.last()))
    }
}

pub open spec fn entries_view(s: Seq<(String, JsonValue)>) -> Members
    decreases s, s.len(),
{
    if s.len() == 0 {
        Seq::empty()
    } else {
        entries_view(s.drop_last()).push((s.last().0@, json_view(s.last().1)))
    }
}

impl View for JsonValue {
    type V = JsonView;

    open spec fn view(&self) -> JsonView {
        json_view(*self)
    }
}

impl View for JsonObject {
    type V = Members;

    open spec fn view(&self) -> Members {
        entries_view(self.entries@)
    }
}

pub proof fn lemma_items_view(s: Seq<JsonValue>)
    ensures
        items_view(s).len() == s.len(),
        forall|i: int| 0 <= i < s.len() ==> #[trigger] items_view(s)[i] == s[i]@,
    decreases s.len(),
{
    if s.len() > 0 {
        lemma_items_view(s.drop_last());
        assert forall|i: int| 0 <= i < s.len() implies #[trigger] items_view(s)[i] == s[i]@ by {
            if i < s.len() - 1 {
                assert(items_view(s)[i] == items_view(s.drop_last())[i]);
            }
        }
    }
}

pub proof fn lemma_entries_view(s: Seq<(String, JsonValue)>)
    ensures
        entries_view(s).len() == s.len(),
        forall|i: int|
            0 <= i < s.len() ==> #[trigger] entries_view(s)[i] == (s[i].0@, s[i].1@),
    decreases s.len(),
{
    if s.len() > 0 {
        lemma_entries_view(s.drop_last());
        assert forall|i: int| 0 <= i < s.len() implies #[trigger] entries_view(s)[i] == (
            s[i].0@,
            s[i].1@,
        ) by {
            if i < s.len() - 1 {
                assert(entries_view(s)[i] == entries_view(s.drop_last())[i]);
            }
        }
    }
}

pub proof fn lemma_entries_view_push(s: Seq<(String, JsonValue)>, e: (String, JsonValue))
    ensures
        entries_view(s.push(e)) == entries_view(s).push((e.0@, e.1@)),
{
    assert(s.push(e).drop_last() =~= s);
}

pub proof fn lemma_items_view_push(s: Seq<JsonValue>, e: JsonValue)
    ensures
        items_view(s.push(e)) == items_view(s).push(e@),
{
    assert(s.push(e).drop_last() =~= s);
}

impl Clone for FloatNumber {
    fn clone(&self) -> (r: Self)
        ensures
            r == *self,
    {
        FloatNumber { text: self.text.clone(), whole_u32: self.whole_u32, positive_u64: self.positive_u64 }
    }
}

impl Clone for JsonNumber {
    fn clone(&self) -> (r: Self)
        ensures
            r == *self,
    {
        match self {
            JsonNumber::PosInt(n) => JsonNumber::PosInt(*n),
            JsonNumber::NegInt(n) => JsonNumber::NegInt(*n),
            JsonNumber::Float(f) => JsonNumber::Float(f.clone()),
        }
    }
}

fn clone_entries(entries: &Vec<(String, JsonValue)>, Ghost(whole): Ghost<JsonValue>) -> (r: Vec<
    (String, JsonValue),
>)
    requires
        decreases_to!(whole => entries@),
    ensures
        entries_view(r@) == entries_view(entries@),
    decreases whole, 0nat,
{
    let mut out: Vec<(String, JsonValue)> = Vec::new();
    let mut i: usize = 0;
    while i < entries.len()
        invariant
            i <= entries.len(),
            entries_view(out@) == entries_view(entries@.take(i as int)),
        decreases entries.len() - i,
    {
        assert(decreases_to!(whole => entries@[i as int].1));
        let value = clone_value(&entries[i].1);
        let entry = (entries[i].0.clone(), value);
        proof {
            lemma_entries_view_push(out@, entry);
            lemma_entries_view_push(entries@.take(i as int), entries@[i as int]);
            assert(entries@.take(i + 1) =~= entries@.take(i as int).push(entries@[i as int]));
        }
        out.push(entry);
        i += 1;
    }
    assert(entries@.take(i as int) =~= entries@);
    out
}

fn clone_value(v: &JsonValue) -> (r: JsonValue)
    ensures
        r@ == v@,
    decreases *v, 1nat,
{
    match v {
        JsonValue::Null => JsonValue::Null,
        JsonValue::Bool(b) => JsonValue::Bool(*b),
        JsonValue::Number(n) => JsonValue::Number(n.clone()),
        JsonValue::Text(s) => JsonValue::Text(s.clone()),
        JsonValue::Array(items) => {
            let mut out: Vec<JsonValue> = Vec::new();
            let mut i: usize = 0;
            while i < items.len()
                invariant
                    i <= items.len(),
                    items_view(out@) == items_view(items@.take(i as int)),
                decreases items.len() - i,
            {
                assert(decreases_to!(*v => items@[i as int]));
                let value = clone_value(&items[i]);
                proof {
                    lemma_items_view_push(out@, value);
                    lemma_items_view_push(items@.take(i as int), items@[i as int]);
                    assert(items@.take(i + 1) =~= items@.take(i as int).push(items@[i as int]));
                }
                out.push(value);
                i += 1;
            }
            assert(items@.take(i as int) =~= items@);
            JsonValue::Array(out)
        },
        JsonValue::Object(object) => {
            assert(decreases_to!(*v => object.entries@));
            JsonValue::Object(JsonObject { entries: clone_entries(&object.entries, Ghost(*v)) })
        },
    }
}

impl Clone for JsonValue {
    fn clone(&self) -> (r: Self)
        ensures
            r@ == self@,
    {
        clone_value(self)
    }
}

impl Clone for JsonObject {
    fn clone(&self) -> (r: Self)
        ensures
            r@ == self@,
    {
        let mut out: Vec<(String, JsonValue)> = Vec::new();
        let mut i: usize = 0;
        while i < self.entries.len()
            invariant
                i <= self.entries.len(),
                entries_view(out@) == entries_view(self.entries@.take(i as int)),
            decreases self.entries.len() - i,
        {
            let entry = (self.entries[i].0.clone(), self.entries[i].1.clone());
            proof {
                lemma_entries_view_push(out@, entry);
                lemma_entries_view_push(self.entries@.take(i as int), self.entries@[i as int]);
                assert(self.entries@.take(i + 1) =~= self.entries@.take(i as int).push(
                    self.entries@[i as int],
                ));
            }
            out.push(entry);
            i += 1;
        }
        assert(self.entries@.take(i as int) =~= self.entries@);
        JsonObject { entries: out }
    }
}

/// The value stored under `key`: the first member with that key.
pub open spec fn member_get(es: Members, key: Seq<char>) -> Option<JsonView>
    decreases es.len(),
{
    if es.len() == 0 {
        None
    } else if es[0].0 == key {
        Some(es[0].1)
    } else {
        member_get(es.drop_first(), key)
    }
}

/// No member has `key`.
pub open spec fn members_lack(es: Members, key: Seq<char>) -> bool {
    forall|j: int| 0 <= j < es.len() ==> (#[trigger] es[j]).0 != key
}

/// Index of the first member named `key`, or -1.
pub open spec fn member_find(es: Members, key: Seq<char>) -> int
    decreases es.len(),
{
    if es.len() == 0 {
        -1
    } else if es[0].0 == key {
        0
    } else {
        let r = member_find(es.drop_first(), key);
        if r < 0 {
            -1
        } else {
            r + 1
        }
    }
}

/// `Map::insert`: the first member named `key` takes `value`, or a new member
/// is appended.
pub open spec fn member_insert(es: Members, key: Seq<char>, value: JsonView) -> Members {
    let at = member_find(es, key);
    if at < 0 {
        es.push((key, value))
    } else {
        es.update(at, (key, value))
    }
}

/// The member is not named `key`.
pub open spec fn key_differs(key: Seq<char>) -> spec_fn((Seq<char>, JsonView)) -> bool {
    |e: (Seq<char>, JsonView)| e.0 != key
}

/// `Map::remove`: every member named `key` is dropped.
pub open spec fn member_remove(es: Members, key: Seq<char>) -> Members {
    es.filter(key_differs(key))
}

pub proof fn lemma_first(es: Members, key: Seq<char>, i: int)
    requires
        0 <= i < es.len(),
        es[i].0 == key,
        members_lack(es.take(i), key),
    ensures
        member_get(es, key) == Some(es[i].1),
        member_find(es, key) == i,
    decreases es.len(),
{
    if i > 0 {
        assert(es.take(i)[0] == es[0]);
        assert forall|j: int| 0 <= j < i - 1 implies (#[trigger] es.drop_first().take(i - 1)[j]).0
            != key by {
            assert(es.drop_first().take(i - 1)[j] == es.take(i)[j + 1]);
        }
        lemma_first(es.drop_first(), key, i - 1);
    }
}

pub proof fn lemma_absent(es: Members, key: Seq<char>)
    requires
        members_lack(es, key),
    ensures
        member_get(es, key) is None,
        member_find(es, key) == -1,
    decreases es.len(),
{
    if es.len() > 0 {
        assert(es[0].0 != key);
        assert forall|j: int| 0 <= j < es.len() - 1 implies (#[trigger] es.drop_first()[j]).0
            != key by {
            assert(es.drop_first()[j] == es[j + 1]);
        }
        lemma_absent(es.drop_first(), key);
    }
}

pub proof fn lemma_absent_get(es: Members, key: Seq<char>)
    requires
        member_get(es, key) is None,
    ensures
        members_lack(es, key),
    decreases es.len(),
{
    if es.len() > 0 {
        lemma_absent_get(es.drop_first(), key);
        assert forall|j: int| 0 <= j < es.len() implies (#[trigger] es[j]).0 != key by {
            if j > 0 {
                assert(es[j] == es.drop_first()[j - 1]);
            }
        }
    }
}

pub proof fn lemma_find_range(es: Members, key: Seq<char>)
    ensures
        -1 <= member_find(es, key) < es.len(),
        member_find(es, key) >= 0 ==> es[member_find(es, key)].0 == key,
        member_find(es, key) >= 0 <==> member_get(es, key) is Some,
        member_find(es, key) >= 0 ==> member_get(es, key) == Some(es[member_find(es, key)].1),
    decreases es.len(),
{
    if es.len() > 0 {
        lemma_find_range(es.drop_first(), key);
    }
}

/// After an insert, the key reads back the inserted value and other keys are unchanged.
pub proof fn lemma_insert_get(es: Members, key: Seq<char>, value: JsonView, other: Seq<char>)
    ensures
        member_get(member_insert(es, key, value), key) == Some(value),
        other != key ==> member_get(member_insert(es, key, value), other) == member_get(es, other),
    decreases es.len(),
{
    let r = member_insert(es, key, value);
    lemma_find_range(es, key);
    if es.len() > 0 {
        lemma_find_range(es.drop_first(), key);
    }
    if es.len() == 0 {
        assert(r[0] == (key, value));
        assert(r.drop_first() =~= Seq::<(Seq<char>, JsonView)>::empty());
        assert(member_get(r.drop_first(), other) is None);
    } else if es[0].0 == key {
        assert(member_find(es, key) == 0);
        assert(r == es.update(0, (key, value)));
        assert(r[0] == (key, value));
        assert(r.drop_first() =~= es.drop_first());
        assert(other != key ==> member_get(r, other) == member_get(r.drop_first(), other));
    } else {
        lemma_insert_get(es.drop_first(), key, value, other);
        let rest = es.drop_first();
        let f = member_find(rest, key);
        if f < 0 {
            assert(r.drop_first() =~= rest.push((key, value)));
        } else {
            assert(member_find(es, key) == f + 1);
            assert(r == es.update(f + 1, (key, value)));
            assert(r.drop_first() =~= rest.update(f, (key, value)));
        }
        assert(r.drop_first() =~= member_insert(rest, key, value));
        assert(r[0] == es[0]);
    }
}

/// After a remove, the key reads back nothing and the other keys are unchanged.
pub proof fn lemma_remove_get(es: Members, key: Seq<char>, other: Seq<char>)
    ensures
        member_get(member_remove(es, key), key) is None,
        other != key ==> member_get(member_remove(es, key), other) == member_get(es, other),
    decreases es.len(),
{
    let f = key_differs(key);
    if es.len() == 0 {
        assert(member_remove(es, key) =~= Seq::<(Seq<char>, JsonView)>::empty());
    } else {
        lemma_remove_get(es.drop_first(), key, other);
        assert(es =~= seq![es[0]] + es.drop_first());
        es.drop_first().lemma_filter_prepend(es[0], f);
        if es[0].0 == key {
            assert(member_remove(es, key) =~= member_remove(es.drop_first(), key));
        } else {
            let r = member_remove(es, key);
            assert(r =~= seq![es[0]] + member_remove(es.drop_first(), key));
            assert(r[0] == es[0]);
            assert(r.drop_first() =~= member_remove(es.drop_first(), key));
        }
    }
}

impl JsonObject {
    pub open spec fn get_spec(self, key: Seq<char>) -> Option<JsonView> {
        member_get(self@, key)
    }

    pub fn new() -> (r: JsonObject)
        ensures
            r@ == Seq::<(Seq<char>, JsonView)>::empty(),
    {
        JsonObject { entries: Vec::new() }
    }

    pub fn len(&self) -> (r: usize)
        ensures
            r == self@.len(),
    {
        proof {
            lemma_entries_view(self.entries@);
        }
        self.entries.len()
    }

    /// Index of the first member named `key`.
    pub fn find(&self, key: &str) -> (r: Option<usize>)
        ensures
            r matches Some(i) ==> i < self@.len() && i < self.entries@.len() && self@[i as int].0 == key@ && member_find(
                self@,
                key@,
            ) == i && self.get_spec(key@) == Some(self@[i as int].1) && self.entries@[i as int].1@
                == self@[i as int].1,
            r is None ==> members_lack(self@, key@) && member_find(self@, key@) == -1
                && self.get_spec(key@) is None,
    {
        proof {
            lemma_entries_view(self.entries@);
        }
        let mut i: usize = 0;
        while i < self.entries.len()
            invariant
                i <= self.entries.len() == self@.len(),
                members_lack(self@.take(i as int), key@),
            decreases self.entries.len() - i,
        {
            if str_eq(self.entries[i].0.as_str(), key) {
                proof {
                    lemma_first(self@, key@, i as int);
                }
                return Some(i);
            }
            assert forall|j: int| 0 <= j < i + 1 implies (#[trigger] self@.take(i + 1)[j]).0
                != key@ by {
                if j < i {
                    assert(self@.take(i + 1)[j] == self@.take(i as int)[j]);
                }
            }
            i += 1;
        }
        assert(self@.take(i as int) =~= self@);
        proof {
            lemma_absent(self@, key@);
        }
        None
    }

    /// `Map::get`.
    pub fn get(&self, key: &str) -> (r: Option<&JsonValue>)
        ensures
            r is None <==> self.get_spec(key@) is None,
            r matches Some(v) ==> self.get_spec(key@) == Some(v@),
    {
        match self.find(key) {
            Some(i) => Some(&self.entries[i].1),
            None => None,
        }
    }

    /// `Map::contains_key`.
    pub fn contains_key(&self, key: &str) -> (r: bool)
        ensures
            r == self.get_spec(key@) is Some,
    {
        self.find(key).is_some()
    }

    /// `Map::insert`.
    pub fn insert(&mut self, key: String, value: JsonValue)
        ensures
            final(self)@ == member_insert(old(self)@, key@, value@),
    {
        proof {
            lemma_entries_view(self.entries@);
        }
        let ghost old_entries = self.entries@;
        match self.find(key.as_str()) {
            Some(i) => {
                self.entries.set(i, (key, value));
                proof {
                    lemma_entries_view(self.entries@);
                    assert(self@ =~= member_insert(entries_view(old_entries), key@, value@));
                }
            },
            None => {
                proof {
                    lemma_entries_view_push(self.entries@, (key, value));
                }
                self.entries.push((key, value));
            },
        }
    }

    /// `Map::remove`.
    pub fn remove(&mut self, key: &str)
        ensures
            final(self)@ == member_remove(old(self)@, key@),
    {
        let ghost f = key_differs(key@);
        let mut old_entries: Vec<(String, JsonValue)> = Vec::new();
        std::mem::swap(&mut old_entries, &mut self.entries);
        proof {
            lemma_entries_view(old_entries@);
        }
        let ghost ov = entries_view(old_entries@);
        let mut kept: Vec<(String, JsonValue)> = Vec::new();
        let mut i: usize = 0;
        while i < old_entries.len()
            invariant
                i <= old_entries.len() == ov.len(),
                ov == entries_view(old_entries@),
                entries_view(kept@) == ov.take(i as int).filter(f),
            decreases old_entries.len() - i,
        {
            proof {
                ov.take(i as int).lemma_filter_push(ov[i as int], f);
                assert(ov.take(i + 1) =~= ov.take(i as int).push(ov[i as int]));
            }
            if !str_eq(old_entries[i].0.as_str(), key) {
                let e = (old_entries[i].0.clone(), old_entries[i].1.clone());
                proof {
                    lemma_entries_view_push(kept@, e);
                }
                kept.push(e);
            }
            i += 1;
        }
        assert(ov.take(i as int) =~= ov);
        self.entries = kept;
    }
}

impl JsonValue {
    pub fn as_object(&self) -> (r: Option<&JsonObject>)
        ensures
            r is None <==> !(self@ is Object),
            r matches Some(o) ==> self@ == JsonView::Object(o@),
    {
        match self {
            JsonValue::Object(o) => Some(o),
            _ => None,
        }
    }

    pub fn as_text(&self) -> (r: Option<&String>)
        ensures
            r is None <==> !(self@ is Text),
            r matches Some(s) ==> self@ == JsonView::Text(s@),
    {
        match self {
            JsonValue::Text(s) => Some(s),
            _ => None,
        }
    }

    pub fn is_null(&self) -> (r: bool)
        ensures
            r == (self@ is Null),
    {
        match self {
            JsonValue::Null => true,
            _ => false,
        }
    }
}

/// `serde_json::Number`'s `Display`.
pub open spec fn number_text(n: NumberView) -> Seq<char> {
    match n {
        NumberView::PosInt(v) => decimal(v as nat),
        NumberView::NegInt(v) => signed_decimal(v as int),
        NumberView::Float(text, _, _) => text,
    }
}

pub fn number_to_string(n: &JsonNumber) -> (s: String)
    ensures
        s@ == number_text(number_view(*n)),
{
    match n {
        JsonNumber::PosInt(v) => u64_to_string(*v),
        JsonNumber::NegInt(v) => i64_to_string(*v),
        JsonNumber::Float(f) => f.text.clone(),
    }
}

} // verus!
