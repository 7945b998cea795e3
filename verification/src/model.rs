//! The profile model: normalising the snapshot that the Lua side writes,
//! filtering and summarising profiles, and turning profiles into editable
//! drafts and drafts back into raw store entries.
use vstd::prelude::*;

use crate::json::{
    items_view, lemma_items_view, number_text, number_to_string, number_view, JsonNumber,
    JsonObject, JsonValue, JsonView, Members, NumberView,
};
use crate::json::{lemma_insert_get, lemma_remove_get, member_get, member_insert, member_remove};
use crate::sftp_data::{sftp_data_from, sftp_data_of};
use crate::text::{
    split_char, split_on, find_char, find_char_in, rfind_char, rfind_char_in, string_from_range, chars_of, concat, contains_seq, decimal, occurs_at, spec_to_lowercase, str_contains, str_eq, to_lowercase,
    trim, trim_string, u64_to_string,
};
use crate::types::{
    opt_str, DraftView, ProfileDraft, profiles_view, strs_view, Profile, ProfileView, SftpProfileData, Snapshot, SnapshotView,
};

verus! {

/// JavaScript's `String(value)` for a JSON value.
pub open spec fn js_text(v: JsonView) -> Seq<char>
    decreases v, 0nat,
{
    match v {
        JsonView::Null => Seq::empty(),
        JsonView::Bool(b) => if b {
            seq!['t', 'r', 'u', 'e']
        } else {
            seq!['f', 'a', 'l', 's', 'e']
        },
        JsonView::Number(n) => number_text(n),
        JsonView::Text(s) => s,
        JsonView::Array(items) => js_join(items),
        JsonView::Object(_) => object_text(),
    }
}

/// The items' texts joined by commas, as `Array.prototype.join` does.
pub open spec fn js_join(items: Seq<JsonView>) -> Seq<char>
    decreases items, items.len(),
{
    if items.len() == 0 {
        Seq::empty()
    } else if items.len() == 1 {
        js_text(items[0])
    } else {
        js_join(items.drop_last()) + seq![','] + js_text(items.last())
    }
}

/// The text JavaScript gives a plain object.
pub open spec fn object_text() -> Seq<char> {
    seq!['[', 'o', 'b', 'j', 'e', 'c', 't', ' ', 'O', 'b', 'j', 'e', 'c', 't', ']']
}

fn literal_string(s: &str) -> (r: String)
    ensures
        r@ == s@,
{
    s.to_owned()
}

/// `js_text` of a value.
pub fn js_string(v: &JsonValue) -> (s: String)
    ensures
        s@ == js_text(v@),
    decreases *v,
{
    match v {
        JsonValue::Null => String::new(),
        JsonValue::Bool(b) => {
            if *b {
                let r = literal_string("true");
                proof {
                    reveal_strlit("true");
                }
                r
            } else {
                let r = literal_string("false");
                proof {
                    reveal_strlit("false");
                }
                r
            }
        },
        JsonValue::Number(n) => number_to_string(n),
        JsonValue::Text(s) => s.clone(),
        JsonValue::Array(items) => {
            proof {
                lemma_items_view(items@);
            }
            let ghost iv = items_view(items@);
            let mut out = String::new();
            let mut i: usize = 0;
            while i < items.len()
                invariant
                    i <= items.len() == iv.len(),
                    iv == items_view(items@),
                    forall|j: int| 0 <= j < items@.len() ==> #[trigger] iv[j] == items@[j]@,
                    out@ == js_join(iv.take(i as int)),
                decreases items.len() - i,
            {
                assert(decreases_to!(*v => items@[i as int]));
                let part = js_string(&items[i]);
                let ghost before = out@;
                if i > 0 {
                    out.push(',');
                }
                out.append(part.as_str());
                proof {
                    let t = iv.take(i + 1);
                    assert(t.drop_last() =~= iv.take(i as int));
                    assert(t.last() == iv[i as int]);
                    if i == 0 {
                        assert(t.len() == 1);
                        assert(js_join(iv.take(0)) == Seq::<char>::empty());
                        assert(out@ =~= js_text(t[0]));
                    } else {
                        assert(out@ =~= before + seq![','] + js_text(t.last()));
                    }
                }
                i += 1;
            }
            assert(iv.take(i as int) =~= iv);
            out
        },
        JsonValue::Object(_) => {
            let r = literal_string("[object Object]");
            proof {
                reveal_strlit("[object Object]");
            }
            r
        },
    }
}

/// `string_value`: the fallback for a missing or null value, else its text.
pub open spec fn string_text(value: Option<JsonView>, fallback: Seq<char>) -> Seq<char> {
    match value {
        None => fallback,
        Some(JsonView::Null) => fallback,
        Some(v) => js_text(v),
    }
}

pub fn string_value(value: Option<&JsonValue>, fallback: &str) -> (s: String)
    ensures
        s@ == string_text(
            match value {
                Some(v) => Some(v@),
                None => None,
            },
            fallback@,
        ),
{
    match value {
        None => fallback.to_owned(),
        Some(JsonValue::Null) => fallback.to_owned(),
        Some(v) => js_string(v),
    }
}

/// The reading that `readings` gives a text: its first entry for the text.
pub open spec fn reading_in(readings: Seq<(Seq<char>, u32)>, s: Seq<char>) -> Option<u32>
    decreases readings.len(),
{
    if readings.len() == 0 {
        None
    } else if readings[0].0 == s {
        Some(readings[0].1)
    } else {
        reading_in(readings.drop_first(), s)
    }
}

/// The view of a table of readings.
pub open spec fn readings_view(v: Seq<(String, u32)>) -> Seq<(Seq<char>, u32)> {
    v.map_values(|e: (String, u32)| (e.0@, e.1))
}

/// The reading of `s` in the table.
pub fn find_reading(readings: &Vec<(String, u32)>, s: &str) -> (r: Option<u32>)
    ensures
        r == reading_in(readings_view(readings@), s@),
{
    let ghost v = readings_view(readings@);
    let mut i: usize = 0;
    assert(v.skip(0) =~= v);
    while i < readings.len()
        invariant
            i <= readings.len(),
            v == readings_view(readings@),
            reading_in(v.skip(i as int), s@) == reading_in(v, s@),
        decreases readings.len() - i,
    {
        assert(v.skip(i as int)[0] == (readings@[i as int].0@, readings@[i as int].1));
        if str_eq(readings[i].0.as_str(), s) {
            return Some(readings[i].1);
        }
        assert(v.skip(i as int).drop_first() =~= v.skip(i + 1));
        i += 1;
    }
    None
}

/// `number_value`: the `u32` a value stands for as a floating-point number,
/// when that is a whole number from zero to `u32::MAX`; else the fallback.
/// A text that is not blank stands for its reading in `readings`, the table
/// of what the document's texts read as under `str::parse::<f64>` (which
/// the program computes, as it is floating-point work).
pub open spec fn number_u32(value: Option<JsonView>, fallback: u32, readings: Seq<(Seq<char>, u32)>) -> u32 {
    match value {
        Some(JsonView::Number(NumberView::PosInt(n))) => if n <= u32::MAX {
            n as u32
        } else {
            fallback
        },
        Some(JsonView::Number(NumberView::NegInt(n))) => if 0 <= n <= u32::MAX {
            n as u32
        } else {
            fallback
        },
        Some(JsonView::Number(NumberView::Float(_, whole, _))) => match whole {
            Some(w) => w,
            None => fallback,
        },
        Some(JsonView::Text(s)) => if trim(s).len() == 0 {
            0
        } else {
            match reading_in(readings, s) {
                Some(w) => w,
                None => fallback,
            }
        },
        Some(JsonView::Bool(b)) => if b {
            1
        } else {
            0
        },
        Some(JsonView::Null) => 0,
        _ => fallback,
    }
}

pub open spec fn opt_view(value: Option<&JsonValue>) -> Option<JsonView> {
    match value {
        Some(v) => Some(v@),
        None => None,
    }
}

/// The `u32` that text stands for: zero when blank, else its reading in
/// the table, else the fallback.
pub fn text_u32(s: &str, fallback: u32, readings: &Vec<(String, u32)>) -> (r: u32)
    ensures
        r == (if trim(s@).len() == 0 {
            0
        } else {
            match reading_in(readings_view(readings@), s@) {
                Some(w) => w,
                None => fallback,
            }
        }),
{
    let t = trim_string(s);
    if t.as_str().is_empty() {
        0
    } else {
        match find_reading(readings, s) {
            Some(w) => w,
            None => fallback,
        }
    }
}

pub fn number_value(value: Option<&JsonValue>, fallback: u32, readings: &Vec<(String, u32)>) -> (r: u32)
    ensures
        r == number_u32(opt_view(value), fallback, readings_view(readings@)),
{
    match value {
        Some(JsonValue::Number(JsonNumber::PosInt(n))) => {
            if *n <= 4294967295 {
                *n as u32
            } else {
                fallback
            }
        },
        Some(JsonValue::Number(JsonNumber::NegInt(n))) => {
            if 0 <= *n && *n <= 4294967295 {
                *n as u32
            } else {
                fallback
            }
        },
        Some(JsonValue::Number(JsonNumber::Float(f))) => match f.whole_u32 {
            Some(w) => w,
            None => fallback,
        },
        Some(JsonValue::Text(s)) => text_u32(s.as_str(), fallback, readings),
        Some(JsonValue::Bool(b)) => if *b {
            1
        } else {
            0
        },
        Some(JsonValue::Null) => 0,
        _ => fallback,
    }
}

/// The values an array or object holds, in order; nothing for other values.
pub open spec fn values_of(value: Option<JsonView>) -> Seq<JsonView> {
    match value {
        Some(JsonView::Array(items)) => items,
        Some(JsonView::Object(members)) => members.map_values(|e: (Seq<char>, JsonView)| e.1),
        _ => Seq::empty(),
    }
}

pub fn object_values<'a>(value: Option<&'a JsonValue>) -> (r: Vec<&'a JsonValue>)
    ensures
        r@.len() == values_of(opt_view(value)).len(),
        forall|i: int| 0 <= i < r@.len() ==> (#[trigger] r@[i])@ == values_of(opt_view(value))[i],
{
    let mut out: Vec<&'a JsonValue> = Vec::new();
    match value {
        Some(JsonValue::Array(items)) => {
            proof {
                lemma_items_view(items@);
            }
            let mut i: usize = 0;
            while i < items.len()
                invariant
                    i <= items.len(),
                    value == Some(&JsonValue::Array(*items)),
                    out@.len() == i,
                    forall|j: int| 0 <= j < i ==> (#[trigger] out@[j])@ == items@[j]@,
                decreases items.len() - i,
            {
                out.push(&items[i]);
                i += 1;
            }
        },
        Some(JsonValue::Object(o)) => {
            proof {
                crate::json::lemma_entries_view(o.entries@);
            }
            let mut i: usize = 0;
            while i < o.entries.len()
                invariant
                    i <= o.entries.len(),
                    value == Some(&JsonValue::Object(*o)),
                    out@.len() == i,
                    forall|j: int| 0 <= j < i ==> (#[trigger] out@[j])@ == o.entries@[j].1@,
                decreases o.entries.len() - i,
            {
                out.push(&o.entries[i].1);
                i += 1;
            }
        },
        _ => {},
    }
    out
}

/// The members of an object value; no members for any other value.
pub open spec fn members_or_empty(v: JsonView) -> Members {
    match v {
        JsonView::Object(m) => m,
        _ => Seq::empty(),
    }
}

fn object_or_empty(v: &JsonValue) -> (r: JsonObject)
    ensures
        r@ == members_or_empty(v@),
{
    match v {
        JsonValue::Object(m) => m.clone(),
        _ => JsonObject::new(),
    }
}

/// The profile that one object of the snapshot's `profiles` stands for.
pub open spec fn profile_of(item: Members, readings: Seq<(Seq<char>, u32)>) -> ProfileView {
    let id = string_text(member_get(item, "id"@), Seq::empty());
    ProfileView {
        id,
        name: string_text(
            member_get(item, "name"@),
            if id.len() == 0 {
                "?"@
            } else {
                id
            },
        ),
        group: string_text(member_get(item, "group"@), Seq::empty()),
        editable: member_get(item, "editable"@) != Some(JsonView::Bool(false)),
        source: string_text(member_get(item, "source"@), "store"@),
        host: string_text(member_get(item, "host"@), Seq::empty()),
        user: string_text(member_get(item, "user"@), Seq::empty()),
        port: number_u32(member_get(item, "port"@), 22, readings),
        auth: string_text(member_get(item, "auth"@), Seq::empty()),
        has_password: member_get(item, "has_password"@) == Some(JsonView::Bool(true))
            || member_get(item, "hasPassword"@) == Some(JsonView::Bool(true)),
        jump_host: string_text(member_get(item, "jumpHost"@), Seq::empty()),
        icon: string_text(member_get(item, "icon"@), Seq::empty()),
        color: string_text(member_get(item, "color"@), Seq::empty()),
        raw: match member_get(item, "raw"@) {
            Some(v) => Some(members_or_empty(v)),
            None => None,
        },
        sftp: match member_get(item, "sftp"@) {
            Some(v) => Some(sftp_data_of(members_or_empty(v))),
            None => None,
        },
    }
}

fn is_bool(v: Option<&JsonValue>, b: bool) -> (r: bool)
    ensures
        r == (opt_view(v) == Some(JsonView::Bool(b))),
{
    match v {
        Some(JsonValue::Bool(x)) => *x == b,
        _ => false,
    }
}

pub fn profile_from(item: &JsonObject, readings: &Vec<(String, u32)>) -> (p: Profile)
    ensures
        p@ == profile_of(item@, readings_view(readings@)),
{
    proof {
        reveal_strlit("");
        assert(""@ =~= Seq::<char>::empty());
    }
    let id = string_value(item.get("id"), "");
    let name = if id.as_str().is_empty() {
        string_value(item.get("name"), "?")
    } else {
        string_value(item.get("name"), id.as_str())
    };
    Profile {
        id,
        name,
        group: string_value(item.get("group"), ""),
        editable: !is_bool(item.get("editable"), false),
        source: string_value(item.get("source"), "store"),
        host: string_value(item.get("host"), ""),
        user: string_value(item.get("user"), ""),
        port: number_value(item.get("port"), 22, readings),
        auth: string_value(item.get("auth"), ""),
        has_password: is_bool(item.get("has_password"), true) || is_bool(
            item.get("hasPassword"),
            true,
        ),
        jump_host: string_value(item.get("jumpHost"), ""),
        icon: string_value(item.get("icon"), ""),
        color: string_value(item.get("color"), ""),
        raw: match item.get("raw") {
            Some(v) => Some(object_or_empty(v)),
            None => None,
        },
        sftp: match item.get("sftp") {
            Some(v) => Some(sftp_data_from(&object_or_empty(v))),
            None => None,
        },
    }
}

/// The profiles of the values: one for each object, in order.
pub open spec fn profiles_of(vals: Seq<JsonView>, readings: Seq<(Seq<char>, u32)>) -> Seq<ProfileView>
    decreases vals.len(),
{
    if vals.len() == 0 {
        Seq::empty()
    } else {
        let r = profiles_of(vals.drop_last(), readings);
        match vals.last() {
            JsonView::Object(m) => r.push(profile_of(m, readings)),
            _ => r,
        }
    }
}

/// The group names that the snapshot lists: the non-empty texts, in order.
pub open spec fn listed_groups(vals: Seq<JsonView>) -> Seq<Seq<char>>
    decreases vals.len(),
{
    if vals.len() == 0 {
        Seq::empty()
    } else {
        let r = listed_groups(vals.drop_last());
        let g = string_text(Some(vals.last()), Seq::empty());
        if g.len() > 0 {
            r.push(g)
        } else {
            r
        }
    }
}

/// The groups with each profile's non-empty group appended that is not yet there.
pub open spec fn add_groups(groups: Seq<Seq<char>>, profiles: Seq<ProfileView>) -> Seq<Seq<char>>
    decreases profiles.len(),
{
    if profiles.len() == 0 {
        groups
    } else {
        let g = add_groups(groups, profiles.drop_last());
        let pg = profiles.last().group;
        if pg.len() > 0 && !g.contains(pg) {
            g.push(pg)
        } else {
            g
        }
    }
}

/// The first of two keys that is present.
pub open spec fn either_key(es: Members, a: Seq<char>, b: Seq<char>) -> Option<JsonView> {
    if member_get(es, a) is Some {
        member_get(es, a)
    } else {
        member_get(es, b)
    }
}

/// The snapshot that a JSON document stands for.
pub open spec fn snapshot_of(v: JsonView, readings: Seq<(Seq<char>, u32)>) -> SnapshotView {
    match v {
        JsonView::Object(es) => {
            let profiles = profiles_of(values_of(member_get(es, "profiles"@)), readings);
            SnapshotView {
                store_path: string_text(
                    either_key(es, "store_path"@, "storePath"@),
                    Seq::empty(),
                ),
                default_where: string_text(
                    either_key(es, "default_where"@, "defaultWhere"@),
                    "tab"@,
                ),
                groups: add_groups(listed_groups(values_of(member_get(es, "groups"@))), profiles),
                profiles,
            }
        },
        _ => SnapshotView {
            store_path: Seq::empty(),
            default_where: "tab"@,
            groups: Seq::empty(),
            profiles: Seq::empty(),
        },
    }
}

/// `strings` holds `s`.
pub fn contains_string(strings: &Vec<String>, s: &str) -> (r: bool)
    ensures
        r == strs_view(strings@).contains(s@),
{
    let mut i: usize = 0;
    while i < strings.len()
        invariant
            i <= strings.len(),
            forall|j: int| 0 <= j < i ==> strings@[j]@ != s@,
        decreases strings.len() - i,
    {
        if str_eq(strings[i].as_str(), s) {
            assert(strs_view(strings@)[i as int] == s@);
            return true;
        }
        i += 1;
    }
    proof {
        if strs_view(strings@).contains(s@) {
            let k = choose|k: int| 0 <= k < strs_view(strings@).len() && strs_view(strings@)[k]
                == s@;
            assert(strings@[k]@ == s@);
        }
    }
    false
}

/// Appends each profile's group that is not listed yet.
fn append_profile_groups(groups: &mut Vec<String>, profiles: &Vec<Profile>)
    ensures
        strs_view(final(groups)@) == add_groups(strs_view(old(groups)@), profiles_view(
            profiles@,
        )),
{
    let ghost start = strs_view(groups@);
    let mut i: usize = 0;
    while i < profiles.len()
        invariant
            i <= profiles.len(),
            strs_view(groups@) == add_groups(start, profiles_view(profiles@.take(i as int))),
        decreases profiles.len() - i,
    {
        let ghost pv = profiles_view(profiles@.take(i + 1));
        assert(pv.drop_last() =~= profiles_view(profiles@.take(i as int)));
        assert(pv.last() == profiles@[i as int]@);
        let g = &profiles[i].group;
        if !g.as_str().is_empty() && !contains_string(groups, g.as_str()) {
            let ghost prev = groups@;
            groups.push(g.clone());
            assert(strs_view(groups@) =~= strs_view(prev).push(g@));
        }
        i += 1;
    }
    assert(profiles@.take(i as int) =~= profiles@);
}

/// The value of the first of two keys that is present.
fn either<'a>(o: &'a JsonObject, a: &str, b: &str) -> (r: Option<&'a JsonValue>)
    ensures
        opt_view(r) == either_key(o@, a@, b@),
{
    match o.get(a) {
        Some(v) => Some(v),
        None => o.get(b),
    }
}

/// Normalises the snapshot document. `readings` holds what the document's
/// texts read as under `str::parse::<f64>`, when they read as a whole number
/// from zero to `u32::MAX` (the program computes it, as it is floating-point
/// work); a profile's port given as text stands for its reading.
pub fn normalize_snapshot(value: &JsonValue, readings: &Vec<(String, u32)>) -> (r: Snapshot)
    ensures
        r@ == snapshot_of(value@, readings_view(readings@)),
{
    let input = match value {
        JsonValue::Object(o) => o,
        _ => {
            let r = Snapshot {
                store_path: String::new(),
                default_where: literal_string("tab"),
                groups: Vec::new(),
                profiles: Vec::new(),
            };
            assert(strs_view(r.groups@) =~= Seq::<Seq<char>>::empty());
            assert(profiles_view(r.profiles@) =~= Seq::<ProfileView>::empty());
            return r;
        },
    };
    let raw_profiles = object_values(input.get("profiles"));
    let ghost pvals = values_of(member_get(input@, "profiles"@));
    let mut profiles: Vec<Profile> = Vec::new();
    let mut i: usize = 0;
    while i < raw_profiles.len()
        invariant
            i <= raw_profiles.len() == pvals.len(),
            forall|j: int| 0 <= j < raw_profiles@.len() ==> (#[trigger] raw_profiles@[j])@
                == pvals[j],
            profiles_view(profiles@) == profiles_of(pvals.take(i as int), readings_view(readings@)),
        decreases raw_profiles.len() - i,
    {
        let ghost t = pvals.take(i + 1);
        assert(t.drop_last() =~= pvals.take(i as int));
        assert(t.last() == raw_profiles@[i as int]@);
        match raw_profiles[i] {
            JsonValue::Object(item) => {
                let p = profile_from(item, readings);
                let ghost prev = profiles@;
                profiles.push(p);
                assert(profiles_view(profiles@) =~= profiles_view(prev).push(p@));
            },
            _ => {},
        }
        i += 1;
    }
    assert(pvals.take(i as int) =~= pvals);
    proof {
        reveal_strlit("");
        assert(""@ =~= Seq::<char>::empty());
    }
    let raw_groups = object_values(input.get("groups"));
    let ghost gvals = values_of(member_get(input@, "groups"@));
    let mut groups: Vec<String> = Vec::new();
    let mut k: usize = 0;
    while k < raw_groups.len()
        invariant
            k <= raw_groups.len() == gvals.len(),
            forall|j: int| 0 <= j < raw_groups@.len() ==> (#[trigger] raw_groups@[j])@
                == gvals[j],
            strs_view(groups@) == listed_groups(gvals.take(k as int)),
        decreases raw_groups.len() - k,
    {
        let ghost t = gvals.take(k + 1);
        assert(t.drop_last() =~= gvals.take(k as int));
        assert(t.last() == raw_groups@[k as int]@);
        let g = string_value(Some(raw_groups[k]), "");
        if !g.as_str().is_empty() {
            let ghost prev = groups@;
            groups.push(g);
            assert(strs_view(groups@) =~= strs_view(prev).push(g@));
        }
        k += 1;
    }
    assert(gvals.take(k as int) =~= gvals);
    append_profile_groups(&mut groups, &profiles);
    let store_path = string_value(either(input, "store_path", "storePath"), "");
    let default_where = string_value(either(input, "default_where", "defaultWhere"), "tab");
    Snapshot { store_path, default_where, groups, profiles }
}

/// The group id that stands for every group.
pub const ALL_GROUPS: &'static str = "__all__";

/// `user@host:port`, leaving out the user when there is none and the port
/// when it is 0 or 22; `?` stands for a missing host.
pub open spec fn target_text(p: ProfileView) -> Seq<char> {
    (if p.user.len() == 0 {
        Seq::empty()
    } else {
        p.user + seq!['@']
    }) + (if p.host.len() == 0 {
        seq!['?']
    } else {
        p.host
    }) + (if p.port != 0 && p.port != 22 {
        seq![':'] + decimal(p.port as nat)
    } else {
        Seq::empty()
    })
}

pub fn profile_target(profile: &Profile) -> (r: String)
    ensures
        r@ == target_text(profile@),
{
    let mut out = String::new();
    if !profile.user.as_str().is_empty() {
        out.append(profile.user.as_str());
        out.push('@');
    }
    if profile.host.as_str().is_empty() {
        out.push('?');
    } else {
        out.append(profile.host.as_str());
    }
    if profile.port != 0 && profile.port != 22 {
        out.push(':');
        let digits = u64_to_string(profile.port as u64);
        out.append(digits.as_str());
    }
    assert(out@ =~= target_text(profile@));
    out
}

/// The text a query is matched against: the id, name, group, host, user and
/// jump host joined by spaces.
pub open spec fn search_text(p: ProfileView) -> Seq<char> {
    p.id + seq![' '] + p.name + seq![' '] + p.group + seq![' '] + p.host + seq![' '] + p.user
        + seq![' '] + p.jump_host
}

/// A profile matches a query when the trimmed, lower-cased query is empty or
/// occurs in the lower-cased search text.
pub open spec fn matches_query(p: ProfileView, query: Seq<char>) -> bool {
    let needle = spec_to_lowercase(trim(query));
    needle.len() == 0 || contains_seq(spec_to_lowercase(search_text(p)), needle)
}

pub fn profile_matches(profile: &Profile, query: &str) -> (r: bool)
    ensures
        r == matches_query(profile@, query@),
{
    let trimmed = trim_string(query);
    let needle = to_lowercase(trimmed.as_str());
    if needle.as_str().is_empty() {
        return true;
    }
    let mut hay = profile.id.clone();
    hay.push(' ');
    hay.append(profile.name.as_str());
    hay.push(' ');
    hay.append(profile.group.as_str());
    hay.push(' ');
    hay.append(profile.host.as_str());
    hay.push(' ');
    hay.append(profile.user.as_str());
    hay.push(' ');
    hay.append(profile.jump_host.as_str());
    assert(hay@ =~= search_text(profile@));
    let lowered = to_lowercase(hay.as_str());
    str_contains(lowered.as_str(), needle.as_str())
}

/// The profile is in the group (every profile is in `ALL_GROUPS`) and matches.
pub open spec fn shown(p: ProfileView, group: Seq<char>, query: Seq<char>) -> bool {
    (group == ALL_GROUPS@ || p.group == group) && matches_query(p, query)
}

/// The profiles shown for a group and a query, in order.
pub open spec fn visible_of(profiles: Seq<ProfileView>, group: Seq<char>, query: Seq<char>) -> Seq<
    ProfileView,
>
    decreases profiles.len(),
{
    if profiles.len() == 0 {
        Seq::empty()
    } else {
        let r = visible_of(profiles.drop_last(), group, query);
        if shown(profiles.last(), group, query) {
            r.push(profiles.last())
        } else {
            r
        }
    }
}

pub fn visible_profiles<'a>(snapshot: &'a Snapshot, group: &str, query: &str) -> (r: Vec<
    &'a Profile,
>)
    ensures
        r@.len() == visible_of(snapshot@.profiles, group@, query@).len(),
        forall|i: int| 0 <= i < r@.len() ==> (#[trigger] r@[i])@ == visible_of(
            snapshot@.profiles,
            group@,
            query@,
        )[i],
{
    let ghost pv = snapshot@.profiles;
    let mut out: Vec<&'a Profile> = Vec::new();
    let mut i: usize = 0;
    while i < snapshot.profiles.len()
        invariant
            i <= snapshot.profiles.len() == pv.len(),
            pv == profiles_view(snapshot.profiles@),
            out@.len() == visible_of(pv.take(i as int), group@, query@).len(),
            forall|j: int| 0 <= j < out@.len() ==> (#[trigger] out@[j])@ == visible_of(
                pv.take(i as int),
                group@,
                query@,
            )[j],
        decreases snapshot.profiles.len() - i,
    {
        let ghost t = pv.take(i + 1);
        assert(t.drop_last() =~= pv.take(i as int));
        assert(t.last() == snapshot.profiles@[i as int]@);
        let p = &snapshot.profiles[i];
        if (str_eq(group, ALL_GROUPS) || str_eq(p.group.as_str(), group)) && profile_matches(
            p,
            query,
        ) {
            out.push(p);
        }
        i += 1;
    }
    assert(pv.take(i as int) =~= pv);
    out
}

/// One entry of the group list: its id, what is shown, and how many profiles
/// it has.
#[derive(Clone, Debug, PartialEq, Eq)]
pub struct GroupSummary {
    pub id: String,
    pub label: String,
    pub count: usize,
}

pub struct SummaryView {
    pub id: Seq<char>,
    pub label: Seq<char>,
    pub count: nat,
}

impl View for GroupSummary {
    type V = SummaryView;

    open spec fn view(&self) -> SummaryView {
        SummaryView { id: self.id@, label: self.label@, count: self.count as nat }
    }
}

/// How many profiles are in group `g`.
pub open spec fn group_count(profiles: Seq<ProfileView>, g: Seq<char>) -> nat
    decreases profiles.len(),
{
    if profiles.len() == 0 {
        0
    } else {
        group_count(profiles.drop_last(), g) + if profiles.last().group == g {
            1nat
        } else {
            0nat
        }
    }
}

/// The non-empty names, in order.
pub open spec fn nonempty_names(names: Seq<Seq<char>>) -> Seq<Seq<char>>
    decreases names.len(),
{
    if names.len() == 0 {
        Seq::empty()
    } else {
        let r = nonempty_names(names.drop_last());
        if names.last().len() > 0 {
            r.push(names.last())
        } else {
            r
        }
    }
}

/// The label of the entry for every group.
pub open spec fn all_label() -> Seq<char> {
    "全部"@
}

/// The group list: first every group with all profiles, then each listed
/// non-empty group and each profile group not listed, with its count.
pub open spec fn summaries_of(s: SnapshotView) -> Seq<SummaryView> {
    seq![SummaryView { id: ALL_GROUPS@, label: all_label(), count: s.profiles.len() }] + add_groups(
        nonempty_names(s.groups),
        s.profiles,
    ).map_values(|g: Seq<char>| SummaryView { id: g, label: g, count: group_count(s.profiles, g) })
}

fn count_in_group(profiles: &Vec<Profile>, g: &str) -> (r: usize)
    ensures
        r == group_count(profiles_view(profiles@), g@),
{
    let mut n: usize = 0;
    let mut i: usize = 0;
    while i < profiles.len()
        invariant
            i <= profiles.len(),
            n == group_count(profiles_view(profiles@.take(i as int)), g@),
            n <= i,
        decreases profiles.len() - i,
    {
        let ghost t = profiles_view(profiles@.take(i + 1));
        assert(t.drop_last() =~= profiles_view(profiles@.take(i as int)));
        assert(t.last() == profiles@[i as int]@);
        if str_eq(profiles[i].group.as_str(), g) {
            n += 1;
        }
        i += 1;
    }
    assert(profiles@.take(i as int) =~= profiles@);
    n
}

pub fn group_summaries(snapshot: &Snapshot) -> (r: Vec<GroupSummary>)
    ensures
        r@.map_values(|x: GroupSummary| x@) == summaries_of(snapshot@),
{
    let mut groups: Vec<String> = Vec::new();
    let mut k: usize = 0;
    while k < snapshot.groups.len()
        invariant
            k <= snapshot.groups.len(),
            strs_view(groups@) == nonempty_names(strs_view(snapshot.groups@.take(k as int))),
        decreases snapshot.groups.len() - k,
    {
        let ghost t = strs_view(snapshot.groups@.take(k + 1));
        assert(t.drop_last() =~= strs_view(snapshot.groups@.take(k as int)));
        assert(t.last() == snapshot.groups@[k as int]@);
        if !snapshot.groups[k].as_str().is_empty() {
            let ghost prev = groups@;
            groups.push(snapshot.groups[k].clone());
            assert(strs_view(groups@) =~= strs_view(prev).push(snapshot.groups@[k as int]@));
        }
        k += 1;
    }
    assert(snapshot.groups@.take(k as int) =~= snapshot.groups@);
    append_profile_groups(&mut groups, &snapshot.profiles);
    let all = GroupSummary {
        id: literal_string(ALL_GROUPS),
        label: literal_string("全部"),
        count: snapshot.profiles.len(),
    };
    let mut out: Vec<GroupSummary> = Vec::new();
    out.push(all);
    let ghost gs = strs_view(groups@);
    let ghost f = |g: Seq<char>| SummaryView {
        id: g,
        label: g,
        count: group_count(snapshot@.profiles, g),
    };
    let mut i: usize = 0;
    while i < groups.len()
        invariant
            i <= groups.len() == gs.len(),
            gs == strs_view(groups@),
            f == (|g: Seq<char>| SummaryView {
                id: g,
                label: g,
                count: group_count(snapshot@.profiles, g),
            }),
            out@.map_values(|x: GroupSummary| x@) == seq![
                SummaryView { id: ALL_GROUPS@, label: all_label(), count: snapshot@.profiles.len() },
            ] + gs.take(i as int).map_values(f),
        decreases groups.len() - i,
    {
        let count = count_in_group(&snapshot.profiles, groups[i].as_str());
        let entry = GroupSummary { id: groups[i].clone(), label: groups[i].clone(), count };
        let ghost prev = out@;
        out.push(entry);
        proof {
            assert(gs.take(i + 1) =~= gs.take(i as int).push(gs[i as int]));
            assert(gs.take(i + 1).map_values(f) =~= gs.take(i as int).map_values(f).push(
                f(gs[i as int]),
            ));
            assert(out@.map_values(|x: GroupSummary| x@) =~= prev.map_values(
                |x: GroupSummary| x@,
            ).push(entry@));
        }
        i += 1;
    }
    assert(gs.take(i as int) =~= gs);
    out
}

/// What a quick-connect target names: host, optional user, optional port.
#[derive(Clone, Debug, PartialEq, Eq)]
pub struct ParsedTarget {
    pub host: String,
    pub user: Option<String>,
    pub port: Option<u32>,
}

pub struct TargetView {
    pub host: Seq<char>,
    pub user: Option<Seq<char>>,
    pub port: Option<u32>,
}

impl View for ParsedTarget {
    type V = TargetView;

    open spec fn view(&self) -> TargetView {
        TargetView { host: self.host@, user: crate::types::opt_str(self.user), port: self.port }
    }
}

/// The user before the first `@` (none when it is empty) and what follows it.
pub open spec fn split_user(t: Seq<char>) -> (Option<Seq<char>>, Seq<char>) {
    match find_char(t, '@') {
        Some(at) => (
            if at > 0 {
                Some(t.take(at))
            } else {
                None
            },
            t.skip(at + 1),
        ),
        None => (None, t),
    }
}

/// The text after the `:` that may give a target's port: after the
/// bracketed host of an IPv6 target, or after the one colon (not first) of
/// `host:port`; nothing when there is none.
pub open spec fn target_port_text_of(spec: Seq<char>) -> Option<Seq<char>> {
    let (user, rest) = split_user(trim(spec));
    let close = if rest.len() > 0 && rest[0] == '[' {
        find_char(rest, ']')
    } else {
        None
    };
    if close is Some {
        let suffix = rest.skip(close->0 + 1);
        if suffix.len() > 0 && suffix[0] == ':' {
            Some(suffix.skip(1))
        } else {
            None
        }
    } else {
        match rfind_char(rest, ':') {
            Some(colon) => if colon > 0 && find_char(rest, ':') == Some(colon) {
                Some(rest.skip(colon + 1))
            } else {
                None
            },
            None => None,
        }
    }
}

/// A reading that is a positive whole number.
pub open spec fn positive_reading(reading: Option<u32>) -> Option<u32> {
    match reading {
        Some(n) => if n > 0 {
            Some(n)
        } else {
            None
        },
        None => None,
    }
}

/// `[user@]host[:port]` with an IPv6 host in brackets; a `host:port` form
/// takes the port only when the text has one colon, not first, and the port
/// text reads as a positive whole number. `reading` is what the port text
/// (`target_port_text_of`) reads as.
pub open spec fn target_of(spec: Seq<char>, reading: Option<u32>) -> TargetView {
    let (user, rest) = split_user(trim(spec));
    let close = if rest.len() > 0 && rest[0] == '[' {
        find_char(rest, ']')
    } else {
        None
    };
    if close is Some {
        let c = close->0;
        let suffix = rest.skip(c + 1);
        TargetView {
            host: rest.subrange(1, c),
            user,
            port: if suffix.len() > 0 && suffix[0] == ':' {
                positive_reading(reading)
            } else {
                None
            },
        }
    } else {
        match rfind_char(rest, ':') {
            Some(colon) => if colon > 0 && find_char(rest, ':') == Some(colon) && positive_reading(
                reading,
            ) is Some {
                TargetView { host: rest.take(colon), user, port: positive_reading(reading) }
            } else {
                TargetView { host: rest, user, port: None }
            },
            None => TargetView { host: rest, user, port: None },
        }
    }
}

fn positive(reading: Option<u32>) -> (r: Option<u32>)
    ensures
        r == positive_reading(reading),
{
    match reading {
        Some(n) => if n > 0 {
            Some(n)
        } else {
            None
        },
        None => None,
    }
}

/// The text whose reading may give a target's port (see
/// `target_port_text_of`).
pub fn target_port_text(spec: &str) -> (r: Option<String>)
    ensures
        crate::types::opt_str(r) == target_port_text_of(spec@),
{
    let trimmed = trim_string(spec);
    let t = chars_of(trimmed.as_str());
    let mut start: usize = 0;
    match find_char_in(&t, '@') {
        Some(at) => {
            start = at + 1;
        },
        None => {},
    }
    let rest_s = string_from_range(&t, start, t.len());
    let rest = chars_of(rest_s.as_str());
    proof {
        let (u, r) = split_user(t@);
        assert(r =~= rest@);
    }
    if rest.len() > 0 && rest[0] == '[' {
        match find_char_in(&rest, ']') {
            Some(close) => {
                let suffix = string_from_range(&rest, close + 1, rest.len());
                let sc = chars_of(suffix.as_str());
                assert(suffix@ =~= rest@.skip(close + 1));
                if sc.len() > 0 && sc[0] == ':' {
                    let tail = string_from_range(&sc, 1, sc.len());
                    assert(tail@ =~= sc@.skip(1));
                    return Some(tail);
                } else {
                    return None;
                }
            },
            None => {},
        }
    }
    match rfind_char_in(&rest, ':') {
        Some(colon) => {
            if colon > 0 {
                match find_char_in(&rest, ':') {
                    Some(first) => {
                        if first == colon {
                            let tail = string_from_range(&rest, colon + 1, rest.len());
                            assert(tail@ =~= rest@.skip(colon + 1));
                            return Some(tail);
                        }
                    },
                    None => {},
                }
            }
        },
        None => {},
    }
    None
}

/// A target's parts. `reading` is the whole number that the target's port
/// text (`target_port_text`) reads as under `str::parse::<f64>`, if it
/// reads as one; the program computes it, as it is floating-point work.
pub fn parse_target(spec: &str, reading: Option<u32>) -> (r: ParsedTarget)
    ensures
        r@ == target_of(spec@, reading),
{
    let trimmed = trim_string(spec);
    let t = chars_of(trimmed.as_str());
    let mut user: Option<String> = None;
    let mut start: usize = 0;
    match find_char_in(&t, '@') {
        Some(at) => {
            if at > 0 {
                user = Some(string_from_range(&t, 0, at));
            }
            start = at + 1;
        },
        None => {},
    }
    let rest_s = string_from_range(&t, start, t.len());
    let rest = chars_of(rest_s.as_str());
    proof {
        let (u, r) = split_user(t@);
        assert(r =~= rest@);
        assert(crate::types::opt_str(user) == u);
    }
    if rest.len() > 0 && rest[0] == '[' {
        match find_char_in(&rest, ']') {
            Some(close) => {
                let host = string_from_range(&rest, 1, close);
                let suffix = string_from_range(&rest, close + 1, rest.len());
                let sc = chars_of(suffix.as_str());
                let port = if sc.len() > 0 && sc[0] == ':' {
                    positive(reading)
                } else {
                    None
                };
                assert(suffix@ =~= rest@.skip(close + 1));
                return ParsedTarget { host, user, port };
            },
            None => {},
        }
    }
    match rfind_char_in(&rest, ':') {
        Some(colon) => {
            if colon > 0 {
                match find_char_in(&rest, ':') {
                    Some(first) => {
                        if first == colon {
                            match positive(reading) {
                                Some(port) => {
                                    let host = string_from_range(&rest, 0, colon);
                                    assert(host@ =~= rest@.take(colon as int));
                                    return ParsedTarget { host, user, port: Some(port) };
                                },
                                None => {},
                            }
                        }
                    },
                    None => {},
                }
            }
        },
        None => {},
    }
    ParsedTarget { host: rest_s, user, port: None }
}

/// A field of a raw entry: the nested `options` value when it is present and
/// not null, else the flat one.
pub open spec fn option_of(raw: Members, flat: Seq<char>, nested: Seq<char>) -> Option<JsonView> {
    let nv = match member_get(raw, "options"@) {
        Some(JsonView::Object(o)) => member_get(o, nested),
        _ => None,
    };
    if nv is None || nv == Some(JsonView::Null) {
        member_get(raw, flat)
    } else {
        nv
    }
}

fn option_value<'a>(raw: &'a JsonObject, flat: &str, nested: &str) -> (r: Option<&'a JsonValue>)
    ensures
        opt_view(r) == option_of(raw@, flat@, nested@),
{
    let nv = match raw.get("options") {
        Some(JsonValue::Object(o)) => o.get(nested),
        _ => None,
    };
    match nv {
        None => raw.get(flat),
        Some(JsonValue::Null) => raw.get(flat),
        Some(v) => Some(v),
    }
}

/// The edit form for a profile, or for a new one in `initial_group`: the raw
/// entry's values where it has them, else the profile's.
pub open spec fn draft_of(profile: Option<ProfileView>, initial_group: Seq<char>) -> DraftView {
    let raw = match profile {
        Some(p) => match p.raw {
            Some(r) => r,
            None => Seq::empty(),
        },
        None => Seq::empty(),
    };
    let (name, group, host, user, auth, jump, port, id) = match profile {
        Some(p) => (p.name, p.group, p.host, p.user, p.auth, p.jump_host, p.port, Some(p.id)),
        None => (
            Seq::empty(),
            initial_group,
            Seq::empty(),
            Seq::empty(),
            Seq::empty(),
            Seq::empty(),
            22u32,
            None,
        ),
    };
    DraftView {
        original_id: match id {
            Some(i) => if i.len() > 0 {
                Some(i)
            } else {
                None
            },
            None => None,
        },
        name: string_text(member_get(raw, "name"@), name),
        group: string_text(member_get(raw, "group"@), group),
        host: string_text(option_of(raw, "host"@, "host"@), host),
        port: match option_of(raw, "port"@, "port"@) {
            Some(v) => if v is Null {
                decimal(port as nat)
            } else {
                js_text(v)
            },
            None => decimal(port as nat),
        },
        user: string_text(option_of(raw, "user"@, "user"@), user),
        auth: string_text(option_of(raw, "auth"@, "auth"@), auth),
        password: Seq::empty(),
        jump_host: string_text(option_of(raw, "jumpHost"@, "jumpHost"@), jump),
        raw,
    }
}

pub fn draft_from_profile(profile: Option<&Profile>, initial_group: &str) -> (d: ProfileDraft)
    ensures
        d@ == draft_of(
            match profile {
                Some(p) => Some(p@),
                None => None,
            },
            initial_group@,
        ),
{
    proof {
        reveal_strlit("");
        assert(""@ =~= Seq::<char>::empty());
    }
    let raw = match profile {
        Some(p) => match &p.raw {
            Some(r) => r.clone(),
            None => JsonObject::new(),
        },
        None => JsonObject::new(),
    };
    let (name, group, host, user, auth, jump, port): (&str, &str, &str, &str, &str, &str, u32) =
        match profile {
        Some(p) => (
            p.name.as_str(),
            p.group.as_str(),
            p.host.as_str(),
            p.user.as_str(),
            p.auth.as_str(),
            p.jump_host.as_str(),
            p.port,
        ),
        None => ("", initial_group, "", "", "", "", 22),
    };
    let original_id = match profile {
        Some(p) => if p.id.as_str().is_empty() {
            None
        } else {
            Some(p.id.clone())
        },
        None => None,
    };
    let port_text = match option_value(&raw, "port", "port") {
        Some(v) => if v.is_null() {
            u64_to_string(port as u64)
        } else {
            js_string(v)
        },
        None => u64_to_string(port as u64),
    };
    ProfileDraft {
        original_id,
        name: string_value(raw.get("name"), name),
        group: string_value(raw.get("group"), group),
        host: string_value(option_value(&raw, "host", "host"), host),
        port: port_text,
        user: string_value(option_value(&raw, "user", "user"), user),
        auth: string_value(option_value(&raw, "auth", "auth"), auth),
        password: String::new(),
        jump_host: string_value(option_value(&raw, "jumpHost", "jumpHost"), jump),
        raw,
    }
}

/// The draft for a quick-connect target, in `initial_group`.
pub open spec fn draft_of_target(target: Seq<char>, initial_group: Seq<char>, reading: Option<u32>) -> DraftView {
    let t = target_of(target, reading);
    DraftView {
        original_id: None,
        name: t.host,
        group: initial_group,
        host: t.host,
        port: decimal(
            match t.port {
                Some(p) => p,
                None => 22u32,
            } as nat,
        ),
        user: match t.user {
            Some(u) => u,
            None => Seq::empty(),
        },
        auth: Seq::empty(),
        password: Seq::empty(),
        jump_host: Seq::empty(),
        raw: Seq::empty(),
    }
}

/// The draft for a quick-connect target; `reading` is what the target's
/// port text reads as (see `parse_target`).
pub fn draft_from_target(target: &str, initial_group: &str, reading: Option<u32>) -> (d: ProfileDraft)
    ensures
        d@ == draft_of_target(target@, initial_group@, reading),
{
    let parsed = parse_target(target, reading);
    let port = match parsed.port {
        Some(p) => p,
        None => 22,
    };
    ProfileDraft {
        original_id: None,
        name: parsed.host.clone(),
        group: initial_group.to_owned(),
        host: parsed.host,
        port: u64_to_string(port as u64),
        user: match parsed.user {
            Some(u) => u,
            None => String::new(),
        },
        auth: String::new(),
        password: String::new(),
        jump_host: String::new(),
        raw: JsonObject::new(),
    }
}

/// Values that a raw entry does not keep: null and empty text.
pub open spec fn should_drop(v: JsonView) -> bool {
    v is Null || v == JsonView::Text(Seq::empty())
}

pub fn should_remove(v: &JsonValue) -> (r: bool)
    ensures
        r == should_drop(v@),
{
    match v {
        JsonValue::Null => true,
        JsonValue::Text(s) => {
            if s.as_str().is_empty() {
                assert(s@ =~= Seq::<char>::empty());
                true
            } else {
                false
            }
        },
        _ => false,
    }
}

pub open spec fn opt_json(value: Option<JsonValue>) -> Option<JsonView> {
    match value {
        Some(v) => Some(v@),
        None => None,
    }
}

/// Sets the member at a key path: the parents become objects (an empty one
/// where there was none or another value), and the last key takes the value,
/// or is removed for no value, null or empty text.
pub open spec fn set_in(es: Members, keys: Seq<Seq<char>>, value: Option<JsonView>) -> Members
    decreases keys.len(),
{
    if keys.len() == 0 {
        es
    } else if keys.len() == 1 {
        match value {
            Some(v) => if should_drop(v) {
                member_remove(es, keys[0])
            } else {
                member_insert(es, keys[0], v)
            },
            None => member_remove(es, keys[0]),
        }
    } else {
        let child = match member_get(es, keys[0]) {
            Some(JsonView::Object(m)) => m,
            _ => Seq::empty(),
        };
        member_insert(es, keys[0], JsonView::Object(set_in(child, keys.drop_first(), value)))
    }
}

/// `set_in` with the path's dot-separated keys.
pub open spec fn set_path_of(es: Members, path: Seq<char>, value: Option<JsonView>) -> Members {
    set_in(es, split_char(path, '.'), value)
}

fn set_keys(object: &mut JsonObject, keys: &Vec<String>, from: usize, value: Option<JsonValue>)
    requires
        from < keys.len(),
    ensures
        final(object)@ == set_in(
            old(object)@,
            keys@.map_values(|x: String| x@).skip(from as int),
            opt_json(value),
        ),
    decreases keys.len() - from,
{
    let ghost ks = keys@.map_values(|x: String| x@).skip(from as int);
    assert(ks[0] == keys@[from as int]@);
    if from + 1 == keys.len() {
        assert(ks.len() == 1);
        match value {
            None => object.remove(keys[from].as_str()),
            Some(v) => {
                if should_remove(&v) {
                    object.remove(keys[from].as_str());
                } else {
                    object.insert(keys[from].clone(), v);
                }
            },
        }
    } else {
        assert(ks.drop_first() =~= keys@.map_values(|x: String| x@).skip(from + 1));
        let mut child = match object.get(keys[from].as_str()) {
            Some(JsonValue::Object(m)) => m.clone(),
            _ => JsonObject::new(),
        };
        set_keys(&mut child, keys, from + 1, value);
        object.insert(keys[from].clone(), JsonValue::Object(child));
    }
}

/// Sets the member at a dot-separated key path.
pub fn set_path(object: &mut JsonObject, path: &str, value: Option<JsonValue>)
    ensures
        final(object)@ == set_path_of(old(object)@, path@, opt_json(value)),
{
    let keys = split_on(path, '.');
    assert(keys@.map_values(|x: String| x@).skip(0) =~= keys@.map_values(|x: String| x@));
    set_keys(object, &keys, 0, value);
}

/// What saving a draft gives: the raw entry, or an error message.
#[derive(Debug, PartialEq)]
pub struct RawDraftResult {
    pub raw: Option<JsonObject>,
    pub error: Option<String>,
}

pub struct RawResultView {
    pub raw: Option<Members>,
    pub error: Option<Seq<char>>,
}

impl View for RawDraftResult {
    type V = RawResultView;

    open spec fn view(&self) -> RawResultView {
        RawResultView { raw: crate::types::opt_obj(self.raw), error: opt_str(self.error) }
    }
}

impl RawDraftResult {
    fn success(raw: JsonObject) -> (r: Self)
        ensures
            r@ == (RawResultView { raw: Some(raw@), error: None }),
    {
        RawDraftResult { raw: Some(raw), error: None }
    }

    fn error(error: &str) -> (r: Self)
        ensures
            r@ == (RawResultView { raw: None, error: Some(error@) }),
    {
        RawDraftResult { raw: None, error: Some(error.to_owned()) }
    }
}

/// The message for a draft without a host.
pub open spec fn host_error() -> Seq<char> {
    "主机不能为空"@
}

/// The message for a draft whose port is not a whole number from 1 to 65535.
pub open spec fn port_error() -> Seq<char> {
    "端口需要是 1–65535 的整数"@
}

/// The port a draft's port text gives: 22 for blank text, else its
/// `reading` (the whole number the trimmed text reads as), when that is from
/// 1 to 65535.
pub open spec fn draft_port(text: Seq<char>, reading: Option<u32>) -> Option<u32> {
    if trim(text).len() == 0 {
        Some(22)
    } else {
        match reading {
            Some(n) => if 1 <= n <= 65535 {
                Some(n)
            } else {
                None
            },
            None => None,
        }
    }
}

/// The key path of a connection field: under `options` when the entry is nested.
pub open spec fn field_path(nested: bool, name: Seq<char>) -> Seq<char> {
    if nested {
        "options."@ + name
    } else {
        name
    }
}

/// The raw entry a valid draft is saved as: the draft's raw entry with the name
/// (the host when blank), the group and the trimmed connection fields set; the
/// port is left out when it is 22, and the password only written when given.
pub open spec fn saved_raw(d: DraftView, port: u32) -> Members {
    let host = trim(d.host);
    let nested = member_get(d.raw, "options"@) is Some;
    let r1 = set_path_of(
        d.raw,
        "name"@,
        Some(
            JsonView::Text(
                if trim(d.name).len() == 0 {
                    host
                } else {
                    trim(d.name)
                },
            ),
        ),
    );
    let r2 = set_path_of(r1, "group"@, Some(JsonView::Text(trim(d.group))));
    let r3 = set_path_of(r2, field_path(nested, "host"@), Some(JsonView::Text(host)));
    let r4 = set_path_of(
        r3,
        field_path(nested, "port"@),
        if port != 22 {
            Some(JsonView::Number(NumberView::PosInt(port as u64)))
        } else {
            None
        },
    );
    let r5 = set_path_of(r4, field_path(nested, "user"@), Some(JsonView::Text(trim(d.user))));
    let r6 = set_path_of(r5, field_path(nested, "auth"@), Some(JsonView::Text(trim(d.auth))));
    let r7 = if d.password.len() > 0 {
        set_path_of(r6, field_path(nested, "password"@), Some(JsonView::Text(d.password)))
    } else {
        r6
    };
    set_path_of(r7, field_path(nested, "jumpHost"@), Some(JsonView::Text(trim(d.jump_host))))
}

/// Saving a draft: an error for a blank host, then for a bad port, else the raw entry.
pub open spec fn raw_result_of(d: DraftView, reading: Option<u32>) -> RawResultView {
    if trim(d.host).len() == 0 {
        RawResultView { raw: None, error: Some(host_error()) }
    } else if draft_port(d.port, reading) is None {
        RawResultView { raw: None, error: Some(port_error()) }
    } else {
        RawResultView { raw: Some(saved_raw(d, draft_port(d.port, reading)->0)), error: None }
    }
}

fn path_for(nested: bool, name: &str) -> (r: String)
    ensures
        r@ == field_path(nested, name@),
{
    if nested {
        concat("options.", name)
    } else {
        name.to_owned()
    }
}

/// The raw entry a draft saves as, or why it cannot be saved. `reading` is
/// the whole number (from 0 to `u32::MAX`) that the trimmed port text reads
/// as under `str::parse::<f64>`, if it reads as one; the program computes
/// it, as it is floating-point work.
pub fn raw_from_draft(draft: &ProfileDraft, reading: Option<u32>) -> (r: RawDraftResult)
    ensures
        r@ == raw_result_of(draft@, reading),
{
    let host = trim_string(draft.host.as_str());
    if host.as_str().is_empty() {
        return RawDraftResult::error("主机不能为空");
    }
    let port_text = trim_string(draft.port.as_str());
    let port: u32 = if port_text.as_str().is_empty() {
        22
    } else {
        match reading {
            Some(n) => {
                if 1 <= n && n <= 65535 {
                    n
                } else {
                    return RawDraftResult::error("端口需要是 1–65535 的整数");
                }
            },
            None => {
                return RawDraftResult::error("端口需要是 1–65535 的整数");
            },
        }
    };
    assert(draft_port(draft@.port, reading) == Some(port));
    let mut raw = draft.raw.clone();
    let nested = raw.contains_key("options");
    let name = trim_string(draft.name.as_str());
    let shown_name = if name.as_str().is_empty() {
        host.clone()
    } else {
        name
    };
    set_path(&mut raw, "name", Some(JsonValue::Text(shown_name)));
    set_path(&mut raw, "group", Some(JsonValue::Text(trim_string(draft.group.as_str()))));
    let p = path_for(nested, "host");
    set_path(&mut raw, p.as_str(), Some(JsonValue::Text(host)));
    let p = path_for(nested, "port");
    let port_value = if port != 22 {
        Some(JsonValue::Number(JsonNumber::PosInt(port as u64)))
    } else {
        None
    };
    set_path(&mut raw, p.as_str(), port_value);
    let p = path_for(nested, "user");
    set_path(&mut raw, p.as_str(), Some(JsonValue::Text(trim_string(draft.user.as_str()))));
    let p = path_for(nested, "auth");
    set_path(&mut raw, p.as_str(), Some(JsonValue::Text(trim_string(draft.auth.as_str()))));
    if !draft.password.as_str().is_empty() {
        let p = path_for(nested, "password");
        set_path(&mut raw, p.as_str(), Some(JsonValue::Text(draft.password.clone())));
    }
    let p = path_for(nested, "jumpHost");
    set_path(
        &mut raw,
        p.as_str(),
        Some(JsonValue::Text(trim_string(draft.jump_host.as_str()))),
    );
    RawDraftResult::success(raw)
}

/// The value at a key path: each parent must be an object.
pub open spec fn get_in(es: Members, keys: Seq<Seq<char>>) -> Option<JsonView>
    decreases keys.len(),
{
    if keys.len() == 0 {
        None
    } else if keys.len() == 1 {
        member_get(es, keys[0])
    } else {
        match member_get(es, keys[0]) {
            Some(JsonView::Object(m)) => get_in(m, keys.drop_first()),
            _ => None,
        }
    }
}

proof fn lemma_get_in_empty(keys: Seq<Seq<char>>)
    ensures
        get_in(Seq::empty(), keys) is None,
{
}

/// Setting a key path and reading it back gives the value set, or nothing
/// for a value that is not kept.
pub proof fn lemma_set_get_same(es: Members, keys: Seq<Seq<char>>, value: Option<JsonView>)
    requires
        keys.len() >= 1,
    ensures
        get_in(set_in(es, keys, value), keys) == match value {
            Some(v) => if should_drop(v) {
                None
            } else {
                Some(v)
            },
            None => None,
        },
    decreases keys.len(),
{
    if keys.len() == 1 {
        match value {
            Some(v) => {
                lemma_insert_get(es, keys[0], v, keys[0]);
                lemma_remove_get(es, keys[0], keys[0]);
            },
            None => {
                lemma_remove_get(es, keys[0], keys[0]);
            },
        }
    } else {
        let child = match member_get(es, keys[0]) {
            Some(JsonView::Object(m)) => m,
            _ => Seq::empty(),
        };
        let inner = set_in(child, keys.drop_first(), value);
        lemma_insert_get(es, keys[0], JsonView::Object(inner), keys[0]);
        lemma_set_get_same(child, keys.drop_first(), value);
    }
}

/// Setting one key path leaves every path that parts from it unchanged.
pub proof fn lemma_set_get_other(
    es: Members,
    keys: Seq<Seq<char>>,
    other: Seq<Seq<char>>,
    value: Option<JsonView>,
    i: int,
)
    requires
        0 <= i < keys.len(),
        i < other.len(),
        keys[i] != other[i],
        keys.take(i) == other.take(i),
    ensures
        get_in(set_in(es, keys, value), other) == get_in(es, other),
    decreases keys.len(),
{
    let r = set_in(es, keys, value);
    if i == 0 {
        if keys.len() == 1 {
            match value {
                Some(v) => {
                    lemma_insert_get(es, keys[0], v, other[0]);
                    lemma_remove_get(es, keys[0], other[0]);
                },
                None => {
                    lemma_remove_get(es, keys[0], other[0]);
                },
            }
        } else {
            let child = match member_get(es, keys[0]) {
                Some(JsonView::Object(m)) => m,
                _ => Seq::empty(),
            };
            lemma_insert_get(
                es,
                keys[0],
                JsonView::Object(set_in(child, keys.drop_first(), value)),
                other[0],
            );
        }
        assert(member_get(r, other[0]) == member_get(es, other[0]));
    } else {
        assert(keys[0] == keys.take(i)[0]);
        assert(other[0] == other.take(i)[0]);
        let child = match member_get(es, keys[0]) {
            Some(JsonView::Object(m)) => m,
            _ => Seq::empty(),
        };
        let inner = set_in(child, keys.drop_first(), value);
        lemma_insert_get(es, keys[0], JsonView::Object(inner), keys[0]);
        assert(keys.drop_first().take(i - 1) =~= other.drop_first().take(i - 1)) by {
            assert forall|j: int| 0 <= j < i - 1 implies #[trigger] keys.drop_first().take(i - 1)[j]
                == other.drop_first().take(i - 1)[j] by {
                assert(keys.take(i)[j + 1] == other.take(i)[j + 1]);
            }
        }
        lemma_set_get_other(child, keys.drop_first(), other.drop_first(), value, i - 1);
        if !(member_get(es, keys[0]) matches Some(JsonView::Object(_))) {
            lemma_get_in_empty(other.drop_first());
        }
    }
}

/// The keys of a connection field's path.
pub open spec fn field_keys(nested: bool, name: Seq<char>) -> Seq<Seq<char>> {
    if nested {
        seq!["options"@, name]
    } else {
        seq![name]
    }
}

proof fn lemma_field_keys(nested: bool, name: Seq<char>)
    requires
        forall|i: int| 0 <= i < name.len() ==> name[i] != '.',
    ensures
        split_char(field_path(nested, name), '.') == field_keys(nested, name),
{
    reveal_strlit("options.");
    reveal_strlit("options");
    if nested {
        assert(field_path(nested, name) =~= "options"@ + seq!['.'] + name);
        crate::text::lemma_split_one("options"@, name, '.');
    } else {
        crate::text::lemma_split_none(name, '.');
    }
}

/// Reading `other` is not changed by setting a path that parts from it at
/// position `i`.
proof fn lemma_keeps(es: Members, keys: Seq<Seq<char>>, value: Option<JsonView>, other: Seq<Seq<char>>, i: int)
    requires
        0 <= i < keys.len(),
        i < other.len(),
        keys[i] != other[i],
        keys.take(i) =~= other.take(i),
    ensures
        get_in(set_in(es, keys, value), other) == get_in(es, other),
{
    lemma_set_get_other(es, keys, other, value, i);
}

/// Saving a valid draft writes the name (the host for a blank name), the
/// group, the host, and the non-blank user, authentication and jump host
/// where an edit form opened on the saved entry reads them back, and a port
/// other than 22 as its decimal text.
pub proof fn lemma_saved_draft_reads_back(d: DraftView, reading: Option<u32>, p: ProfileView, g: Seq<char>)
    requires
        trim(d.host).len() > 0,
        draft_port(d.port, reading) is Some,
        p.raw == Some(saved_raw(d, draft_port(d.port, reading)->0)),
    ensures
        draft_of(Some(p), g).name == (if trim(d.name).len() == 0 {
            trim(d.host)
        } else {
            trim(d.name)
        }),
        trim(d.group).len() > 0 ==> draft_of(Some(p), g).group == trim(d.group),
        draft_of(Some(p), g).host == trim(d.host),
        draft_port(d.port, reading)->0 != 22 ==> draft_of(Some(p), g).port == decimal(
            draft_port(d.port, reading)->0 as nat,
        ),
        trim(d.user).len() > 0 ==> draft_of(Some(p), g).user == trim(d.user),
        trim(d.auth).len() > 0 ==> draft_of(Some(p), g).auth == trim(d.auth),
        trim(d.jump_host).len() > 0 ==> draft_of(Some(p), g).jump_host == trim(d.jump_host),
{
    reveal_with_fuel(get_in, 3);
    reveal_strlit("name");
    reveal_strlit("group");
    reveal_strlit("host");
    reveal_strlit("port");
    reveal_strlit("user");
    reveal_strlit("auth");
    reveal_strlit("password");
    reveal_strlit("jumpHost");
    reveal_strlit("options");
    assert("name"@[0] != "group"@[0] && "name"@[0] != "options"@[0] && "name"@[0] != "host"@[0]
        && "name"@[0] != "port"@[0] && "name"@[0] != "user"@[0] && "name"@[0] != "auth"@[0]
        && "name"@[0] != "password"@[0] && "name"@[0] != "jumpHost"@[0]);
    assert("group"@[0] != "options"@[0] && "group"@[0] != "host"@[0] && "group"@[0] != "port"@[0]
        && "group"@[0] != "user"@[0] && "group"@[0] != "auth"@[0] && "group"@[0]
        != "password"@[0] && "group"@[0] != "jumpHost"@[0]);
    assert("host"@[0] != "port"@[0] && "host"@[0] != "user"@[0] && "host"@[0] != "auth"@[0]
        && "host"@[0] != "password"@[0] && "host"@[0] != "jumpHost"@[0] && "host"@[0]
        != "options"@[0]);
    assert("port"@[0] != "user"@[0] && "port"@[0] != "auth"@[0] && "port"@.len()
        != "password"@.len() && "port"@[0] != "jumpHost"@[0] && "port"@[0] != "options"@[0]);
    assert("options"@[0] != "user"@[0] && "options"@[0] != "auth"@[0] && "options"@[0]
        != "password"@[0] && "options"@[0] != "jumpHost"@[0]);
    assert("name"@ != "group"@ && "name"@ != "options"@ && "name"@ != "host"@ && "name"@ != "port"@
        && "name"@ != "user"@ && "name"@ != "auth"@ && "name"@ != "password"@ && "name"@
        != "jumpHost"@);
    assert("group"@ != "options"@ && "group"@ != "host"@ && "group"@ != "port"@ && "group"@
        != "user"@ && "group"@ != "auth"@ && "group"@ != "password"@ && "group"@ != "jumpHost"@);
    assert("host"@ != "port"@ && "host"@ != "user"@ && "host"@ != "auth"@ && "host"@
        != "password"@ && "host"@ != "jumpHost"@ && "host"@ != "options"@);
    assert("port"@ != "user"@ && "port"@ != "auth"@ && "port"@ != "password"@ && "port"@
        != "jumpHost"@ && "port"@ != "options"@);
    assert("options"@ != "user"@ && "options"@ != "auth"@ && "options"@ != "password"@
        && "options"@ != "jumpHost"@);
    let port = draft_port(d.port, reading)->0;
    let host = trim(d.host);
    let nested = member_get(d.raw, "options"@) is Some;
    let shown = if trim(d.name).len() == 0 {
        host
    } else {
        trim(d.name)
    };
    crate::text::lemma_split_none("name"@, '.');
    crate::text::lemma_split_none("group"@, '.');
    lemma_field_keys(nested, "host"@);
    lemma_field_keys(nested, "port"@);
    lemma_field_keys(nested, "user"@);
    lemma_field_keys(nested, "auth"@);
    lemma_field_keys(nested, "password"@);
    lemma_field_keys(nested, "jumpHost"@);
    let kn = seq!["name"@];
    let kg = seq!["group"@];
    let kh = field_keys(nested, "host"@);
    let kp = field_keys(nested, "port"@);
    let ku = field_keys(nested, "user"@);
    let ka = field_keys(nested, "auth"@);
    let kw = field_keys(nested, "password"@);
    let kj = field_keys(nested, "jumpHost"@);
    let ko = seq!["options"@];
    let r1 = set_in(d.raw, kn, Some(JsonView::Text(shown)));
    let r2 = set_in(r1, kg, Some(JsonView::Text(trim(d.group))));
    let r3 = set_in(r2, kh, Some(JsonView::Text(host)));
    let pv = if port != 22 {
        Some(JsonView::Number(NumberView::PosInt(port as u64)))
    } else {
        None
    };
    let r4 = set_in(r3, kp, pv);
    let r5 = set_in(r4, ku, Some(JsonView::Text(trim(d.user))));
    let r6 = set_in(r5, ka, Some(JsonView::Text(trim(d.auth))));
    let r7 = if d.password.len() > 0 {
        set_in(r6, kw, Some(JsonView::Text(d.password)))
    } else {
        r6
    };
    let r8 = set_in(r7, kj, Some(JsonView::Text(trim(d.jump_host))));
    assert(saved_raw(d, port) == r8);
    let last: int = if nested {
        1
    } else {
        0
    };
    let first: int = 0;
    // Name and group: every later path starts with another key.
    lemma_set_get_same(d.raw, kn, Some(JsonView::Text(shown)));
    lemma_keeps(r1, kg, Some(JsonView::Text(trim(d.group))), kn, 0);
    lemma_keeps(r2, kh, Some(JsonView::Text(host)), kn, 0);
    lemma_keeps(r3, kp, pv, kn, 0);
    lemma_keeps(r4, ku, Some(JsonView::Text(trim(d.user))), kn, 0);
    lemma_keeps(r5, ka, Some(JsonView::Text(trim(d.auth))), kn, 0);
    if d.password.len() > 0 {
        lemma_keeps(r6, kw, Some(JsonView::Text(d.password)), kn, 0);
    }
    lemma_keeps(r7, kj, Some(JsonView::Text(trim(d.jump_host))), kn, 0);
    lemma_set_get_same(r1, kg, Some(JsonView::Text(trim(d.group))));
    lemma_keeps(r2, kh, Some(JsonView::Text(host)), kg, 0);
    lemma_keeps(r3, kp, pv, kg, 0);
    lemma_keeps(r4, ku, Some(JsonView::Text(trim(d.user))), kg, 0);
    lemma_keeps(r5, ka, Some(JsonView::Text(trim(d.auth))), kg, 0);
    if d.password.len() > 0 {
        lemma_keeps(r6, kw, Some(JsonView::Text(d.password)), kg, 0);
    }
    lemma_keeps(r7, kj, Some(JsonView::Text(trim(d.jump_host))), kg, 0);
    // Host and port: later fields differ in their last key.
    lemma_set_get_same(r2, kh, Some(JsonView::Text(host)));
    lemma_keeps(r3, kp, pv, kh, last);
    lemma_keeps(r4, ku, Some(JsonView::Text(trim(d.user))), kh, last);
    lemma_keeps(r5, ka, Some(JsonView::Text(trim(d.auth))), kh, last);
    if d.password.len() > 0 {
        lemma_keeps(r6, kw, Some(JsonView::Text(d.password)), kh, last);
    }
    lemma_keeps(r7, kj, Some(JsonView::Text(trim(d.jump_host))), kh, last);
    lemma_set_get_same(r3, kp, pv);
    lemma_keeps(r4, ku, Some(JsonView::Text(trim(d.user))), kp, last);
    lemma_keeps(r5, ka, Some(JsonView::Text(trim(d.auth))), kp, last);
    if d.password.len() > 0 {
        lemma_keeps(r6, kw, Some(JsonView::Text(d.password)), kp, last);
    }
    lemma_keeps(r7, kj, Some(JsonView::Text(trim(d.jump_host))), kp, last);
    // User, auth and jump host: each later field differs in its last key.
    assert("user"@[0] != "auth"@[0] && "user"@[0] != "password"@[0] && "user"@[0]
        != "jumpHost"@[0] && "auth"@[0] != "password"@[0] && "auth"@[0] != "jumpHost"@[0]
        && "password"@[0] != "jumpHost"@[0]);
    assert("user"@ != "auth"@ && "user"@ != "password"@ && "user"@ != "jumpHost"@ && "auth"@
        != "password"@ && "auth"@ != "jumpHost"@ && "password"@ != "jumpHost"@);
    lemma_set_get_same(r4, ku, Some(JsonView::Text(trim(d.user))));
    lemma_keeps(r5, ka, Some(JsonView::Text(trim(d.auth))), ku, last);
    if d.password.len() > 0 {
        lemma_keeps(r6, kw, Some(JsonView::Text(d.password)), ku, last);
    }
    lemma_keeps(r7, kj, Some(JsonView::Text(trim(d.jump_host))), ku, last);
    lemma_set_get_same(r5, ka, Some(JsonView::Text(trim(d.auth))));
    if d.password.len() > 0 {
        lemma_keeps(r6, kw, Some(JsonView::Text(d.password)), ka, last);
    }
    lemma_keeps(r7, kj, Some(JsonView::Text(trim(d.jump_host))), ka, last);
    lemma_set_get_same(r7, kj, Some(JsonView::Text(trim(d.jump_host))));
    // Without `options`, no flat field creates it.
    if !nested {
        lemma_keeps(d.raw, kn, Some(JsonView::Text(shown)), ko, 0);
        lemma_keeps(r1, kg, Some(JsonView::Text(trim(d.group))), ko, 0);
        lemma_keeps(r2, kh, Some(JsonView::Text(host)), ko, 0);
        lemma_keeps(r3, kp, pv, ko, 0);
        lemma_keeps(r4, ku, Some(JsonView::Text(trim(d.user))), ko, 0);
        lemma_keeps(r5, ka, Some(JsonView::Text(trim(d.auth))), ko, 0);
        if d.password.len() > 0 {
            lemma_keeps(r6, kw, Some(JsonView::Text(d.password)), ko, 0);
        }
        lemma_keeps(r7, kj, Some(JsonView::Text(trim(d.jump_host))), ko, 0);
        assert(get_in(r8, ko) is None);
    }
    assert(get_in(r8, kn) == Some(JsonView::Text(shown)));
    if trim(d.group).len() > 0 {
        assert(get_in(r8, kg) == Some(JsonView::Text(trim(d.group))));
    }
    assert(get_in(r8, kh) == Some(JsonView::Text(host)));
    if trim(d.user).len() > 0 {
        assert(get_in(r8, ku) == Some(JsonView::Text(trim(d.user))));
    }
    if trim(d.auth).len() > 0 {
        assert(get_in(r8, ka) == Some(JsonView::Text(trim(d.auth))));
    }
    if trim(d.jump_host).len() > 0 {
        assert(get_in(r8, kj) == Some(JsonView::Text(trim(d.jump_host))));
    }
    if nested {
        assert(kh.drop_first() =~= seq!["host"@]);
        assert(kp.drop_first() =~= seq!["port"@]);
        assert(ku.drop_first() =~= seq!["user"@]);
        assert(ka.drop_first() =~= seq!["auth"@]);
        assert(kj.drop_first() =~= seq!["jumpHost"@]);
    }
}

proof fn lemma_add_groups(groups: Seq<Seq<char>>, profiles: Seq<ProfileView>)
    ensures
        add_groups(groups, profiles).len() >= groups.len(),
        add_groups(groups, profiles).take(groups.len() as int) == groups,
        forall|g: Seq<char>| #[trigger] groups.contains(g) ==> add_groups(groups, profiles).contains(g),
        forall|i: int|
            0 <= i < profiles.len() && (#[trigger] profiles[i]).group.len() > 0 ==> add_groups(
                groups,
                profiles,
            ).contains(profiles[i].group),
    decreases profiles.len(),
{
    if profiles.len() > 0 {
        let rest = profiles.drop_last();
        lemma_add_groups(groups, rest);
        let g = add_groups(groups, rest);
        let pg = profiles.last().group;
        let r = add_groups(groups, profiles);
        if pg.len() > 0 && !g.contains(pg) {
            assert(r == g.push(pg));
            assert(r.take(groups.len() as int) =~= g.take(groups.len() as int));
            assert(r[g.len() as int] == pg);
            assert forall|x: Seq<char>| g.contains(x) implies r.contains(x) by {
                let k = choose|k: int| 0 <= k < g.len() && g[k] == x;
                assert(r[k] == x);
            }
        }
        assert forall|i: int| 0 <= i < profiles.len() && (#[trigger] profiles[i]).group.len()
            > 0 implies r.contains(profiles[i].group) by {
            if i < rest.len() {
                assert(rest[i] == profiles[i]);
                assert(g.contains(rest[i].group));
            } else {
                assert(profiles[i] == profiles.last());
            }
        }
    } else {
        assert(groups.take(groups.len() as int) =~= groups);
    }
}

/// The normalised groups are the groups the snapshot lists, in their order,
/// followed by every other non-empty profile group: each profile's group is
/// among them.
pub proof fn lemma_groups_cover_profiles(v: JsonView, readings: Seq<(Seq<char>, u32)>)
    ensures
        ({
            let s = snapshot_of(v, readings);
            forall|i: int|
                0 <= i < s.profiles.len() && (#[trigger] s.profiles[i]).group.len() > 0
                    ==> s.groups.contains(s.profiles[i].group)
        }),
        ({
            let s = snapshot_of(v, readings);
            match v {
                JsonView::Object(es) => {
                    let listed = listed_groups(values_of(member_get(es, "groups"@)));
                    s.groups.take(listed.len() as int) == listed
                },
                _ => s.groups.len() == 0,
            }
        }),
{
    match v {
        JsonView::Object(es) => {
            let profiles = profiles_of(values_of(member_get(es, "profiles"@)), readings);
            let listed = listed_groups(values_of(member_get(es, "groups"@)));
            lemma_add_groups(listed, profiles);
        },
        _ => {},
    }
}

/// Setting a path whose first key is not `k` leaves member `k` as it was.
proof fn lemma_set_path_keeps(es: Members, path: Seq<char>, value: Option<JsonView>, k: Seq<char>)
    requires
        split_char(path, '.')[0] != k,
    ensures
        member_get(set_path_of(es, path, value), k) == member_get(es, k),
{
    let keys = split_char(path, '.');
    crate::text::lemma_split_char_len(path, '.');
    assert(keys.take(0) =~= seq![k].take(0));
    lemma_set_get_other(es, keys, seq![k], value, 0);
}

/// The first key of a connection field's path: `options` when nested, else
/// the field's name.
proof fn lemma_field_first_key(nested: bool, name: Seq<char>)
    requires
        name.len() > 0,
        forall|i: int| 0 <= i < name.len() ==> name[i] != '.',
    ensures
        split_char(field_path(nested, name), '.')[0] == if nested {
            "options"@
        } else {
            name
        },
{
    reveal_strlit("options.");
    reveal_strlit("options");
    if nested {
        assert("options."@ + name =~= "options"@ + seq!['.'] + name);
        assert forall|i: int| 0 <= i < "options"@.len() implies "options"@[i] != '.' by {}
        crate::text::lemma_split_one("options"@, name, '.');
    } else {
        crate::text::lemma_split_none(name, '.');
    }
}

/// Saving a valid draft keeps every member of its raw entry but the name,
/// the group, `options` and the connection fields.
pub proof fn lemma_saved_raw_keeps_others(d: DraftView, port: u32, k: Seq<char>)
    requires
        k != "name"@,
        k != "group"@,
        k != "options"@,
        k != "host"@,
        k != "port"@,
        k != "user"@,
        k != "auth"@,
        k != "password"@,
        k != "jumpHost"@,
    ensures
        member_get(saved_raw(d, port), k) == member_get(d.raw, k),
{
    reveal_strlit("name");
    reveal_strlit("group");
    reveal_strlit("host");
    reveal_strlit("port");
    reveal_strlit("user");
    reveal_strlit("auth");
    reveal_strlit("password");
    reveal_strlit("jumpHost");
    let nested = member_get(d.raw, "options"@) is Some;
    assert forall|i: int| 0 <= i < "name"@.len() implies "name"@[i] != '.' by {}
    assert forall|i: int| 0 <= i < "group"@.len() implies "group"@[i] != '.' by {}
    assert forall|i: int| 0 <= i < "host"@.len() implies "host"@[i] != '.' by {}
    assert forall|i: int| 0 <= i < "port"@.len() implies "port"@[i] != '.' by {}
    assert forall|i: int| 0 <= i < "user"@.len() implies "user"@[i] != '.' by {}
    assert forall|i: int| 0 <= i < "auth"@.len() implies "auth"@[i] != '.' by {}
    assert forall|i: int| 0 <= i < "password"@.len() implies "password"@[i] != '.' by {}
    assert forall|i: int| 0 <= i < "jumpHost"@.len() implies "jumpHost"@[i] != '.' by {}
    crate::text::lemma_split_none("name"@, '.');
    crate::text::lemma_split_none("group"@, '.');
    lemma_field_first_key(nested, "host"@);
    lemma_field_first_key(nested, "port"@);
    lemma_field_first_key(nested, "user"@);
    lemma_field_first_key(nested, "auth"@);
    lemma_field_first_key(nested, "password"@);
    lemma_field_first_key(nested, "jumpHost"@);
    let host = trim(d.host);
    let r1 = set_path_of(
        d.raw,
        "name"@,
        Some(
            JsonView::Text(
                if trim(d.name).len() == 0 {
                    host
                } else {
                    trim(d.name)
                },
            ),
        ),
    );
    lemma_set_path_keeps(
        d.raw,
        "name"@,
        Some(
            JsonView::Text(
                if trim(d.name).len() == 0 {
                    host
                } else {
                    trim(d.name)
                },
            ),
        ),
        k,
    );
    let r2 = set_path_of(r1, "group"@, Some(JsonView::Text(trim(d.group))));
    lemma_set_path_keeps(r1, "group"@, Some(JsonView::Text(trim(d.group))), k);
    let r3 = set_path_of(r2, field_path(nested, "host"@), Some(JsonView::Text(host)));
    lemma_set_path_keeps(r2, field_path(nested, "host"@), Some(JsonView::Text(host)), k);
    let pv = if port != 22 {
        Some(JsonView::Number(NumberView::PosInt(port as u64)))
    } else {
        None
    };
    let r4 = set_path_of(r3, field_path(nested, "port"@), pv);
    lemma_set_path_keeps(r3, field_path(nested, "port"@), pv, k);
    let r5 = set_path_of(r4, field_path(nested, "user"@), Some(JsonView::Text(trim(d.user))));
    lemma_set_path_keeps(r4, field_path(nested, "user"@), Some(JsonView::Text(trim(d.user))), k);
    let r6 = set_path_of(r5, field_path(nested, "auth"@), Some(JsonView::Text(trim(d.auth))));
    lemma_set_path_keeps(r5, field_path(nested, "auth"@), Some(JsonView::Text(trim(d.auth))), k);
    let r7 = if d.password.len() > 0 {
        set_path_of(r6, field_path(nested, "password"@), Some(JsonView::Text(d.password)))
    } else {
        r6
    };
    lemma_set_path_keeps(r6, field_path(nested, "password"@), Some(JsonView::Text(d.password)), k);
    lemma_set_path_keeps(r7, field_path(nested, "jumpHost"@), Some(JsonView::Text(trim(d.jump_host))), k);
}

/// The index of the first profile in group `g`; the number of profiles when
/// none is.
pub open spec fn first_with(profiles: Seq<ProfileView>, g: Seq<char>) -> int
    decreases profiles.len(),
{
    if profiles.len() == 0 {
        0
    } else {
        let f = first_with(profiles.drop_last(), g);
        if f < profiles.len() - 1 {
            f
        } else if profiles.last().group == g {
            profiles.len() - 1
        } else {
            profiles.len() as int
        }
    }
}

proof fn lemma_first_with(profiles: Seq<ProfileView>, g: Seq<char>)
    ensures
        0 <= first_with(profiles, g) <= profiles.len(),
        first_with(profiles, g) < profiles.len() ==> profiles[first_with(profiles, g)].group == g,
        forall|i: int| 0 <= i < first_with(profiles, g) ==> (#[trigger] profiles[i]).group != g,
    decreases profiles.len(),
{
    if profiles.len() > 0 {
        let d = profiles.drop_last();
        lemma_first_with(d, g);
        assert forall|i: int| 0 <= i < first_with(profiles, g) implies (#[trigger] profiles[i]).group != g by {
            if i < d.len() {
                assert(d[i] == profiles[i]);
            }
        }
        if first_with(d, g) < d.len() {
            assert(d[first_with(d, g)] == profiles[first_with(d, g)]);
        }
    }
}

/// The groups added after the listed ones: each is the non-empty group of
/// some profile and not listed, they come in the order of their first
/// profiles (so none twice), and together with the listed ones they hold
/// every profile's non-empty group.
proof fn lemma_added_groups(listed: Seq<Seq<char>>, profiles: Seq<ProfileView>)
    ensures
        ({
            let g = add_groups(listed, profiles);
            let added = g.skip(listed.len() as int);
            &&& g == listed + added
            &&& forall|k: int|
                0 <= k < added.len() ==> (#[trigger] added[k]).len() > 0 && !listed.contains(added[k])
                    && first_with(profiles, added[k]) < profiles.len()
            &&& forall|i: int, j: int|
                0 <= i < j < added.len() ==> first_with(profiles, #[trigger] added[i]) < first_with(
                    profiles,
                    #[trigger] added[j],
                )
        }),
    decreases profiles.len(),
{
    lemma_add_groups(listed, profiles);
    let g = add_groups(listed, profiles);
    let added = g.skip(listed.len() as int);
    assert(g =~= g.take(listed.len() as int) + added);
    if profiles.len() > 0 {
        let rest = profiles.drop_last();
        lemma_added_groups(listed, rest);
        lemma_add_groups(listed, rest);
        let g0 = add_groups(listed, rest);
        let a0 = g0.skip(listed.len() as int);
        let pg = profiles.last().group;
        assert forall|x: Seq<char>| first_with(rest, x) < rest.len() implies first_with(profiles, x)
            == first_with(rest, x) by {}
        if pg.len() > 0 && !g0.contains(pg) {
            assert(added =~= a0.push(pg));
            lemma_first_with(rest, pg);
            if first_with(rest, pg) < rest.len() {
                let f = first_with(rest, pg);
                assert(rest[f] == profiles[f]);
                assert(g0.contains(profiles[f].group));
            }
            assert(first_with(profiles, pg) == rest.len());
            assert forall|k: int| 0 <= k < added.len() implies (#[trigger] added[k]).len() > 0
                && !listed.contains(added[k]) && first_with(profiles, added[k]) < profiles.len() by {
                if k < a0.len() {
                    assert(added[k] == a0[k]);
                } else {
                    assert(added[k] == pg);
                    if listed.contains(pg) {
                        let m = choose|m: int| 0 <= m < listed.len() && listed[m] == pg;
                        assert(g0[m] == pg);
                    }
                }
            }
            assert forall|i: int, j: int| 0 <= i < j < added.len() implies first_with(
                profiles,
                #[trigger] added[i],
            ) < first_with(profiles, #[trigger] added[j]) by {
                assert(added[i] == a0[i]);
                if j < a0.len() {
                    assert(added[j] == a0[j]);
                }
            }
        } else {
            assert(added =~= a0);
            assert forall|k: int| 0 <= k < added.len() implies (#[trigger] added[k]).len() > 0
                && !listed.contains(added[k]) && first_with(profiles, added[k]) < profiles.len() by {
                assert(added[k] == a0[k]);
            }
            assert forall|i: int, j: int| 0 <= i < j < added.len() implies first_with(
                profiles,
                #[trigger] added[i],
            ) < first_with(profiles, #[trigger] added[j]) by {
                assert(added[i] == a0[i] && added[j] == a0[j]);
            }
        }
    } else {
        assert(added =~= Seq::<Seq<char>>::empty());
    }
}

/// Listed groups are never empty.
proof fn lemma_listed_not_empty(vals: Seq<JsonView>)
    ensures
        forall|k: int| 0 <= k < listed_groups(vals).len() ==> (#[trigger] listed_groups(vals)[k]).len() > 0,
    decreases vals.len(),
{
    if vals.len() > 0 {
        lemma_listed_not_empty(vals.drop_last());
        let r = listed_groups(vals.drop_last());
        let l = listed_groups(vals);
        assert forall|k: int| 0 <= k < l.len() implies (#[trigger] l[k]).len() > 0 by {
            if k < r.len() {
                assert(l[k] == r[k]);
            }
        }
    }
}

/// The normalised groups are the snapshot's listed groups (its non-empty
/// group names, in order) followed by the other profile groups: each the
/// non-empty group of a profile, not listed, in the order of their first
/// profiles, so none twice. No group is empty, and every profile's
/// non-empty group is among them.
pub proof fn lemma_groups_listed_then_added(v: JsonView, readings: Seq<(Seq<char>, u32)>)
    ensures
        ({
            let s = snapshot_of(v, readings);
            match v {
                JsonView::Object(es) => {
                    let listed = listed_groups(values_of(member_get(es, "groups"@)));
                    let added = s.groups.skip(listed.len() as int);
                    &&& s.groups == listed + added
                    &&& forall|k: int|
                        0 <= k < added.len() ==> (#[trigger] added[k]).len() > 0 && !listed.contains(
                            added[k],
                        ) && first_with(s.profiles, added[k]) < s.profiles.len()
                    &&& forall|i: int, j: int|
                        0 <= i < j < added.len() ==> first_with(s.profiles, #[trigger] added[i])
                            < first_with(s.profiles, #[trigger] added[j])
                },
                _ => s.groups.len() == 0,
            }
        }),
        forall|k: int| 0 <= k < snapshot_of(v, readings).groups.len() ==> (#[trigger] snapshot_of(v, readings).groups[k]).len() > 0,
        forall|i: int|
            0 <= i < snapshot_of(v, readings).profiles.len() && (#[trigger] snapshot_of(v, readings).profiles[i]).group.len() > 0
                ==> snapshot_of(v, readings).groups.contains(snapshot_of(v, readings).profiles[i].group),
{
    lemma_groups_cover_profiles(v, readings);
    match v {
        JsonView::Object(es) => {
            let profiles = profiles_of(values_of(member_get(es, "profiles"@)), readings);
            let vals = values_of(member_get(es, "groups"@));
            let listed = listed_groups(vals);
            lemma_added_groups(listed, profiles);
            lemma_listed_not_empty(vals);
            let s = snapshot_of(v, readings);
            let added = s.groups.skip(listed.len() as int);
            assert forall|k: int| 0 <= k < s.groups.len() implies (#[trigger] s.groups[k]).len() > 0 by {
                if k < listed.len() {
                    assert(s.groups[k] == listed[k]);
                } else {
                    assert(s.groups[k] == added[k - listed.len()]);
                }
            }
        },
        _ => {},
    }
}

/// The profiles shown for a group and a query are exactly the profiles in
/// that group (every profile for `ALL_GROUPS`) that match the query, in order.
pub proof fn lemma_visible_is_filter(profiles: Seq<ProfileView>, group: Seq<char>, query: Seq<char>)
    ensures
        visible_of(profiles, group, query) == profiles.filter(|p: ProfileView| shown(p, group, query)),
    decreases profiles.len(),
{
    let f = |p: ProfileView| shown(p, group, query);
    if profiles.len() > 0 {
        lemma_visible_is_filter(profiles.drop_last(), group, query);
        profiles.drop_last().lemma_filter_push(profiles.last(), f);
        assert(profiles.drop_last().push(profiles.last()) =~= profiles);
    } else {
        assert(profiles.filter(f) =~= Seq::<ProfileView>::empty());
    }
}

/// A query that lower-cases to nothing hides no profile: for `ALL_GROUPS`
/// every profile is shown.
pub proof fn lemma_blank_query_shows_all(profiles: Seq<ProfileView>, query: Seq<char>)
    requires
        spec_to_lowercase(trim(query)).len() == 0,
    ensures
        visible_of(profiles, ALL_GROUPS@, query) == profiles,
    decreases profiles.len(),
{
    if profiles.len() > 0 {
        lemma_blank_query_shows_all(profiles.drop_last(), query);
        assert(profiles.drop_last().push(profiles.last()) =~= profiles);
    }
}

proof fn lemma_occurs_within(hay: Seq<char>, part: Seq<char>, needle: Seq<char>, a: int, k: int)
    requires
        occurs_at(hay, part, a),
        occurs_at(part, needle, k),
    ensures
        occurs_at(hay, needle, a + k),
{
    assert(hay.subrange(a + k, a + k + needle.len()) =~= part.subrange(k, k + needle.len()));
}

/// Each field of a profile (its id, name, group, host, user and jump host)
/// stands whole in its search text. So where lower-casing changes neither the
/// search text nor the trimmed query, a query found in any one field matches.
pub proof fn lemma_fields_searched(p: ProfileView, query: Seq<char>)
    ensures
        contains_seq(search_text(p), p.id),
        contains_seq(search_text(p), p.name),
        contains_seq(search_text(p), p.group),
        contains_seq(search_text(p), p.host),
        contains_seq(search_text(p), p.user),
        contains_seq(search_text(p), p.jump_host),
        spec_to_lowercase(search_text(p)) == search_text(p) && spec_to_lowercase(trim(query))
            == trim(query) && (contains_seq(p.id, trim(query)) || contains_seq(p.name, trim(query))
            || contains_seq(p.group, trim(query)) || contains_seq(p.host, trim(query))
            || contains_seq(p.user, trim(query)) || contains_seq(p.jump_host, trim(query)))
            ==> matches_query(p, query),
{
    let t = search_text(p);
    let o_name: int = p.id.len() as int + 1;
    let o_group: int = o_name + p.name.len() + 1;
    let o_host: int = o_group + p.group.len() + 1;
    let o_user: int = o_host + p.host.len() + 1;
    let o_jump: int = o_user + p.user.len() + 1;
    assert(t.len() == o_jump + p.jump_host.len());
    assert(t.subrange(0, p.id.len() as int) =~= p.id);
    assert(t.subrange(o_name, o_name + p.name.len()) =~= p.name);
    assert(t.subrange(o_group, o_group + p.group.len()) =~= p.group);
    assert(t.subrange(o_host, o_host + p.host.len()) =~= p.host);
    assert(t.subrange(o_user, o_user + p.user.len()) =~= p.user);
    assert(t.subrange(o_jump, o_jump + p.jump_host.len()) =~= p.jump_host);
    assert(occurs_at(t, p.id, 0));
    assert(occurs_at(t, p.name, o_name));
    assert(occurs_at(t, p.group, o_group));
    assert(occurs_at(t, p.host, o_host));
    assert(occurs_at(t, p.user, o_user));
    assert(occurs_at(t, p.jump_host, o_jump));
    let q = trim(query);
    if spec_to_lowercase(t) == t && spec_to_lowercase(q) == q {
        if contains_seq(p.id, q) {
            let k = choose|k: int| occurs_at(p.id, q, k);
            lemma_occurs_within(t, p.id, q, 0, k);
        } else if contains_seq(p.name, q) {
            let k = choose|k: int| occurs_at(p.name, q, k);
            lemma_occurs_within(t, p.name, q, o_name, k);
        } else if contains_seq(p.group, q) {
            let k = choose|k: int| occurs_at(p.group, q, k);
            lemma_occurs_within(t, p.group, q, o_group, k);
        } else if contains_seq(p.host, q) {
            let k = choose|k: int| occurs_at(p.host, q, k);
            lemma_occurs_within(t, p.host, q, o_host, k);
        } else if contains_seq(p.user, q) {
            let k = choose|k: int| occurs_at(p.user, q, k);
            lemma_occurs_within(t, p.user, q, o_user, k);
        } else if contains_seq(p.jump_host, q) {
            let k = choose|k: int| occurs_at(p.jump_host, q, k);
            lemma_occurs_within(t, p.jump_host, q, o_jump, k);
        }
    }
}

/// Only an explicit `editable: false` makes a profile read-only: a profile
/// object without an `editable` member is editable, and so is one whose first
/// `editable` member holds anything but the boolean false.
pub proof fn lemma_editable_unless_false(item: Members, readings: Seq<(Seq<char>, u32)>)
    ensures
        crate::json::members_lack(item, "editable"@) ==> profile_of(item, readings).editable,
        forall|i: int|
            0 <= i < item.len() && (#[trigger] item[i]).0 == "editable"@
                && crate::json::members_lack(item.take(i), "editable"@) ==> profile_of(
                item,
                readings,
            ).editable == (item[i].1 != JsonView::Bool(false)),
{
    if crate::json::members_lack(item, "editable"@) {
        crate::json::lemma_absent(item, "editable"@);
    }
    assert forall|i: int|
        0 <= i < item.len() && (#[trigger] item[i]).0 == "editable"@
            && crate::json::members_lack(item.take(i), "editable"@) implies profile_of(
        item,
        readings,
    ).editable == (item[i].1 != JsonView::Bool(false)) by {
        crate::json::lemma_first(item, "editable"@, i);
    }
}

/// A profile object's text members become the profile's fields as they
/// stand. A missing member leaves its field empty, but for the name (the id,
/// or `?` without one), the source (`store`) and the port (22); a whole
/// number port that fits in 32 bits is kept; and the password flag is set
/// exactly when `has_password` or `hasPassword` is the boolean true.
pub proof fn lemma_profile_fields(item: Members, readings: Seq<(Seq<char>, u32)>)
    ensures
        member_get(item, "id"@) matches Some(JsonView::Text(s)) ==> profile_of(item, readings).id == s,
        member_get(item, "name"@) matches Some(JsonView::Text(s)) ==> profile_of(item, readings).name == s,
        member_get(item, "group"@) matches Some(JsonView::Text(s)) ==> profile_of(item, readings).group == s,
        member_get(item, "source"@) matches Some(JsonView::Text(s)) ==> profile_of(item, readings).source == s,
        member_get(item, "host"@) matches Some(JsonView::Text(s)) ==> profile_of(item, readings).host == s,
        member_get(item, "user"@) matches Some(JsonView::Text(s)) ==> profile_of(item, readings).user == s,
        member_get(item, "auth"@) matches Some(JsonView::Text(s)) ==> profile_of(item, readings).auth == s,
        member_get(item, "jumpHost"@) matches Some(JsonView::Text(s)) ==> profile_of(item, readings).jump_host == s,
        member_get(item, "icon"@) matches Some(JsonView::Text(s)) ==> profile_of(item, readings).icon == s,
        member_get(item, "color"@) matches Some(JsonView::Text(s)) ==> profile_of(item, readings).color == s,
        member_get(item, "id"@) is None ==> profile_of(item, readings).id.len() == 0,
        member_get(item, "group"@) is None ==> profile_of(item, readings).group.len() == 0,
        member_get(item, "host"@) is None ==> profile_of(item, readings).host.len() == 0,
        member_get(item, "user"@) is None ==> profile_of(item, readings).user.len() == 0,
        member_get(item, "auth"@) is None ==> profile_of(item, readings).auth.len() == 0,
        member_get(item, "jumpHost"@) is None ==> profile_of(item, readings).jump_host.len() == 0,
        member_get(item, "icon"@) is None ==> profile_of(item, readings).icon.len() == 0,
        member_get(item, "color"@) is None ==> profile_of(item, readings).color.len() == 0,
        member_get(item, "name"@) is None ==> profile_of(item, readings).name == (if profile_of(
            item,
            readings,
        ).id.len() == 0 {
            "?"@
        } else {
            profile_of(item, readings).id
        }),
        member_get(item, "source"@) is None ==> profile_of(item, readings).source == "store"@,
        member_get(item, "port"@) is None ==> profile_of(item, readings).port == 22,
        member_get(item, "port"@) matches Some(JsonView::Number(NumberView::PosInt(n))) ==> (n
            <= u32::MAX ==> profile_of(item, readings).port == n),
        profile_of(item, readings).has_password == (member_get(item, "has_password"@) == Some(
            JsonView::Bool(true),
        ) || member_get(item, "hasPassword"@) == Some(JsonView::Bool(true))),
{
}

/// Every item of the snapshot's `profiles` array becomes a profile, in
/// order, where all of them are objects.
pub proof fn lemma_profiles_follow_items(vals: Seq<JsonView>, readings: Seq<(Seq<char>, u32)>)
    requires
        forall|i: int| 0 <= i < vals.len() ==> (#[trigger] vals[i]) is Object,
    ensures
        profiles_of(vals, readings).len() == vals.len(),
        forall|i: int|
            0 <= i < vals.len() ==> (#[trigger] profiles_of(vals, readings)[i]) == profile_of(
                vals[i]->Object_0,
                readings,
            ),
    decreases vals.len(),
{
    if vals.len() > 0 {
        let rest = vals.drop_last();
        assert forall|i: int| 0 <= i < rest.len() implies (#[trigger] rest[i]) is Object by {
            assert(rest[i] == vals[i]);
        }
        lemma_profiles_follow_items(rest, readings);
        assert(vals.last() is Object);
        assert forall|i: int| 0 <= i < vals.len() implies (#[trigger] profiles_of(vals, readings)[i])
            == profile_of(vals[i]->Object_0, readings) by {
            if i < rest.len() {
                assert(rest[i] == vals[i]);
            }
        }
    }
}

/// A snapshot document that is not an object stands for an empty snapshot
/// opening in a tab. In an object, `default_where` (else `defaultWhere`)
/// text names where connections open, `tab` when both are missing; and
/// `store_path` (else `storePath`) text names the store, empty when both are
/// missing.
pub proof fn lemma_snapshot_settings(v: JsonView, readings: Seq<(Seq<char>, u32)>)
    ensures
        !(v is Object) ==> snapshot_of(v, readings).profiles.len() == 0 && snapshot_of(
            v,
            readings,
        ).groups.len() == 0 && snapshot_of(v, readings).default_where == "tab"@ && snapshot_of(
            v,
            readings,
        ).store_path.len() == 0,
        v matches JsonView::Object(es) ==> {
            let snap = snapshot_of(v, readings);
            &&& member_get(es, "default_where"@) matches Some(JsonView::Text(w)) ==> snap.default_where == w
            &&& member_get(es, "default_where"@) is None ==> (member_get(es, "defaultWhere"@) matches Some(
                JsonView::Text(w),
            ) ==> snap.default_where == w)
            &&& member_get(es, "default_where"@) is None && member_get(es, "defaultWhere"@) is None
                ==> snap.default_where == "tab"@
            &&& member_get(es, "store_path"@) matches Some(JsonView::Text(w)) ==> snap.store_path == w
            &&& member_get(es, "store_path"@) is None ==> (member_get(es, "storePath"@) matches Some(
                JsonView::Text(w),
            ) ==> snap.store_path == w)
            &&& member_get(es, "store_path"@) is None && member_get(es, "storePath"@) is None
                ==> snap.store_path.len() == 0
        },
{
}

/// Each group's entry in the summary counts the profiles of that group, and
/// the first entry counts them all.
pub proof fn lemma_summary_counts(s: SnapshotView)
    ensures
        summaries_of(s)[0].id == ALL_GROUPS@,
        summaries_of(s)[0].count == s.profiles.len(),
        forall|i: int|
            1 <= i < summaries_of(s).len() ==> (#[trigger] summaries_of(s)[i]).count == group_count(
                s.profiles,
                summaries_of(s)[i].id,
            ),
{
}

proof fn lemma_trim_decimal(n: nat)
    ensures
        trim(decimal(n)) == decimal(n),
{
    let d = decimal(n);
    crate::text::lemma_decimal_digits(n);
    assert(!crate::text::is_ws(d[0])) by {
        assert('0' <= d[0] <= '9');
    }
    assert(crate::text::lead_ws(d) == 0);
    assert(d.skip(0) =~= d);
    assert(!crate::text::is_ws(d.last())) by {
        assert('0' <= d[d.len() - 1] <= '9');
    }
    assert(crate::text::trail_ws(d) == 0);
    assert(d.take(d.len() as int) =~= d);
}

/// The port text a draft is given for a port from 1 to 65535 is not blank,
/// so it saves as the port it reads as: that port.
pub proof fn lemma_port_text_round_trip(port: u32)
    requires
        1 <= port <= 65535,
    ensures
        trim(decimal(port as nat)).len() > 0,
        draft_port(decimal(port as nat), Some(port)) == Some(port),
{
    lemma_trim_decimal(port as nat);
    crate::text::lemma_decimal_digits(port as nat);
}

/// An edit form opened on a profile whose raw entry has no port of its own
/// saves with the profile's port.
pub proof fn lemma_profile_port_round_trip(p: ProfileView, g: Seq<char>)
    requires
        1 <= p.port <= 65535,
        ({
            let raw = match p.raw {
                Some(r) => r,
                None => Seq::empty(),
            };
            option_of(raw, "port"@, "port"@) is None || option_of(raw, "port"@, "port"@) == Some(
                JsonView::Null,
            )
        }),
    ensures
        draft_of(Some(p), g).port == decimal(p.port as nat),
        draft_port(draft_of(Some(p), g).port, Some(p.port)) == Some(p.port),
{
    lemma_port_text_round_trip(p.port);
}

} // verus!
