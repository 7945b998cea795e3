//! Reading a profile's `sftp` section into `SftpProfileData`.
//!
//! The section is read as a whole: every known field may be given under its
//! canonical name or its alias, but not under both; a field given with a value
//! of the wrong type, or given twice, makes the whole section read as the
//! default (empty) data. Members with other names are kept in `extra`.
use vstd::prelude::*;

use crate::json::{
    lemma_entries_view, lemma_items_view, items_view, JsonNumber, JsonObject, JsonValue,
    JsonView, Members, NumberView,
};
use crate::text::str_eq;
use crate::types::{empty_sftp_data, opt_obj, opt_str, strs_view, SftpDataView, SftpProfileData};

verus! {

/// The values of the members named `a` or `b`, in order.
pub open spec fn named_values(es: Members, a: Seq<char>, b: Seq<char>) -> Seq<JsonView>
    decreases es.len(),
{
    if es.len() == 0 {
        Seq::empty()
    } else {
        let r = named_values(es.drop_last(), a, b);
        if es.last().0 == a || es.last().0 == b {
            r.push(es.last().1)
        } else {
            r
        }
    }
}

/// Where the members named `a` or `b` are: none, exactly one (its index), or more.
pub enum Slot {
    Missing,
    One(usize),
    Many,
}

fn find_slot(o: &JsonObject, a: &str, b: &str) -> (r: Slot)
    ensures
        r is Missing <==> named_values(o@, a@, b@).len() == 0,
        r is Many <==> named_values(o@, a@, b@).len() >= 2,
        r matches Slot::One(i) ==> i < o.entries@.len() && named_values(o@, a@, b@) == seq![
            o.entries@[i as int].1@,
        ],
{
    proof {
        lemma_entries_view(o.entries@);
    }
    let mut found: Option<usize> = None;
    let mut i: usize = 0;
    while i < o.entries.len()
        invariant
            i <= o.entries.len() == o@.len(),
            found is None ==> named_values(o@.take(i as int), a@, b@).len() == 0,
            found matches Some(k) ==> k < i && named_values(o@.take(i as int), a@, b@) == seq![
                o.entries@[k as int].1@,
            ],
        decreases o.entries.len() - i,
    {
        let ghost t = o@.take(i + 1);
        assert(t.drop_last() =~= o@.take(i as int));
        assert(t.last() == o@[i as int]);
        let key = o.entries[i].0.as_str();
        if str_eq(key, a) || str_eq(key, b) {
            if found.is_some() {
                assert(named_values(t, a@, b@).len() == 2);
                proof {
                    lemma_named_grow(o@, i + 1, a@, b@);
                }
                return Slot::Many;
            }
            found = Some(i);
        }
        i += 1;
    }
    assert(o@.take(i as int) =~= o@);
    match found {
        Some(k) => Slot::One(k),
        None => Slot::Missing,
    }
}

proof fn lemma_named_grow(es: Members, k: int, a: Seq<char>, b: Seq<char>)
    requires
        0 <= k <= es.len(),
    ensures
        named_values(es, a, b).len() >= named_values(es.take(k), a, b).len(),
    decreases es.len() - k,
{
    if k < es.len() {
        lemma_named_grow(es, k + 1, a, b);
        assert(es.take(k + 1).drop_last() =~= es.take(k));
    } else {
        assert(es.take(k) =~= es);
    }
}

/// How an optional text field reads a value: null is absent, text is present,
/// anything else is an error (`None`).
pub open spec fn read_opt_text(v: JsonView) -> Option<Option<Seq<char>>> {
    match v {
        JsonView::Null => Some(None),
        JsonView::Text(s) => Some(Some(s)),
        _ => None,
    }
}

/// How an optional `u32` field reads a value: a non-negative integer that fits.
pub open spec fn read_opt_u32(v: JsonView) -> Option<Option<u32>> {
    match v {
        JsonView::Null => Some(None),
        JsonView::Number(NumberView::PosInt(n)) => if n <= u32::MAX {
            Some(Some(n as u32))
        } else {
            None
        },
        JsonView::Number(NumberView::NegInt(n)) => if 0 <= n <= u32::MAX {
            Some(Some(n as u32))
        } else {
            None
        },
        _ => None,
    }
}

/// How an optional `u64` field reads a value: a non-negative integer.
pub open spec fn read_opt_u64(v: JsonView) -> Option<Option<u64>> {
    match v {
        JsonView::Null => Some(None),
        JsonView::Number(NumberView::PosInt(n)) => Some(Some(n)),
        JsonView::Number(NumberView::NegInt(n)) => if 0 <= n {
            Some(Some(n as u64))
        } else {
            None
        },
        _ => None,
    }
}

/// All items are text.
pub open spec fn all_text(items: Seq<JsonView>) -> bool {
    forall|i: int| 0 <= i < items.len() ==> (#[trigger] items[i]) is Text
}

/// How a list of texts reads a value: an array of texts only.
pub open spec fn read_texts(v: JsonView) -> Option<Seq<Seq<char>>> {
    match v {
        JsonView::Array(items) => if all_text(items) {
            Some(items.map_values(|x: JsonView| x->Text_0))
        } else {
            None
        },
        _ => None,
    }
}

/// How an optional object field reads a value.
pub open spec fn read_opt_object(v: JsonView) -> Option<Option<Members>> {
    match v {
        JsonView::Null => Some(None),
        JsonView::Object(m) => Some(Some(m)),
        _ => None,
    }
}

/// A field read from the members named `a` or `b`: absent when there is none,
/// read from the one there is, an error when there are more.
pub open spec fn text_field(es: Members, a: Seq<char>, b: Seq<char>) -> Option<Option<Seq<char>>> {
    let vs = named_values(es, a, b);
    if vs.len() == 0 {
        Some(None)
    } else if vs.len() == 1 {
        read_opt_text(vs[0])
    } else {
        None
    }
}

pub open spec fn u32_field(es: Members, a: Seq<char>, b: Seq<char>) -> Option<Option<u32>> {
    let vs = named_values(es, a, b);
    if vs.len() == 0 {
        Some(None)
    } else if vs.len() == 1 {
        read_opt_u32(vs[0])
    } else {
        None
    }
}

pub open spec fn u64_field(es: Members, a: Seq<char>, b: Seq<char>) -> Option<Option<u64>> {
    let vs = named_values(es, a, b);
    if vs.len() == 0 {
        Some(None)
    } else if vs.len() == 1 {
        read_opt_u64(vs[0])
    } else {
        None
    }
}

pub open spec fn texts_field(es: Members, a: Seq<char>, b: Seq<char>) -> Option<Seq<Seq<char>>> {
    let vs = named_values(es, a, b);
    if vs.len() == 0 {
        Some(Seq::empty())
    } else if vs.len() == 1 {
        read_texts(vs[0])
    } else {
        None
    }
}

pub open spec fn object_field(es: Members, a: Seq<char>, b: Seq<char>) -> Option<Option<Members>> {
    let vs = named_values(es, a, b);
    if vs.len() == 0 {
        Some(None)
    } else if vs.len() == 1 {
        read_opt_object(vs[0])
    } else {
        None
    }
}

/// The names the section gives a meaning to.
pub open spec fn known_name(k: Seq<char>) -> bool {
    ||| k == "host"@
    ||| k == "user"@
    ||| k == "port"@
    ||| k == "auth"@
    ||| k == "privateKeys"@
    ||| k == "private_keys"@
    ||| k == "password_env"@
    ||| k == "identityAgent"@
    ||| k == "identity_agent"@
    ||| k == "jumpHost"@
    ||| k == "jump_host"@
    ||| k == "proxyCommand"@
    ||| k == "proxy_command"@
    ||| k == "readyTimeout"@
    ||| k == "ready_timeout"@
    ||| k == "keepaliveInterval"@
    ||| k == "keepalive_interval"@
    ||| k == "keepaliveCountMax"@
    ||| k == "keepalive_count_max"@
    ||| k == "host_key_policy"@
    ||| k == "ssh_options"@
}

/// The members with other names, in order.
pub open spec fn unknown_members(es: Members) -> Members
    decreases es.len(),
{
    if es.len() == 0 {
        Seq::empty()
    } else {
        let r = unknown_members(es.drop_last());
        if known_name(es.last().0) {
            r
        } else {
            r.push(es.last())
        }
    }
}

/// The data an `sftp` section reads as.
pub open spec fn sftp_data_of(es: Members) -> SftpDataView {
    let host = text_field(es, "host"@, "host"@);
    let user = text_field(es, "user"@, "user"@);
    let port = u32_field(es, "port"@, "port"@);
    let auth = text_field(es, "auth"@, "auth"@);
    let keys = texts_field(es, "privateKeys"@, "private_keys"@);
    let password_env = text_field(es, "password_env"@, "password_env"@);
    let agent = text_field(es, "identityAgent"@, "identity_agent"@);
    let jump = text_field(es, "jumpHost"@, "jump_host"@);
    let proxy = text_field(es, "proxyCommand"@, "proxy_command"@);
    let ready = u64_field(es, "readyTimeout"@, "ready_timeout"@);
    let interval = u64_field(es, "keepaliveInterval"@, "keepalive_interval"@);
    let count_max = u32_field(es, "keepaliveCountMax"@, "keepalive_count_max"@);
    let policy = text_field(es, "host_key_policy"@, "host_key_policy"@);
    let options = object_field(es, "ssh_options"@, "ssh_options"@);
    if host is Some && user is Some && port is Some && auth is Some && keys is Some
        && password_env is Some && agent is Some && jump is Some && proxy is Some && ready is Some
        && interval is Some && count_max is Some && policy is Some && options is Some {
        SftpDataView {
            host: host->0,
            user: user->0,
            port: port->0,
            auth: auth->0,
            private_keys: keys->0,
            password_env: password_env->0,
            identity_agent: agent->0,
            jump_host: jump->0,
            proxy_command: proxy->0,
            ready_timeout: ready->0,
            keepalive_interval: interval->0,
            keepalive_count_max: count_max->0,
            host_key_policy: policy->0,
            ssh_options: options->0,
            extra: unknown_members(es),
        }
    } else {
        empty_sftp_data()
    }
}

fn read_text_value(v: &JsonValue) -> (r: Option<Option<String>>)
    ensures
        r is None <==> read_opt_text(v@) is None,
        r matches Some(x) ==> read_opt_text(v@) == Some(opt_str(x)),
{
    match v {
        JsonValue::Null => Some(None),
        JsonValue::Text(s) => Some(Some(s.clone())),
        _ => None,
    }
}

fn read_u32_value(v: &JsonValue) -> (r: Option<Option<u32>>)
    ensures
        r == read_opt_u32(v@),
{
    match v {
        JsonValue::Null => Some(None),
        JsonValue::Number(JsonNumber::PosInt(n)) => {
            if *n <= 4294967295 {
                Some(Some(*n as u32))
            } else {
                None
            }
        },
        JsonValue::Number(JsonNumber::NegInt(n)) => {
            if 0 <= *n && *n <= 4294967295 {
                Some(Some(*n as u32))
            } else {
                None
            }
        },
        _ => None,
    }
}

fn read_u64_value(v: &JsonValue) -> (r: Option<Option<u64>>)
    ensures
        r == read_opt_u64(v@),
{
    match v {
        JsonValue::Null => Some(None),
        JsonValue::Number(JsonNumber::PosInt(n)) => Some(Some(*n)),
        JsonValue::Number(JsonNumber::NegInt(n)) => {
            if 0 <= *n {
                Some(Some(*n as u64))
            } else {
                None
            }
        },
        _ => None,
    }
}

fn read_texts_value(v: &JsonValue) -> (r: Option<Vec<String>>)
    ensures
        r is None <==> read_texts(v@) is None,
        r matches Some(x) ==> read_texts(v@) == Some(strs_view(x@)),
{
    match v {
        JsonValue::Array(items) => {
            proof {
                lemma_items_view(items@);
            }
            let ghost iv = items_view(items@);
            let mut out: Vec<String> = Vec::new();
            let mut i: usize = 0;
            while i < items.len()
                invariant
                    i <= items.len() == iv.len(),
                    iv == items_view(items@),
                    v@ == JsonView::Array(iv),
                    forall|j: int| 0 <= j < items@.len() ==> #[trigger] iv[j] == items@[j]@,
                    all_text(iv.take(i as int)),
                    strs_view(out@) == iv.take(i as int).map_values(|x: JsonView| x->Text_0),
                decreases items.len() - i,
            {
                match &items[i] {
                    JsonValue::Text(s) => {
                        let ghost prev = out@;
                        out.push(s.clone());
                        proof {
                            assert(iv.take(i + 1) =~= iv.take(i as int).push(iv[i as int]));
                            assert(strs_view(out@) =~= strs_view(prev).push(s@));
                            assert(strs_view(out@) =~= iv.take(i + 1).map_values(
                                |x: JsonView| x->Text_0,
                            ));
                            assert forall|j: int| 0 <= j < i + 1 implies (#[trigger] iv.take(
                                i + 1,
                            )[j]) is Text by {
                                if j < i {
                                    assert(iv.take(i + 1)[j] == iv.take(i as int)[j]);
                                }
                            }
                        }
                    },
                    _ => {
                        assert(!(iv[i as int] is Text));
                        return None;
                    },
                }
                i += 1;
            }
            assert(iv.take(i as int) =~= iv);
            Some(out)
        },
        _ => None,
    }
}

fn read_object_value(v: &JsonValue) -> (r: Option<Option<JsonObject>>)
    ensures
        r is None <==> read_opt_object(v@) is None,
        r matches Some(x) ==> read_opt_object(v@) == Some(opt_obj(x)),
{
    match v {
        JsonValue::Null => Some(None),
        JsonValue::Object(m) => Some(Some(m.clone())),
        _ => None,
    }
}

fn text_field_of(o: &JsonObject, a: &str, b: &str) -> (r: Option<Option<String>>)
    ensures
        r is None <==> text_field(o@, a@, b@) is None,
        r matches Some(x) ==> text_field(o@, a@, b@) == Some(opt_str(x)),
{
    proof {
        lemma_entries_view(o.entries@);
    }
    match find_slot(o, a, b) {
        Slot::Missing => Some(None),
        Slot::One(i) => read_text_value(&o.entries[i].1),
        Slot::Many => None,
    }
}

fn u32_field_of(o: &JsonObject, a: &str, b: &str) -> (r: Option<Option<u32>>)
    ensures
        r == u32_field(o@, a@, b@),
{
    proof {
        lemma_entries_view(o.entries@);
    }
    match find_slot(o, a, b) {
        Slot::Missing => Some(None),
        Slot::One(i) => read_u32_value(&o.entries[i].1),
        Slot::Many => None,
    }
}

fn u64_field_of(o: &JsonObject, a: &str, b: &str) -> (r: Option<Option<u64>>)
    ensures
        r == u64_field(o@, a@, b@),
{
    proof {
        lemma_entries_view(o.entries@);
    }
    match find_slot(o, a, b) {
        Slot::Missing => Some(None),
        Slot::One(i) => read_u64_value(&o.entries[i].1),
        Slot::Many => None,
    }
}

fn texts_field_of(o: &JsonObject, a: &str, b: &str) -> (r: Option<Vec<String>>)
    ensures
        r is None <==> texts_field(o@, a@, b@) is None,
        r matches Some(x) ==> texts_field(o@, a@, b@) == Some(strs_view(x@)),
{
    proof {
        lemma_entries_view(o.entries@);
    }
    match find_slot(o, a, b) {
        Slot::Missing => {
            let v: Vec<String> = Vec::new();
            assert(strs_view(v@) =~= Seq::<Seq<char>>::empty());
            Some(v)
        },
        Slot::One(i) => read_texts_value(&o.entries[i].1),
        Slot::Many => None,
    }
}

fn object_field_of(o: &JsonObject, a: &str, b: &str) -> (r: Option<Option<JsonObject>>)
    ensures
        r is None <==> object_field(o@, a@, b@) is None,
        r matches Some(x) ==> object_field(o@, a@, b@) == Some(opt_obj(x)),
{
    proof {
        lemma_entries_view(o.entries@);
    }
    match find_slot(o, a, b) {
        Slot::Missing => Some(None),
        Slot::One(i) => read_object_value(&o.entries[i].1),
        Slot::Many => None,
    }
}

fn is_known_name(k: &str) -> (r: bool)
    ensures
        r == known_name(k@),
{
    str_eq(k, "host") || str_eq(k, "user") || str_eq(k, "port") || str_eq(k, "auth") || str_eq(
        k,
        "privateKeys",
    ) || str_eq(k, "private_keys") || str_eq(k, "password_env") || str_eq(k, "identityAgent")
        || str_eq(k, "identity_agent") || str_eq(k, "jumpHost") || str_eq(k, "jump_host")
        || str_eq(k, "proxyCommand") || str_eq(k, "proxy_command") || str_eq(k, "readyTimeout")
        || str_eq(k, "ready_timeout") || str_eq(k, "keepaliveInterval") || str_eq(
        k,
        "keepalive_interval",
    ) || str_eq(k, "keepaliveCountMax") || str_eq(k, "keepalive_count_max") || str_eq(
        k,
        "host_key_policy",
    ) || str_eq(k, "ssh_options")
}

fn unknown_of(o: &JsonObject) -> (r: JsonObject)
    ensures
        r@ == unknown_members(o@),
{
    proof {
        lemma_entries_view(o.entries@);
    }
    let mut out = JsonObject::new();
    let mut i: usize = 0;
    while i < o.entries.len()
        invariant
            i <= o.entries.len() == o@.len(),
            out@ == unknown_members(o@.take(i as int)),
        decreases o.entries.len() - i,
    {
        let ghost t = o@.take(i + 1);
        assert(t.drop_last() =~= o@.take(i as int));
        assert(t.last() == o@[i as int]);
        if !is_known_name(o.entries[i].0.as_str()) {
            let e = (o.entries[i].0.clone(), o.entries[i].1.clone());
            proof {
                crate::json::lemma_entries_view_push(out.entries@, e);
            }
            out.entries.push(e);
        }
        i += 1;
    }
    assert(o@.take(i as int) =~= o@);
    out
}

/// Reads an `sftp` section.
pub fn sftp_data_from(o: &JsonObject) -> (r: SftpProfileData)
    ensures
        r@ == sftp_data_of(o@),
{
    let host = match text_field_of(o, "host", "host") {
        Some(x) => x,
        None => {
            return SftpProfileData::empty();
        },
    };
    let user = match text_field_of(o, "user", "user") {
        Some(x) => x,
        None => {
            return SftpProfileData::empty();
        },
    };
    let port = match u32_field_of(o, "port", "port") {
        Some(x) => x,
        None => {
            return SftpProfileData::empty();
        },
    };
    let auth = match text_field_of(o, "auth", "auth") {
        Some(x) => x,
        None => {
            return SftpProfileData::empty();
        },
    };
    let keys = match texts_field_of(o, "privateKeys", "private_keys") {
        Some(x) => x,
        None => {
            return SftpProfileData::empty();
        },
    };
    let password_env = match text_field_of(o, "password_env", "password_env") {
        Some(x) => x,
        None => {
            return SftpProfileData::empty();
        },
    };
    let agent = match text_field_of(o, "identityAgent", "identity_agent") {
        Some(x) => x,
        None => {
            return SftpProfileData::empty();
        },
    };
    let jump = match text_field_of(o, "jumpHost", "jump_host") {
        Some(x) => x,
        None => {
            return SftpProfileData::empty();
        },
    };
    let proxy = match text_field_of(o, "proxyCommand", "proxy_command") {
        Some(x) => x,
        None => {
            return SftpProfileData::empty();
        },
    };
    let ready = match u64_field_of(o, "readyTimeout", "ready_timeout") {
        Some(x) => x,
        None => {
            return SftpProfileData::empty();
        },
    };
    let interval = match u64_field_of(o, "keepaliveInterval", "keepalive_interval") {
        Some(x) => x,
        None => {
            return SftpProfileData::empty();
        },
    };
    let count_max = match u32_field_of(o, "keepaliveCountMax", "keepalive_count_max") {
        Some(x) => x,
        None => {
            return SftpProfileData::empty();
        },
    };
    let policy = match text_field_of(o, "host_key_policy", "host_key_policy") {
        Some(x) => x,
        None => {
            return SftpProfileData::empty();
        },
    };
    let options = match object_field_of(o, "ssh_options", "ssh_options") {
        Some(x) => x,
        None => {
            return SftpProfileData::empty();
        },
    };
    SftpProfileData {
        host,
        user,
        port,
        auth,
        private_keys: keys,
        password_env,
        identity_agent: agent,
        jump_host: jump,
        proxy_command: proxy,
        ready_timeout: ready,
        keepalive_interval: interval,
        keepalive_count_max: count_max,
        host_key_policy: policy,
        ssh_options: options,
        extra: unknown_of(o),
    }
}

} // verus!
