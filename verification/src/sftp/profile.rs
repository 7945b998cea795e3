//! How a snapshot profile becomes SFTP connection options: which of the
//! profile's settings apply, what the UI's credentials override, which jump
//! host goes first, and what the integrated client cannot do.
use vstd::prelude::*;

use crate::json::{
    items_view, lemma_entries_view, lemma_items_view, member_get, member_insert, JsonNumber,
    JsonObject, JsonValue, JsonView, Members, NumberView,
};
use crate::model::{either_key, opt_view};
use crate::numtext::{parse_uint, uint_within};
use crate::sftp::types::{
    issues_view, keys_view, opt_agent, pairs_view, AgentEndpoint, AgentView, AuthView,
    CompatibilityIssue, CompatibilityIssueSeverity, CredentialOverrides, CredentialsView,
    HopView, IssueView, KeyView, OverridesView, PrivateKeySource, ProfileConnectionOverrides,
    ProfileConnectionResult, SftpAuthentication, SftpConnectionOptions,
};
use crate::text::{
    chars_of, concat, contains_seq, find_char, find_char_in, rfind_char, rfind_char_in, str_contains,
    str_eq, string_from_range, trim, trim_string,
};
use crate::types::{opt_str, strs_view, Profile, ProfileView, SftpDataView};

verus! {

/// Non-empty text; nothing for empty text or any other value.
pub open spec fn text_of(v: Option<JsonView>) -> Option<Seq<char>> {
    match v {
        Some(JsonView::Text(s)) => if s.len() > 0 {
            Some(s)
        } else {
            None
        },
        _ => None,
    }
}

pub fn text(v: Option<&JsonValue>) -> (r: Option<String>)
    ensures
        opt_str(r) == text_of(opt_view(v)),
{
    match v {
        Some(JsonValue::Text(s)) => if s.as_str().is_empty() {
            None
        } else {
            Some(s.clone())
        },
        _ => None,
    }
}

/// Non-empty text, or nothing.
pub open spec fn non_empty_of(s: Seq<char>) -> Option<Seq<char>> {
    if s.len() > 0 {
        Some(s)
    } else {
        None
    }
}

pub fn non_empty(s: &str) -> (r: Option<String>)
    ensures
        opt_str(r) == non_empty_of(s@),
{
    if s.is_empty() {
        None
    } else {
        Some(s.to_owned())
    }
}

/// `member_insert` of non-empty text; nothing changes otherwise.
pub open spec fn insert_text_of(es: Members, key: Seq<char>, v: Option<Seq<char>>) -> Members {
    match v {
        Some(s) => if s.len() > 0 {
            member_insert(es, key, JsonView::Text(s))
        } else {
            es
        },
        None => es,
    }
}

/// `member_insert` of a number when there is one.
pub open spec fn insert_number_of(es: Members, key: Seq<char>, v: Option<u64>) -> Members {
    match v {
        Some(n) => member_insert(es, key, JsonView::Number(NumberView::PosInt(n))),
        None => es,
    }
}

/// `Map::extend`: each member inserted in turn.
pub open spec fn extend_of(es: Members, extra: Members) -> Members
    decreases extra.len(),
{
    if extra.len() == 0 {
        es
    } else {
        member_insert(extend_of(es, extra.drop_last()), extra.last().0, extra.last().1)
    }
}

/// The texts as JSON texts.
pub open spec fn texts_json(v: Seq<Seq<char>>) -> JsonView {
    JsonView::Array(v.map_values(|s: Seq<char>| JsonView::Text(s)))
}

/// The snapshot's `sftp` data laid over the options: its non-empty texts and
/// its numbers replace what the options had, the key list always does, and
/// its extra members come last.
pub open spec fn overlay_of(base: Members, s: SftpDataView) -> Members {
    let o1 = insert_text_of(base, "host"@, s.host);
    let o2 = insert_text_of(o1, "user"@, s.user);
    let o3 = insert_number_of(
        o2,
        "port"@,
        match s.port {
            Some(p) => Some(p as u64),
            None => None,
        },
    );
    let o4 = insert_text_of(o3, "auth"@, s.auth);
    let o5 = member_insert(o4, "privateKeys"@, texts_json(s.private_keys));
    let o6 = insert_text_of(o5, "password_env"@, s.password_env);
    let o7 = insert_text_of(o6, "identityAgent"@, s.identity_agent);
    let o8 = insert_text_of(o7, "jumpHost"@, s.jump_host);
    let o9 = insert_text_of(o8, "proxyCommand"@, s.proxy_command);
    let o10 = insert_number_of(o9, "readyTimeout"@, s.ready_timeout);
    let o11 = insert_number_of(o10, "keepaliveInterval"@, s.keepalive_interval);
    let o12 = insert_number_of(
        o11,
        "keepaliveCountMax"@,
        match s.keepalive_count_max {
            Some(c) => Some(c as u64),
            None => None,
        },
    );
    let o13 = insert_text_of(o12, "host_key_policy"@, s.host_key_policy);
    let o14 = match s.ssh_options {
        Some(m) => member_insert(o13, "ssh_options"@, JsonView::Object(m)),
        None => o13,
    };
    extend_of(o14, s.extra)
}

/// A profile's connection options: the raw entry's non-empty `options`
/// object (else the raw entry itself), with the `sftp` data laid over it.
pub open spec fn options_of(p: ProfileView) -> Members {
    let raw = match p.raw {
        Some(r) => r,
        None => Seq::empty(),
    };
    let base = match member_get(raw, "options"@) {
        Some(JsonView::Object(o)) => if o.len() > 0 {
            o
        } else {
            raw
        },
        _ => raw,
    };
    match p.sftp {
        Some(s) => overlay_of(base, s),
        None => base,
    }
}

fn insert_some(options: &mut JsonObject, key: &str, value: &Option<String>)
    ensures
        final(options)@ == insert_text_of(old(options)@, key@, opt_str(*value)),
{
    match value {
        Some(v) => {
            if !v.as_str().is_empty() {
                options.insert(key.to_owned(), JsonValue::Text(v.clone()));
            }
        },
        None => {},
    }
}

fn insert_some_number(options: &mut JsonObject, key: &str, value: Option<u64>)
    ensures
        final(options)@ == insert_number_of(old(options)@, key@, value),
{
    match value {
        Some(n) => {
            options.insert(key.to_owned(), JsonValue::Number(JsonNumber::PosInt(n)));
        },
        None => {},
    }
}

fn texts_value(v: &Vec<String>) -> (r: JsonValue)
    ensures
        r@ == texts_json(strs_view(v@)),
{
    let mut items: Vec<JsonValue> = Vec::new();
    let mut i: usize = 0;
    while i < v.len()
        invariant
            i <= v.len(),
            items_view(items@) == strs_view(v@.take(i as int)).map_values(
                |s: Seq<char>| JsonView::Text(s),
            ),
        decreases v.len() - i,
    {
        let item = JsonValue::Text(v[i].clone());
        proof {
            crate::json::lemma_items_view_push(items@, item);
            assert(strs_view(v@.take(i + 1)) =~= strs_view(v@.take(i as int)).push(v@[i as int]@));
        }
        items.push(item);
        proof {
            assert(strs_view(v@.take(i + 1)).map_values(|s: Seq<char>| JsonView::Text(s))
                =~= strs_view(v@.take(i as int)).map_values(|s: Seq<char>| JsonView::Text(s)).push(
                JsonView::Text(v@[i as int]@),
            ));
        }
        i += 1;
    }
    assert(v@.take(i as int) =~= v@);
    JsonValue::Array(items)
}

fn extend(options: &mut JsonObject, extra: &JsonObject)
    ensures
        final(options)@ == extend_of(old(options)@, extra@),
{
    proof {
        lemma_entries_view(extra.entries@);
    }
    let ghost start = options@;
    let mut i: usize = 0;
    while i < extra.entries.len()
        invariant
            i <= extra.entries.len() == extra@.len(),
            options@ == extend_of(start, extra@.take(i as int)),
        decreases extra.entries.len() - i,
    {
        assert(extra@.take(i + 1).drop_last() =~= extra@.take(i as int));
        assert(extra@.take(i + 1).last() == extra@[i as int]);
        options.insert(extra.entries[i].0.clone(), extra.entries[i].1.clone());
        i += 1;
    }
    assert(extra@.take(i as int) =~= extra@);
}

pub fn options_of_profile(profile: &Profile) -> (r: JsonObject)
    ensures
        r@ == options_of(profile@),
{
    let raw = match &profile.raw {
        Some(r) => r.clone(),
        None => JsonObject::new(),
    };
    let mut options = match raw.get("options") {
        Some(JsonValue::Object(o)) => if o.len() > 0 {
            o.clone()
        } else {
            raw
        },
        _ => raw,
    };
    match &profile.sftp {
        Some(s) => {
            insert_some(&mut options, "host", &s.host);
            insert_some(&mut options, "user", &s.user);
            insert_some_number(
                &mut options,
                "port",
                match s.port {
                    Some(p) => Some(p as u64),
                    None => None,
                },
            );
            insert_some(&mut options, "auth", &s.auth);
            options.insert("privateKeys".to_owned(), texts_value(&s.private_keys));
            insert_some(&mut options, "password_env", &s.password_env);
            insert_some(&mut options, "identityAgent", &s.identity_agent);
            insert_some(&mut options, "jumpHost", &s.jump_host);
            insert_some(&mut options, "proxyCommand", &s.proxy_command);
            insert_some_number(&mut options, "readyTimeout", s.ready_timeout);
            insert_some_number(&mut options, "keepaliveInterval", s.keepalive_interval);
            insert_some_number(
                &mut options,
                "keepaliveCountMax",
                match s.keepalive_count_max {
                    Some(c) => Some(c as u64),
                    None => None,
                },
            );
            insert_some(&mut options, "host_key_policy", &s.host_key_policy);
            match &s.ssh_options {
                Some(m) => {
                    options.insert("ssh_options".to_owned(), JsonValue::Object(m.clone()));
                },
                None => {},
            }
            extend(&mut options, &s.extra);
        },
        None => {},
    }
    options
}

/// A positive whole number a setting gives: a positive integer, the
/// truncation of a positive finite float, or positive integer text.
pub open spec fn positive_of(v: Option<JsonView>) -> Option<u64> {
    match v {
        Some(JsonView::Number(NumberView::PosInt(n))) => if n > 0 {
            Some(n)
        } else {
            None
        },
        Some(JsonView::Number(NumberView::Float(_, _, truncated))) => truncated,
        Some(JsonView::Text(s)) => match uint_within(s, u64::MAX) {
            Some(n) => if n > 0 {
                Some(n)
            } else {
                None
            },
            None => None,
        },
        _ => None,
    }
}

pub fn positive_number(v: Option<&JsonValue>) -> (r: Option<u64>)
    ensures
        r == positive_of(opt_view(v)),
{
    match v {
        Some(JsonValue::Number(JsonNumber::PosInt(n))) => if *n > 0 {
            Some(*n)
        } else {
            None
        },
        Some(JsonValue::Number(JsonNumber::Float(f))) => f.positive_u64,
        Some(JsonValue::Text(s)) => match parse_uint(s.as_str(), u64::MAX) {
            Some(n) => if n > 0 {
                Some(n)
            } else {
                None
            },
            None => None,
        },
        _ => None,
    }
}

/// A duration setting in milliseconds: values above 300 are milliseconds,
/// smaller ones seconds.
pub open spec fn duration_of(v: Option<JsonView>) -> Option<u64> {
    match positive_of(v) {
        Some(n) => if n > 300 {
            Some(n)
        } else {
            Some((n * 1000) as u64)
        },
        None => None,
    }
}

pub fn duration_option(v: Option<&JsonValue>) -> (r: Option<u64>)
    ensures
        r == duration_of(opt_view(v)),
{
    match positive_number(v) {
        Some(n) => if n > 300 {
            Some(n)
        } else {
            Some(n * 1000)
        },
        None => None,
    }
}

/// The key that one setting value names: a non-empty path, or an object
/// with a path or inline data (and maybe a passphrase).
pub open spec fn key_of(v: JsonView) -> Option<KeyView> {
    match v {
        JsonView::Text(p) => if p.len() > 0 {
            Some(KeyView { path: Some(p), data: None, passphrase: None })
        } else {
            None
        },
        JsonView::Object(src) => {
            let path = text_of(member_get(src, "path"@));
            let data = text_of(member_get(src, "data"@));
            if path is None && data is None {
                None
            } else {
                Some(
                    KeyView {
                        path,
                        data: match data {
                            Some(d) => Some(vstd::utf8::encode_utf8(d)),
                            None => None,
                        },
                        passphrase: text_of(member_get(src, "passphrase"@)),
                    },
                )
            }
        },
        _ => None,
    }
}

/// The keys the values name, in order.
pub open spec fn keys_from(vals: Seq<JsonView>) -> Seq<KeyView>
    decreases vals.len(),
{
    if vals.len() == 0 {
        Seq::empty()
    } else {
        let r = keys_from(vals.drop_last());
        match key_of(vals.last()) {
            Some(k) => r.push(k),
            None => r,
        }
    }
}

/// The private keys a setting lists: an array of keys, or one key.
pub open spec fn private_keys_of(v: Option<JsonView>) -> Seq<KeyView> {
    match v {
        Some(JsonView::Array(items)) => keys_from(items),
        Some(x) => keys_from(seq![x]),
        None => Seq::empty(),
    }
}

fn key_from(v: &JsonValue) -> (r: Option<PrivateKeySource>)
    ensures
        match r {
            Some(k) => key_of(v@) == Some(k@),
            None => key_of(v@) is None,
        },
{
    match v {
        JsonValue::Text(p) => if p.as_str().is_empty() {
            None
        } else {
            Some(PrivateKeySource { path: Some(p.clone()), data: None, passphrase: None })
        },
        JsonValue::Object(src) => {
            let path = text(src.get("path"));
            let data = text(src.get("data"));
            if path.is_none() && data.is_none() {
                None
            } else {
                let bytes = match data {
                    Some(d) => Some(vstd::slice::slice_to_vec(d.as_str().as_bytes())),
                    None => None,
                };
                Some(PrivateKeySource { path, data: bytes, passphrase: text(src.get("passphrase")) })
            }
        },
        _ => None,
    }
}

pub fn parse_private_keys(v: Option<&JsonValue>) -> (r: Vec<PrivateKeySource>)
    ensures
        keys_view(r@) == private_keys_of(opt_view(v)),
{
    let mut out: Vec<PrivateKeySource> = Vec::new();
    match v {
        Some(JsonValue::Array(items)) => {
            proof {
                lemma_items_view(items@);
            }
            let ghost iv = items_view(items@);
            let mut i: usize = 0;
            while i < items.len()
                invariant
                    i <= items.len() == iv.len(),
                    iv == items_view(items@),
                    forall|j: int| 0 <= j < items@.len() ==> #[trigger] iv[j] == items@[j]@,
                    keys_view(out@) == keys_from(iv.take(i as int)),
                decreases items.len() - i,
            {
                assert(iv.take(i + 1).drop_last() =~= iv.take(i as int));
                assert(iv.take(i + 1).last() == items@[i as int]@);
                match key_from(&items[i]) {
                    Some(k) => {
                        let ghost prev = out@;
                        out.push(k);
                        assert(keys_view(out@) =~= keys_view(prev).push(k@));
                    },
                    None => {},
                }
                i += 1;
            }
            assert(iv.take(i as int) =~= iv);
        },
        Some(x) => {
            let ghost one = seq![x@];
            assert(one.drop_last() =~= Seq::<JsonView>::empty());
            assert(one.last() == x@);
            assert(keys_from(one.drop_last()) == Seq::<KeyView>::empty());
            assert(!(x@ is Array) ==> private_keys_of(opt_view(v)) == keys_from(one));
            match key_from(x) {
                Some(k) => {
                    out.push(k);
                    assert(keys_view(out@) =~= seq![k@]);
                },
                None => {
                    assert(keys_view(out@) =~= Seq::<KeyView>::empty());
                },
            }
        },
        None => {
            assert(keys_view(out@) =~= Seq::<KeyView>::empty());
        },
    }
    out
}

pub open spec fn issue_of(
    field: Seq<char>,
    severity: CompatibilityIssueSeverity,
    message: Seq<char>,
) -> IssueView {
    IssueView { field, severity, message }
}

pub fn issue(field: String, severity: CompatibilityIssueSeverity, message: String) -> (r:
    CompatibilityIssue)
    ensures
        r@ == issue_of(field@, severity, message@),
{
    CompatibilityIssue { field, severity, message }
}

fn push_issue(
    issues: &mut Vec<CompatibilityIssue>,
    field: String,
    severity: CompatibilityIssueSeverity,
    message: String,
)
    ensures
        issues_view(final(issues)@) == issues_view(old(issues)@).push(
            issue_of(field@, severity, message@),
        ),
{
    let i = issue(field, severity, message);
    let ghost prev = issues@;
    issues.push(i);
    assert(issues_view(issues@) =~= issues_view(prev).push(i@));
}

/// `i` is the first entry named `k`.
pub open spec fn first_key_at(env: Seq<(Seq<char>, Seq<char>)>, k: Seq<char>, i: int) -> bool {
    0 <= i < env.len() && env[i].0 == k && forall|j: int| 0 <= j < i ==> env[j].0 != k
}

/// The value of variable `k`.
pub open spec fn env_get(env: Seq<(Seq<char>, Seq<char>)>, k: Seq<char>) -> Option<Seq<char>> {
    if exists|i: int| first_key_at(env, k, i) {
        Some(env[choose|i: int| first_key_at(env, k, i)].1)
    } else {
        None
    }
}

fn env_lookup(env: &Vec<(String, String)>, k: &str) -> (r: Option<String>)
    ensures
        opt_str(r) == env_get(pairs_view(env@), k@),
{
    let ghost pv = pairs_view(env@);
    let mut i: usize = 0;
    while i < env.len()
        invariant
            i <= env.len(),
            pv == pairs_view(env@),
            forall|j: int| 0 <= j < i ==> env@[j].0@ != k@,
        decreases env.len() - i,
    {
        if str_eq(env[i].0.as_str(), k) {
            proof {
                assert(first_key_at(pv, k@, i as int));
                let c = choose|c: int| first_key_at(pv, k@, c);
                if c < i {
                    assert(pv[c].0 == env@[c].0@);
                }
                if i < c {
                    assert(pv[i as int].0 == k@);
                }
            }
            return Some(env[i].1.clone());
        }
        i += 1;
    }
    proof {
        if exists|c: int| first_key_at(pv, k@, c) {
            let c = choose|c: int| first_key_at(pv, k@, c);
            assert(pv[c].0 == env@[c].0@);
        }
    }
    None
}

/// No two entries of an environment share a name, as in a map.
pub open spec fn distinct_keys(env: Seq<(Seq<char>, Seq<char>)>) -> bool {
    forall|i: int, j: int| 0 <= i < j < env.len() ==> (#[trigger] env[i]).0 != (#[trigger] env[j]).0
}

/// The value last given to the name `k`.
pub open spec fn last_value(env: Seq<(Seq<char>, Seq<char>)>, k: Seq<char>) -> Option<Seq<char>>
    decreases env.len(),
{
    if env.len() == 0 {
        None
    } else if env.last().0 == k {
        Some(env.last().1)
    } else {
        last_value(env.drop_last(), k)
    }
}

/// In an environment without repeated names, a name's value is that of its
/// one entry.
proof fn lemma_env_get_distinct(env: Seq<(Seq<char>, Seq<char>)>, k: Seq<char>, j: int)
    requires
        distinct_keys(env),
        0 <= j < env.len(),
        env[j].0 == k,
    ensures
        env_get(env, k) == Some(env[j].1),
{
    assert forall|i: int| 0 <= i < j implies env[i].0 != k by {
        assert(env[i].0 != env[j].0);
    }
    assert(first_key_at(env, k, j));
    let c = choose|c: int| first_key_at(env, k, c);
    if c != j {
        if c < j {
            assert(env[c].0 != env[j].0);
        } else {
            assert(env[j].0 != env[c].0);
        }
    }
}

/// Variables gathered as a map gathers them: one entry per name, holding the
/// value given last for it.
pub fn environment_of(vars: Vec<(String, String)>) -> (r: Vec<(String, String)>)
    ensures
        distinct_keys(pairs_view(r@)),
        forall|k: Seq<char>| #[trigger] env_get(pairs_view(r@), k) == last_value(pairs_view(vars@), k),
{
    let ghost given = pairs_view(vars@);
    let mut out: Vec<(String, String)> = Vec::new();
    let mut i: usize = 0;
    while i < vars.len()
        invariant
            i <= vars.len(),
            given == pairs_view(vars@),
            distinct_keys(pairs_view(out@)),
            forall|k: Seq<char>|
                #[trigger] env_get(pairs_view(out@), k) == last_value(given.take(i as int), k),
        decreases vars.len() - i,
    {
        let key = vars[i].0.clone();
        let value = vars[i].1.clone();
        let ghost before = pairs_view(out@);
        assert(key@ == given[i as int].0);
        let mut j: usize = 0;
        while j < out.len() && !str_eq(out[j].0.as_str(), key.as_str())
            invariant
                j <= out.len(),
                forall|m: int| 0 <= m < j ==> out@[m].0@ != key@,
            decreases out.len() - j,
        {
            j += 1;
        }
        proof {
            if j < out.len() {
                assert(before[j as int].0 == key@);
            }
        }
        if j < out.len() {
            out.set(j, (key, value));
        } else {
            out.push((key, value));
        }
        proof {
            let after = pairs_view(out@);
            let k0 = given[i as int].0;
            assert(given.take(i + 1).drop_last() =~= given.take(i as int));
            assert(given.take(i + 1).last() == given[i as int]);
            assert(after[j as int] == given[i as int]);
            assert(key@ == k0);
            assert forall|m: int| 0 <= m < after.len() && m != j implies after[m] == before[m] && after[m].0 != k0 by {
                assert(after[m] == before[m]);
                if m < j {
                    assert(before[m].0 == out@[m].0@);
                } else {
                    assert(before[j as int].0 == k0);
                    assert(before[j as int].0 != before[m].0);
                }
            }
            assert forall|a: int, b: int| 0 <= a < b < after.len() implies (#[trigger] after[a]).0 != (
            #[trigger] after[b]).0 by {
                if a != j && b != j {
                    assert(before[a].0 != before[b].0);
                }
            }
            assert forall|k: Seq<char>|
                #[trigger] env_get(after, k) == last_value(given.take(i + 1), k) by {
                if k == k0 {
                    lemma_env_get_distinct(after, k, j as int);
                } else {
                    if exists|m: int| 0 <= m < before.len() && before[m].0 == k {
                        let m = choose|m: int| 0 <= m < before.len() && before[m].0 == k;
                        lemma_env_get_distinct(before, k, m);
                        lemma_env_get_distinct(after, k, m);
                    } else {
                        assert(env_get(before, k) is None);
                        assert(!exists|c: int| first_key_at(after, k, c));
                    }
                }
            }
        }
        i += 1;
    }
    assert(given.take(vars.len() as int) =~= given);
    out
}

/// The authentication mode: the options' `auth`, else the profile's.
pub open spec fn mode_of(p: ProfileView, options: Members) -> Seq<char> {
    match text_of(member_get(options, "auth"@)) {
        Some(m) => m,
        None => p.auth,
    }
}

/// The password: the UI's non-empty one, else the non-empty value of the
/// environment variable that `password_env` names.
pub open spec fn password_of(options: Members, ov: CredentialsView, env: Seq<(Seq<char>, Seq<char>)>) -> Option<
    Seq<char>,
> {
    match ov.password {
        Some(pw) if pw.len() > 0 => Some(pw),
        _ => match text_of(member_get(options, "password_env"@)) {
            Some(name) => match env_get(env, name) {
                Some(v) => non_empty_of(v),
                None => None,
            },
            None => None,
        },
    }
}

/// The private keys: the UI's, else the ones the options list.
pub open spec fn keys_for(options: Members, ov: CredentialsView) -> Seq<KeyView> {
    match ov.private_keys {
        Some(k) => k,
        None => private_keys_of(either_key(options, "privateKeys"@, "private_keys"@)),
    }
}

/// The agent the options configure: a socket path, or the default agent
/// when `agent` is true.
pub open spec fn configured_agent_of(options: Members) -> Option<AgentView> {
    match text_of(member_get(options, "identityAgent"@)) {
        Some(p) => Some(AgentView::Path(p)),
        None => match text_of(member_get(options, "identity_agent"@)) {
            Some(p) => Some(AgentView::Path(p)),
            None => if member_get(options, "agent"@) == Some(JsonView::Bool(true)) {
                Some(AgentView::Default)
            } else {
                None
            },
        },
    }
}

/// The agent: the UI's, else per mode: `agent` uses the configured agent or
/// the default one, no mode and `publicKey` the configured one, others none.
pub open spec fn agent_of(mode: Seq<char>, options: Members, ov: CredentialsView) -> Option<AgentView> {
    match ov.agent {
        Some(a) => Some(a),
        None => if mode == "agent"@ {
            match configured_agent_of(options) {
                Some(a) => Some(a),
                None => Some(AgentView::Default),
            }
        } else if mode.len() == 0 || mode == "publicKey"@ {
            configured_agent_of(options)
        } else {
            None
        },
    }
}

pub open spec fn auth_of(
    p: ProfileView,
    options: Members,
    ov: CredentialsView,
    env: Seq<(Seq<char>, Seq<char>)>,
) -> AuthView {
    AuthView {
        password: password_of(options, ov, env),
        private_keys: keys_for(options, ov),
        agent: agent_of(mode_of(p, options), options, ov),
    }
}

/// "Target" or "Jump host", by the field prefix.
pub open spec fn who_of(prefix: Seq<char>) -> Seq<char> {
    if prefix.len() == 0 {
        "Target"@
    } else {
        "Jump host"@
    }
}

pub open spec fn password_cmd_message() -> Seq<char> {
    "password_cmd is not executed by the TUI; prompt for a password or resolve it before connecting"@
}

pub open spec fn interactive_message() -> Seq<char> {
    "Interactive challenge/response authentication is not supported by the SFTP client"@
}

/// The issues of a connection's authentication, in the order they are found,
/// given its mode and credentials.
pub open spec fn auth_issues_for(
    options: Members,
    mode: Seq<char>,
    a: AuthView,
    prefix: Seq<char>,
) -> Seq<IssueView> {
    let i1 = if member_get(options, "password_cmd"@) is Some && a.password is None {
        seq![
            issue_of(
                prefix + "password_cmd"@,
                CompatibilityIssueSeverity::NeedsInput,
                password_cmd_message(),
            ),
        ]
    } else {
        Seq::empty()
    };
    let i2 = if (mode == "password"@ || mode == "keyboardInteractive"@) && a.password is None {
        seq![
            issue_of(
                prefix + "password"@,
                CompatibilityIssueSeverity::NeedsInput,
                who_of(prefix) + " password must be supplied by the UI"@,
            ),
        ]
    } else {
        Seq::empty()
    };
    let i3 = if mode == "publicKey"@ && a.private_keys.len() == 0 && a.agent is None {
        seq![
            issue_of(
                prefix + "privateKeys"@,
                CompatibilityIssueSeverity::NeedsInput,
                who_of(prefix) + " private key is not present in the snapshot"@,
            ),
        ]
    } else {
        Seq::empty()
    };
    let i4 = if mode == "keyboardInteractive"@ {
        seq![
            issue_of(
                prefix + "auth"@,
                CompatibilityIssueSeverity::Unsupported,
                interactive_message(),
            ),
        ]
    } else if mode.len() > 0 && !(mode == "password"@ || mode == "publicKey"@ || mode == "agent"@) {
        seq![
            issue_of(
                prefix + "auth"@,
                CompatibilityIssueSeverity::Unsupported,
                "Authentication mode "@ + mode + " is not supported by the SFTP client"@,
            ),
        ]
    } else {
        Seq::empty()
    };
    i1 + i2 + i3 + i4
}

/// The issues of a profile connection's authentication.
pub open spec fn auth_issues(
    p: ProfileView,
    options: Members,
    ov: CredentialsView,
    env: Seq<(Seq<char>, Seq<char>)>,
    prefix: Seq<char>,
) -> Seq<IssueView> {
    auth_issues_for(options, mode_of(p, options), auth_of(p, options, ov, env), prefix)
}

/// The authentication rules of a connection in one statement: the agent
/// is the override, else for `agent` the configured one or the default,
/// for no mode or `publicKey` the configured one; password modes without a
/// password ask for one, `publicKey` without keys or agent asks for keys,
/// and a mode other than password, publicKey and agent is unsupported.
pub proof fn lemma_authentication_rules(
    p: ProfileView,
    options: Members,
    ov: CredentialsView,
    env: Seq<(Seq<char>, Seq<char>)>,
    prefix: Seq<char>,
)
    ensures
        ({
            let m = mode_of(p, options);
            let a = auth_of(p, options, ov, env);
            let issues = auth_issues(p, options, ov, env, prefix);
            &&& a.agent == match ov.agent {
                Some(o) => Some(o),
                None => if m == "agent"@ {
                    match configured_agent_of(options) {
                        Some(c) => Some(c),
                        None => Some(AgentView::Default),
                    }
                } else if m.len() == 0 || m == "publicKey"@ {
                    configured_agent_of(options)
                } else {
                    None
                },
            }
            &&& (m == "password"@ || m == "keyboardInteractive"@) && a.password is None ==> exists|k: int|
                0 <= k < issues.len() && (#[trigger] issues[k]).field == prefix + "password"@
                    && issues[k].severity == CompatibilityIssueSeverity::NeedsInput
            &&& m == "publicKey"@ && a.private_keys.len() == 0 && a.agent is None ==> exists|k: int|
                0 <= k < issues.len() && (#[trigger] issues[k]).field == prefix + "privateKeys"@
                    && issues[k].severity == CompatibilityIssueSeverity::NeedsInput
            &&& !(m.len() == 0 || m == "password"@ || m == "publicKey"@ || m == "agent"@) ==> exists|k: int|
                0 <= k < issues.len() && (#[trigger] issues[k]).field == prefix + "auth"@
                    && issues[k].severity == CompatibilityIssueSeverity::Unsupported
        }),
{
    let m = mode_of(p, options);
    let a = auth_of(p, options, ov, env);
    let issues = auth_issues(p, options, ov, env, prefix);
    let i1 = if member_get(options, "password_cmd"@) is Some && a.password is None {
        seq![
            issue_of(
                prefix + "password_cmd"@,
                CompatibilityIssueSeverity::NeedsInput,
                password_cmd_message(),
            ),
        ]
    } else {
        Seq::empty()
    };
    let l1 = i1.len() as int;
    let i2len: int = if (m == "password"@ || m == "keyboardInteractive"@) && a.password is None {
        1
    } else {
        0
    };
    let i3len: int = if m == "publicKey"@ && a.private_keys.len() == 0 && a.agent is None {
        1
    } else {
        0
    };
    if (m == "password"@ || m == "keyboardInteractive"@) && a.password is None {
        assert(issues[l1].field == prefix + "password"@);
    }
    if m == "publicKey"@ && a.private_keys.len() == 0 && a.agent is None {
        assert(issues[l1 + i2len].field == prefix + "privateKeys"@);
    }
    if !(m.len() == 0 || m == "password"@ || m == "publicKey"@ || m == "agent"@) {
        assert(issues[l1 + i2len + i3len].field == prefix + "auth"@);
    }
}

fn who(prefix: &str) -> (r: &'static str)
    ensures
        r@ == who_of(prefix@),
{
    if prefix.is_empty() {
        "Target"
    } else {
        "Jump host"
    }
}

fn clone_keys(v: &Vec<PrivateKeySource>) -> (r: Vec<PrivateKeySource>)
    ensures
        keys_view(r@) == keys_view(v@),
{
    let mut out: Vec<PrivateKeySource> = Vec::new();
    let mut i: usize = 0;
    while i < v.len()
        invariant
            i <= v.len(),
            keys_view(out@) == keys_view(v@.take(i as int)),
        decreases v.len() - i,
    {
        let k = PrivateKeySource {
            path: crate::types::clone_opt_string(&v[i].path),
            data: match &v[i].data {
                Some(d) => Some(d.clone()),
                None => None,
            },
            passphrase: crate::types::clone_opt_string(&v[i].passphrase),
        };
        let ghost prev = out@;
        out.push(k);
        assert(keys_view(out@) =~= keys_view(prev).push(v@[i as int]@));
        assert(keys_view(v@.take(i + 1)) =~= keys_view(v@.take(i as int)).push(v@[i as int]@));
        i += 1;
    }
    assert(v@.take(i as int) =~= v@);
    out
}

fn clone_agent(a: &Option<AgentEndpoint>) -> (r: Option<AgentEndpoint>)
    ensures
        opt_agent(r) == opt_agent(*a),
{
    match a {
        Some(AgentEndpoint::Default) => Some(AgentEndpoint::Default),
        Some(AgentEndpoint::Path(p)) => Some(AgentEndpoint::Path(p.clone())),
        None => None,
    }
}

fn either<'a>(o: &'a JsonObject, a: &str, b: &str) -> (r: Option<&'a JsonValue>)
    ensures
        opt_view(r) == either_key(o@, a@, b@),
{
    match o.get(a) {
        Some(v) => Some(v),
        None => o.get(b),
    }
}

fn auth_mode(profile: &Profile, options: &JsonObject) -> (r: String)
    ensures
        r@ == mode_of(profile@, options@),
{
    match text(options.get("auth")) {
        Some(m) => m,
        None => profile.auth.clone(),
    }
}

fn password_for(
    options: &JsonObject,
    overrides: &CredentialOverrides,
    environment: &Vec<(String, String)>,
) -> (r: Option<String>)
    ensures
        opt_str(r) == password_of(options@, overrides@, pairs_view(environment@)),
{
    match &overrides.password {
        Some(pw) => {
            if !pw.as_str().is_empty() {
                return Some(pw.clone());
            }
        },
        None => {},
    }
    match text(options.get("password_env")) {
        Some(name) => match env_lookup(environment, name.as_str()) {
            Some(v) => non_empty(v.as_str()),
            None => None,
        },
        None => None,
    }
}

fn agent_for(mode: &str, options: &JsonObject, overrides: &CredentialOverrides) -> (r: Option<
    AgentEndpoint,
>)
    ensures
        opt_agent(r) == agent_of(mode@, options@, overrides@),
{
    if overrides.agent.is_some() {
        return clone_agent(&overrides.agent);
    }
    let configured_agent: Option<AgentEndpoint> = match text(options.get("identityAgent")) {
        Some(p) => Some(AgentEndpoint::Path(p)),
        None => match text(options.get("identity_agent")) {
            Some(p) => Some(AgentEndpoint::Path(p)),
            None => match options.get("agent") {
                Some(JsonValue::Bool(b)) => if *b {
                    Some(AgentEndpoint::Default)
                } else {
                    None
                },
                _ => None,
            },
        },
    };
    assert(opt_agent(configured_agent) == configured_agent_of(options@));
    if str_eq(mode, "agent") {
        match configured_agent {
            Some(a) => Some(a),
            None => Some(AgentEndpoint::Default),
        }
    } else if mode.is_empty() || str_eq(mode, "publicKey") {
        configured_agent
    } else {
        None
    }
}

fn push_auth_issues(
    issues: &mut Vec<CompatibilityIssue>,
    options: &JsonObject,
    mode: &str,
    auth: &SftpAuthentication,
    prefix: &str,
)
    ensures
        issues_view(final(issues)@) == issues_view(old(issues)@) + auth_issues_for(
            options@,
            mode@,
            auth@,
            prefix@,
        ),
{
    let ghost start = issues_view(issues@);
    let is_password = str_eq(mode, "password");
    let is_interactive = str_eq(mode, "keyboardInteractive");
    let no_password = auth.password.is_none();
    if options.get("password_cmd").is_some() && no_password {
        push_issue(
            issues,
            concat(prefix, "password_cmd"),
            CompatibilityIssueSeverity::NeedsInput,
            "password_cmd is not executed by the TUI; prompt for a password or resolve it before connecting".to_owned(),
        );
    }
    let ghost after1 = issues_view(issues@);
    if (is_password || is_interactive) && no_password {
        push_issue(
            issues,
            concat(prefix, "password"),
            CompatibilityIssueSeverity::NeedsInput,
            concat(who(prefix), " password must be supplied by the UI"),
        );
    }
    let ghost after2 = issues_view(issues@);
    proof {
        assert(keys_view(auth.private_keys@).len() == auth.private_keys@.len());
    }
    if str_eq(mode, "publicKey") && auth.private_keys.len() == 0 && auth.agent.is_none() {
        push_issue(
            issues,
            concat(prefix, "privateKeys"),
            CompatibilityIssueSeverity::NeedsInput,
            concat(who(prefix), " private key is not present in the snapshot"),
        );
    }
    let ghost after3 = issues_view(issues@);
    if is_interactive {
        push_issue(
            issues,
            concat(prefix, "auth"),
            CompatibilityIssueSeverity::Unsupported,
            "Interactive challenge/response authentication is not supported by the SFTP client".to_owned(),
        );
    } else if !mode.is_empty() && !(is_password || str_eq(mode, "publicKey") || str_eq(
        mode,
        "agent",
    )) {
        let mut message = "Authentication mode ".to_owned();
        message.append(mode);
        message.append(" is not supported by the SFTP client");
        push_issue(issues, concat(prefix, "auth"), CompatibilityIssueSeverity::Unsupported, message);
    }
    assert(issues_view(issues@) =~= start + auth_issues_for(options@, mode@, auth@, prefix@));
}

pub fn authentication_for(
    profile: &Profile,
    options: &JsonObject,
    overrides: &CredentialOverrides,
    environment: &Vec<(String, String)>,
    issues: &mut Vec<CompatibilityIssue>,
    prefix: &str,
) -> (r: SftpAuthentication)
    ensures
        r@ == auth_of(profile@, options@, overrides@, pairs_view(environment@)),
        issues_view(final(issues)@) == issues_view(old(issues)@) + auth_issues(
            profile@,
            options@,
            overrides@,
            pairs_view(environment@),
            prefix@,
        ),
{
    let mode = auth_mode(profile, options);
    let private_keys = match &overrides.private_keys {
        Some(k) => clone_keys(k),
        None => parse_private_keys(either(options, "privateKeys", "private_keys")),
    };
    let password = password_for(options, overrides, environment);
    let agent = agent_for(mode.as_str(), options, overrides);
    let auth = SftpAuthentication { password, private_keys, agent };
    push_auth_issues(issues, options, mode.as_str(), &auth, prefix);
    auth
}

/// A connection of a profile, without its jump host.
pub open spec fn hop_of(
    p: ProfileView,
    ov: CredentialsView,
    env: Seq<(Seq<char>, Seq<char>)>,
) -> HopView {
    let options = options_of(p);
    HopView {
        host: match text_of(member_get(options, "host"@)) {
            Some(h) => h,
            None => if p.host.len() > 0 {
                p.host
            } else {
                p.name
            },
        },
        port: match positive_of(member_get(options, "port"@)) {
            Some(n) => if n <= u32::MAX {
                n as u32
            } else if p.port > 0 {
                p.port
            } else {
                22
            },
            None => if p.port > 0 {
                p.port
            } else {
                22
            },
        },
        username: match text_of(member_get(options, "user"@)) {
            Some(u) => Some(u),
            None => non_empty_of(p.user),
        },
        authentication: auth_of(p, options, ov, env),
        ready_timeout: duration_of(either_key(options, "readyTimeout"@, "ready_timeout"@)),
        keepalive_interval: duration_of(
            either_key(options, "keepaliveInterval"@, "keepalive_interval"@),
        ),
        keepalive_count_max: match positive_of(
            either_key(options, "keepaliveCountMax"@, "keepalive_count_max"@),
        ) {
            Some(n) => if n <= usize::MAX {
                Some(n as usize)
            } else {
                None
            },
            None => None,
        },
    }
}

pub fn base_connection(
    profile: &Profile,
    overrides: &CredentialOverrides,
    environment: &Vec<(String, String)>,
    issues: &mut Vec<CompatibilityIssue>,
    prefix: &str,
) -> (r: SftpConnectionOptions)
    ensures
        r.hop() == hop_of(profile@, overrides@, pairs_view(environment@)),
        r.jump is None,
        issues_view(final(issues)@) == issues_view(old(issues)@) + auth_issues(
            profile@,
            options_of(profile@),
            overrides@,
            pairs_view(environment@),
            prefix@,
        ),
{
    let options = options_of_profile(profile);
    let host = match text(options.get("host")) {
        Some(h) => h,
        None => if !profile.host.as_str().is_empty() {
            profile.host.clone()
        } else {
            profile.name.clone()
        },
    };
    let username = match text(options.get("user")) {
        Some(u) => Some(u),
        None => non_empty(profile.user.as_str()),
    };
    let fallback_port: u32 = if profile.port > 0 {
        profile.port
    } else {
        22
    };
    let port: u32 = match positive_number(options.get("port")) {
        Some(n) => if n <= 4294967295 {
            n as u32
        } else {
            fallback_port
        },
        None => fallback_port,
    };
    let ready_timeout = duration_option(either(&options, "readyTimeout", "ready_timeout"));
    let keepalive_interval = duration_option(
        either(&options, "keepaliveInterval", "keepalive_interval"),
    );
    let keepalive_count_max = match positive_number(
        either(&options, "keepaliveCountMax", "keepalive_count_max"),
    ) {
        Some(n) => if n as u128 <= usize::MAX as u128 {
            Some(n as usize)
        } else {
            None
        },
        None => None,
    };
    let authentication = authentication_for(
        profile,
        &options,
        overrides,
        environment,
        issues,
        prefix,
    );
    SftpConnectionOptions {
        host,
        port,
        username,
        authentication,
        ready_timeout,
        keepalive_interval,
        keepalive_count_max,
        jump: None,
    }
}

/// The setting `key` is present and neither null nor empty text.
pub open spec fn set_option(options: Members, key: Seq<char>) -> bool {
    match member_get(options, key) {
        Some(v) => !crate::model::should_drop(v),
        None => false,
    }
}

/// The issue for an unsupported proxy setting, when it is set.
pub open spec fn proxy_issue(options: Members, key: Seq<char>, prefix: Seq<char>) -> Seq<IssueView> {
    if set_option(options, key) {
        seq![
            issue_of(
                prefix + key,
                CompatibilityIssueSeverity::Unsupported,
                key + " is not supported by the integrated SFTP client"@,
            ),
        ]
    } else {
        Seq::empty()
    }
}

/// A warning about a setting that is ignored, when it is present.
pub open spec fn ignored_issue(options: Members, key: Seq<char>, prefix: Seq<char>, message: Seq<char>) -> Seq<IssueView> {
    if member_get(options, key) is Some {
        seq![issue_of(prefix + key, CompatibilityIssueSeverity::Warning, message)]
    } else {
        Seq::empty()
    }
}

pub open spec fn algorithms_message() -> Seq<char> {
    "Custom OpenSSH algorithm lists are not mapped to russh and will be ignored"@
}

pub open spec fn ssh_options_message() -> Seq<char> {
    "Arbitrary OpenSSH -o options are not interpreted by russh and will be ignored"@
}

pub open spec fn host_key_message() -> Seq<char> {
    "OpenSSH host-key policy is not mapped automatically; provide a host verifier when required"@
}

/// The issues of settings the integrated client does not support.
pub open spec fn unsupported_issues(p: ProfileView, prefix: Seq<char>) -> Seq<IssueView> {
    let o = options_of(p);
    proxy_issue(o, "proxyCommand"@, prefix) + proxy_issue(o, "proxy_command"@, prefix)
        + proxy_issue(o, "socksProxyHost"@, prefix) + proxy_issue(o, "httpProxyHost"@, prefix)
        + ignored_issue(o, "algorithms"@, prefix, algorithms_message()) + ignored_issue(
        o,
        "ssh_options"@,
        prefix,
        ssh_options_message(),
    ) + ignored_issue(o, "host_key_policy"@, prefix, host_key_message())
}

fn push_proxy_issue(issues: &mut Vec<CompatibilityIssue>, options: &JsonObject, key: &str, prefix: &str)
    ensures
        issues_view(final(issues)@) == issues_view(old(issues)@) + proxy_issue(
            options@,
            key@,
            prefix@,
        ),
{
    let set = match options.get(key) {
        Some(v) => !crate::model::should_remove(v),
        None => false,
    };
    if set {
        push_issue(
            issues,
            concat(prefix, key),
            CompatibilityIssueSeverity::Unsupported,
            concat(key, " is not supported by the integrated SFTP client"),
        );
    }
    assert(issues_view(final(issues)@) =~= issues_view(old(issues)@) + proxy_issue(
        options@,
        key@,
        prefix@,
    ));
}

fn push_ignored_issue(
    issues: &mut Vec<CompatibilityIssue>,
    options: &JsonObject,
    key: &str,
    prefix: &str,
    message: &str,
)
    ensures
        issues_view(final(issues)@) == issues_view(old(issues)@) + ignored_issue(
            options@,
            key@,
            prefix@,
            message@,
        ),
{
    if options.get(key).is_some() {
        push_issue(issues, concat(prefix, key), CompatibilityIssueSeverity::Warning, message.to_owned());
    }
    assert(issues_view(final(issues)@) =~= issues_view(old(issues)@) + ignored_issue(
        options@,
        key@,
        prefix@,
        message@,
    ));
}

pub fn add_unsupported_options(profile: &Profile, issues: &mut Vec<CompatibilityIssue>, prefix: &str)
    ensures
        issues_view(final(issues)@) == issues_view(old(issues)@) + unsupported_issues(
            profile@,
            prefix@,
        ),
{
    let options = options_of_profile(profile);
    let ghost start = issues_view(issues@);
    push_proxy_issue(issues, &options, "proxyCommand", prefix);
    push_proxy_issue(issues, &options, "proxy_command", prefix);
    push_proxy_issue(issues, &options, "socksProxyHost", prefix);
    push_proxy_issue(issues, &options, "httpProxyHost", prefix);
    push_ignored_issue(
        issues,
        &options,
        "algorithms",
        prefix,
        "Custom OpenSSH algorithm lists are not mapped to russh and will be ignored",
    );
    push_ignored_issue(
        issues,
        &options,
        "ssh_options",
        prefix,
        "Arbitrary OpenSSH -o options are not interpreted by russh and will be ignored",
    );
    push_ignored_issue(
        issues,
        &options,
        "host_key_policy",
        prefix,
        "OpenSSH host-key policy is not mapped automatically; provide a host verifier when required",
    );
    assert(issues_view(issues@) =~= start + unsupported_issues(profile@, prefix@));
}

/// A port: a whole number from 1 to `u32::MAX`, as `u32::from_str` reads it.
pub open spec fn port_text_of(s: Seq<char>) -> Option<u32> {
    match uint_within(s, u32::MAX as u64) {
        Some(n) => if n > 0 {
            Some(n as u32)
        } else {
            None
        },
        None => None,
    }
}

fn port_text(s: &str) -> (r: Option<u32>)
    ensures
        r == port_text_of(s@),
{
    match parse_uint(s, 4294967295) {
        Some(n) => if n > 0 {
            Some(n as u32)
        } else {
            None
        },
        None => None,
    }
}

/// An inline jump host: host, optional port, optional user name.
pub struct JumpTarget {
    pub host: Seq<char>,
    pub port: Option<u32>,
    pub username: Option<Seq<char>>,
}

/// `[user@]host[:port]` with the user up to the last `@`, an IPv6 host in
/// brackets, and a port only where the host has no other colon; the host
/// must not be empty.
pub open spec fn jump_target_of(value: Seq<char>) -> Option<JumpTarget> {
    let t = trim(value);
    if t.len() == 0 {
        None
    } else {
        let (username, rest) = match rfind_char(t, '@') {
            Some(at) => (non_empty_of(t.take(at)), t.skip(at + 1)),
            None => (None, t),
        };
        let hp: Option<(Seq<char>, Option<u32>)> = if rest.len() > 0 && rest[0] == '[' {
            let b = rest.skip(1);
            match find_char(b, ']') {
                Some(c) => {
                    let suffix = b.skip(c + 1);
                    Some(
                        (
                            b.take(c),
                            if suffix.len() > 0 && suffix[0] == ':' {
                                port_text_of(suffix.skip(1))
                            } else {
                                None
                            },
                        ),
                    )
                },
                None => None,
            }
        } else {
            match rfind_char(rest, ':') {
                Some(colon) => if colon > 0 && find_char(rest, ':') == Some(colon) {
                    match port_text_of(rest.skip(colon + 1)) {
                        Some(pt) => Some((rest.take(colon), Some(pt))),
                        None => Some((rest, None)),
                    }
                } else {
                    Some((rest, None))
                },
                None => Some((rest, None)),
            }
        };
        match hp {
            Some((h, port)) => if h.len() > 0 {
                Some(JumpTarget { host: h, port, username })
            } else {
                None
            },
            None => None,
        }
    }
}

/// `jump_target_of`, as strings.
pub fn parse_jump_target(value: &str) -> (r: Option<(String, Option<u32>, Option<String>)>)
    ensures
        match r {
            Some((h, port, user)) => jump_target_of(value@) == Some(
                JumpTarget { host: h@, port, username: opt_str(user) },
            ),
            None => jump_target_of(value@) is None,
        },
{
    let trimmed = trim_string(value);
    let t = chars_of(trimmed.as_str());
    if t.len() == 0 {
        return None;
    }
    let mut username: Option<String> = None;
    let mut start: usize = 0;
    match rfind_char_in(&t, '@') {
        Some(at) => {
            let u = string_from_range(&t, 0, at);
            username = non_empty(u.as_str());
            start = at + 1;
        },
        None => {},
    }
    let rest_s = string_from_range(&t, start, t.len());
    let rest = chars_of(rest_s.as_str());
    proof {
        match rfind_char(t@, '@') {
            Some(at) => {
                assert(rest@ =~= t@.skip(at + 1));
            },
            None => {
                assert(rest@ =~= t@);
            },
        }
    }
    let (host, port): (String, Option<u32>) = if rest.len() > 0 && rest[0] == '[' {
        let b_s = string_from_range(&rest, 1, rest.len());
        let b = chars_of(b_s.as_str());
        assert(b@ =~= rest@.skip(1));
        match find_char_in(&b, ']') {
            Some(c) => {
                let host = string_from_range(&b, 0, c);
                let sfx = string_from_range(&b, c + 1, b.len());
                let sc = chars_of(sfx.as_str());
                assert(sc@ =~= b@.skip(c + 1));
                assert(host@ =~= b@.take(c as int));
                let port = if sc.len() > 0 && sc[0] == ':' {
                    let tail = string_from_range(&sc, 1, sc.len());
                    assert(tail@ =~= sc@.skip(1));
                    port_text(tail.as_str())
                } else {
                    None
                };
                (host, port)
            },
            None => {
                return None;
            },
        }
    } else {
        match rfind_char_in(&rest, ':') {
            Some(colon) => {
                let first = find_char_in(&rest, ':');
                if colon > 0 && first == Some(colon) {
                    let tail = string_from_range(&rest, colon + 1, rest.len());
                    assert(tail@ =~= rest@.skip(colon + 1));
                    match port_text(tail.as_str()) {
                        Some(pt) => {
                            let host = string_from_range(&rest, 0, colon);
                            assert(host@ =~= rest@.take(colon as int));
                            (host, Some(pt))
                        },
                        None => (rest_s, None),
                    }
                } else {
                    (rest_s, None)
                }
            },
            None => (rest_s, None),
        }
    };
    if host.as_str().is_empty() {
        None
    } else {
        Some((host, port, username))
    }
}

/// The jump host a profile names: the options' `jumpHost`, else the profile's.
pub open spec fn jump_spec_of(p: ProfileView) -> Option<Seq<char>> {
    match text_of(either_key(options_of(p), "jumpHost"@, "jump_host"@)) {
        Some(j) => Some(j),
        None => non_empty_of(p.jump_host),
    }
}

fn jump_spec(profile: &Profile) -> (r: Option<String>)
    ensures
        opt_str(r) == jump_spec_of(profile@),
{
    let options = options_of_profile(profile);
    match text(either(&options, "jumpHost", "jump_host")) {
        Some(j) => Some(j),
        None => non_empty(profile.jump_host.as_str()),
    }
}

/// The profile's id or name is `name`.
pub open spec fn is_named(p: ProfileView, name: Seq<char>) -> bool {
    p.id == name || p.name == name
}

/// `i` is the first profile whose id or name is `name`.
pub open spec fn named_at(ps: Seq<ProfileView>, name: Seq<char>, i: int) -> bool {
    &&& 0 <= i < ps.len()
    &&& is_named(ps[i], name)
    &&& forall|j: int| 0 <= j < i ==> !is_named(#[trigger] ps[j], name)
}

/// The first profile whose id or name is `name`.
pub open spec fn find_profile(ps: Seq<ProfileView>, name: Seq<char>) -> Option<ProfileView> {
    if exists|i: int| named_at(ps, name, i) {
        Some(ps[choose|i: int| named_at(ps, name, i)])
    } else {
        None
    }
}

fn find_jump_profile<'a>(profiles: &'a Vec<Profile>, name: &str) -> (r: Option<&'a Profile>)
    ensures
        match r {
            Some(p) => find_profile(crate::types::profiles_view(profiles@), name@) == Some(p@),
            None => find_profile(crate::types::profiles_view(profiles@), name@) is None,
        },
{
    let ghost pv = crate::types::profiles_view(profiles@);
    let mut i: usize = 0;
    while i < profiles.len()
        invariant
            i <= profiles.len(),
            pv == crate::types::profiles_view(profiles@),
            forall|j: int| 0 <= j < i ==> !is_named(#[trigger] pv[j], name@),
        decreases profiles.len() - i,
    {
        if str_eq(profiles[i].id.as_str(), name) || str_eq(profiles[i].name.as_str(), name) {
            proof {
                assert(pv[i as int] == profiles@[i as int]@);
                assert(named_at(pv, name@, i as int));
                let c = choose|c: int| named_at(pv, name@, c);
                if c < i {
                    assert(!is_named(pv[c], name@));
                }
                if i < c {
                    assert(is_named(pv[i as int], name@));
                }
            }
            return Some(&profiles[i]);
        }
        assert(pv[i as int] == profiles@[i as int]@);
        i += 1;
    }
    proof {
        if exists|c: int| named_at(pv, name@, c) {
            let c = choose|c: int| named_at(pv, name@, c);
            assert(!is_named(pv[c], name@));
        }
    }
    None
}

pub open spec fn comma_message() -> Seq<char> {
    "Only one jump host is supported; comma-separated chains require OpenSSH"@
}

pub open spec fn nested_message() -> Seq<char> {
    "Nested jump profiles are not supported; select a profile with one jump host"@
}

/// What a profile's connection is: the target, the jump host before it,
/// and the issues found in order.
pub struct PlanView {
    pub target: HopView,
    pub jump: Option<HopView>,
    pub issues: Seq<IssueView>,
}

/// The connection plan of a profile: its jump host is a profile named by id
/// or name, else an inline `[user@]host[:port]`; a comma list, a jump
/// profile with its own jump host, and unparsable text are issues.
pub open spec fn plan_of(
    p: ProfileView,
    ps: Seq<ProfileView>,
    ov: OverridesView,
    process_env: Seq<(Seq<char>, Seq<char>)>,
) -> PlanView {
    let env = match ov.environment {
        Some(e) => e,
        None => process_env,
    };
    let target = hop_of(p, ov.credentials, env);
    let base = auth_issues(p, options_of(p), ov.credentials, env, ""@) + unsupported_issues(p, ""@);
    match jump_spec_of(p) {
        None => PlanView { target, jump: None, issues: base },
        Some(js) => if contains_seq(js, seq![',']) {
            PlanView {
                target,
                jump: None,
                issues: base.push(
                    issue_of("jumpHost"@, CompatibilityIssueSeverity::Unsupported, comma_message()),
                ),
            }
        } else {
            match find_profile(ps, js) {
                Some(jp) => PlanView {
                    target,
                    jump: Some(hop_of(jp, ov.jump, env)),
                    issues: base + (if jump_spec_of(jp) is Some {
                        seq![
                            issue_of(
                                "jumpHost"@,
                                CompatibilityIssueSeverity::Unsupported,
                                nested_message(),
                            ),
                        ]
                    } else {
                        Seq::empty()
                    }) + auth_issues(jp, options_of(jp), ov.jump, env, "jump."@)
                        + unsupported_issues(jp, "jump."@),
                },
                None => match jump_target_of(js) {
                    Some(t) => PlanView {
                        target,
                        jump: Some(
                            HopView {
                                host: t.host,
                                port: match t.port {
                                    Some(x) => x,
                                    None => 22,
                                },
                                username: t.username,
                                authentication: AuthView {
                                    password: ov.jump.password,
                                    private_keys: match ov.jump.private_keys {
                                        Some(k) => k,
                                        None => Seq::empty(),
                                    },
                                    agent: match ov.jump.agent {
                                        Some(a) => Some(a),
                                        None => Some(AgentView::Default),
                                    },
                                },
                                ready_timeout: None,
                                keepalive_interval: None,
                                keepalive_count_max: None,
                            },
                        ),
                        issues: base,
                    },
                    None => PlanView {
                        target,
                        jump: None,
                        issues: base.push(
                            issue_of(
                                "jumpHost"@,
                                CompatibilityIssueSeverity::Unsupported,
                                "Cannot parse jump host "@ + js,
                            ),
                        ),
                    },
                },
            }
        }
    }
}

/// Some issue makes the connection unsupported.
pub open spec fn has_unsupported(issues: Seq<IssueView>) -> bool {
    exists|i: int| 0 <= i < issues.len() && (#[trigger] issues[i]).severity
        == CompatibilityIssueSeverity::Unsupported
}

fn any_unsupported(issues: &Vec<CompatibilityIssue>) -> (r: bool)
    ensures
        r == has_unsupported(issues_view(issues@)),
{
    let ghost iv = issues_view(issues@);
    let mut i: usize = 0;
    while i < issues.len()
        invariant
            i <= issues.len(),
            iv == issues_view(issues@),
            forall|j: int| 0 <= j < i ==> (#[trigger] iv[j]).severity
                != CompatibilityIssueSeverity::Unsupported,
        decreases issues.len() - i,
    {
        assert(iv[i as int] == issues@[i as int]@);
        if issues[i].severity == CompatibilityIssueSeverity::Unsupported {
            return true;
        }
        i += 1;
    }
    false
}

fn clone_pairs(v: &Vec<(String, String)>) -> (r: Vec<(String, String)>)
    ensures
        pairs_view(r@) == pairs_view(v@),
{
    let mut out: Vec<(String, String)> = Vec::new();
    let mut i: usize = 0;
    while i < v.len()
        invariant
            i <= v.len(),
            pairs_view(out@) == pairs_view(v@.take(i as int)),
        decreases v.len() - i,
    {
        let e = (v[i].0.clone(), v[i].1.clone());
        let ghost prev = out@;
        out.push(e);
        assert(pairs_view(out@) =~= pairs_view(prev).push((e.0@, e.1@)));
        assert(pairs_view(v@.take(i + 1)) =~= pairs_view(v@.take(i as int)).push((e.0@, e.1@)));
        i += 1;
    }
    assert(v@.take(i as int) =~= v@);
    out
}

/// A profile's SFTP connection: `process_env` stands for the process
/// environment, which the overrides' environment replaces when given; each
/// holds a name at most once.
pub fn connection_from_profile(
    profile: &Profile,
    profiles: &Vec<Profile>,
    overrides: &ProfileConnectionOverrides,
    process_env: &Vec<(String, String)>,
) -> (r: ProfileConnectionResult)
    requires
        distinct_keys(pairs_view(process_env@)),
        overrides.environment matches Some(e) ==> distinct_keys(pairs_view(e@)),
    ensures
        ({
            let plan = plan_of(
                profile@,
                crate::types::profiles_view(profiles@),
                overrides@,
                pairs_view(process_env@),
            );
            &&& r.connection.hop() == plan.target
            &&& match plan.jump {
                Some(h) => r.connection.jump matches Some(b) && b.hop() == h && b.jump is None,
                None => r.connection.jump is None,
            }
            &&& issues_view(r.issues@) == plan.issues
            &&& r.supported == !has_unsupported(plan.issues)
        }),
{
    proof {
        reveal_strlit("");
    }
    let environment = match &overrides.environment {
        Some(e) => clone_pairs(e),
        None => clone_pairs(process_env),
    };
    let mut issues: Vec<CompatibilityIssue> = Vec::new();
    let mut connection = base_connection(profile, &overrides.credentials, &environment, &mut issues, "");
    add_unsupported_options(profile, &mut issues, "");
    assert(issues_view(Seq::<CompatibilityIssue>::empty()) =~= Seq::<IssueView>::empty());
    let ghost base = issues_view(issues@);
    let ghost plan = plan_of(
        profile@,
        crate::types::profiles_view(profiles@),
        overrides@,
        pairs_view(process_env@),
    );
    let ghost env = pairs_view(environment@);
    assert(plan.target == hop_of(profile@, overrides@.credentials, env));
    assert(base == auth_issues(profile@, options_of(profile@), overrides@.credentials, env, ""@)
        + unsupported_issues(profile@, ""@));
    match jump_spec(profile) {
        None => {},
        Some(js) => {
            if str_contains(js.as_str(), ",") {
                proof {
                    reveal_strlit(",");
                    assert(","@ =~= seq![',']);
                }
                push_issue(
                    &mut issues,
                    "jumpHost".to_owned(),
                    CompatibilityIssueSeverity::Unsupported,
                    "Only one jump host is supported; comma-separated chains require OpenSSH".to_owned(),
                );
            } else {
                proof {
                    reveal_strlit(",");
                    assert(","@ =~= seq![',']);
                }
                match find_jump_profile(profiles, js.as_str()) {
                    Some(jp) => {
                        if jump_spec(jp).is_some() {
                            push_issue(
                                &mut issues,
                                "jumpHost".to_owned(),
                                CompatibilityIssueSeverity::Unsupported,
                                "Nested jump profiles are not supported; select a profile with one jump host".to_owned(),
                            );
                        }
                        let ghost mid = issues_view(issues@);
                        let jump = base_connection(jp, &overrides.jump, &environment, &mut issues, "jump.");
                        add_unsupported_options(jp, &mut issues, "jump.");
                        assert(plan.jump == Some(jump.hop()));
                        assert(issues_view(issues@) =~= plan.issues);
                        connection.jump = Some(Box::new(jump));
                    },
                    None => match parse_jump_target(js.as_str()) {
                        Some((host, port, username)) => {
                            let keys = match &overrides.jump.private_keys {
                                Some(k) => clone_keys(k),
                                None => Vec::new(),
                            };
                            assert(keys_view(Seq::<PrivateKeySource>::empty()) =~= Seq::<KeyView>::empty());
                            let agent = match &overrides.jump.agent {
                                Some(_) => clone_agent(&overrides.jump.agent),
                                None => Some(AgentEndpoint::Default),
                            };
                            let jump = SftpConnectionOptions {
                                host,
                                port: match port {
                                    Some(x) => x,
                                    None => 22,
                                },
                                username,
                                authentication: SftpAuthentication {
                                    password: crate::types::clone_opt_string(&overrides.jump.password),
                                    private_keys: keys,
                                    agent,
                                },
                                ready_timeout: None,
                                keepalive_interval: None,
                                keepalive_count_max: None,
                                jump: None,
                            };
                            assert(plan.jump == Some(jump.hop()));
                            assert(issues_view(issues@) =~= plan.issues);
                            connection.jump = Some(Box::new(jump));
                        },
                        None => {
                            push_issue(
                                &mut issues,
                                "jumpHost".to_owned(),
                                CompatibilityIssueSeverity::Unsupported,
                                concat("Cannot parse jump host ", js.as_str()),
                            );
                        },
                    },
                }
            }
        },
    }
    let supported = !any_unsupported(&issues);
    ProfileConnectionResult { connection, issues, supported }
}

/// Where and as whom a profile's connection logs in: non-empty text `user`
/// and `host` in its connection options win, and so does a positive `port`
/// that fits in 32 bits; without them, the profile's own user (none when it
/// is empty), its host (its name when the host is empty) and its port (22
/// when that is 0). A profile with neither a raw entry nor SFTP data
/// connects just so.
pub proof fn lemma_connection_login(
    p: ProfileView,
    ps: Seq<ProfileView>,
    ov: OverridesView,
    process_env: Seq<(Seq<char>, Seq<char>)>,
)
    ensures
        text_of(member_get(options_of(p), "user"@)) matches Some(u) ==> plan_of(
            p,
            ps,
            ov,
            process_env,
        ).target.username == Some(u),
        text_of(member_get(options_of(p), "user"@)) is None ==> plan_of(
            p,
            ps,
            ov,
            process_env,
        ).target.username == (if p.user.len() > 0 {
            Some(p.user)
        } else {
            None
        }),
        text_of(member_get(options_of(p), "host"@)) matches Some(h) ==> plan_of(
            p,
            ps,
            ov,
            process_env,
        ).target.host == h,
        text_of(member_get(options_of(p), "host"@)) is None ==> plan_of(
            p,
            ps,
            ov,
            process_env,
        ).target.host == (if p.host.len() > 0 {
            p.host
        } else {
            p.name
        }),
        positive_of(member_get(options_of(p), "port"@)) matches Some(n) ==> (n <= u32::MAX
            ==> plan_of(p, ps, ov, process_env).target.port == n),
        positive_of(member_get(options_of(p), "port"@)) is None ==> plan_of(
            p,
            ps,
            ov,
            process_env,
        ).target.port == (if p.port > 0 {
            p.port
        } else {
            22
        }),
        p.raw is None && p.sftp is None ==> {
            let t = plan_of(p, ps, ov, process_env).target;
            &&& t.username == (if p.user.len() > 0 {
                Some(p.user)
            } else {
                None
            })
            &&& t.host == (if p.host.len() > 0 {
                p.host
            } else {
                p.name
            })
            &&& t.port == (if p.port > 0 {
                p.port
            } else {
                22
            })
        },
{
    if p.raw is None && p.sftp is None {
        assert(options_of(p) =~= Seq::empty());
    }
}

} // verus!
