use sshmgr_tui::json::{JsonObject, JsonValue};
use sshmgr_tui::model::{draft_from_target, normalize_snapshot, raw_from_draft, target_port_text, RawDraftResult};
use sshmgr_tui::types::{ProfileDraft, Snapshot};
use sshmgr_tui::runtime::is_request_filename;
use sshmgr_tui::sftp::paths::normalize_remote_path;

/// What the program computes for a document: the whole numbers its texts
/// read as under `str::parse::<f64>`.
fn readings_of(value: &JsonValue, out: &mut Vec<(String, u32)>) {
    match value {
        JsonValue::Text(s) => {
            if let Some(n) = reading(s) {
                out.push((s.clone(), n));
            }
        }
        JsonValue::Array(items) => items.iter().for_each(|item| readings_of(item, out)),
        JsonValue::Object(o) => o.entries.iter().for_each(|(_, item)| readings_of(item, out)),
        _ => {}
    }
}

fn normalize(value: &JsonValue) -> Snapshot {
    let mut readings = Vec::new();
    readings_of(value, &mut readings);
    normalize_snapshot(value, &readings)
}


/// The whole number text reads as under `str::parse::<f64>`, as the program
/// computes it.
fn reading(text: &str) -> Option<u32> {
    text.trim()
        .parse::<f64>()
        .ok()
        .filter(|v| v.is_finite() && v.fract() == 0.0 && *v >= 0.0 && *v <= u32::MAX as f64)
        .map(|v| v as u32)
}

fn draft_for(spec: &str, group: &str) -> ProfileDraft {
    draft_from_target(spec, group, target_port_text(spec).and_then(|t| reading(&t)))
}

fn save(draft: &ProfileDraft) -> RawDraftResult {
    raw_from_draft(draft, reading(&draft.port))
}


fn text(s: &str) -> JsonValue {
    JsonValue::Text(s.to_owned())
}

fn obj(members: Vec<(&str, JsonValue)>) -> JsonValue {
    JsonValue::Object(JsonObject {
        entries: members.into_iter().map(|(key, value)| (key.to_owned(), value)).collect(),
    })
}

#[test]
fn normalising_a_normalised_remote_path_changes_nothing() {
    for (path, expected) in [("/a/./b/../c", "/a/c"), ("/../x", "/x"), ("a/../../b", "../b"), ("", "."), ("//", "/")] {
        let once = normalize_remote_path(path);
        assert_eq!(once, expected);
        assert_eq!(normalize_remote_path(&once), once);
    }
}

#[test]
fn request_names_have_the_spelled_out_form() {
    let nonce = "0123456789abcdef0123456789abcdef";
    assert!(is_request_filename(&format!("request-1-{nonce}.json")));
    assert!(is_request_filename(&format!("request-907-{nonce}.json")));
    assert!(!is_request_filename(&format!("request-0-{nonce}.json")));
    assert!(!is_request_filename(&format!("request-01-{nonce}.json")));
    assert!(!is_request_filename(&format!("request--{nonce}.json")));
    assert!(!is_request_filename(&format!("request-1-{}.json", nonce.to_uppercase())));
    assert!(!is_request_filename("request-1-abc.json"));
}

#[test]
fn groups_are_the_listed_ones_then_new_profile_groups_in_order() {
    let snapshot = normalize(&obj(vec![
        ("groups", JsonValue::Array(vec![text("prod"), text(""), text("lab")])),
        (
            "profiles",
            JsonValue::Array(vec![
                obj(vec![("id", text("a")), ("group", text("zeta"))]),
                obj(vec![("id", text("b")), ("group", text("prod"))]),
                text("not a profile"),
                obj(vec![("id", text("c")), ("group", text("alpha"))]),
                obj(vec![("id", text("d")), ("group", text("zeta"))]),
                obj(vec![("id", text("e")), ("group", text(""))]),
            ]),
        ),
    ]));
    assert_eq!(snapshot.groups, vec!["prod", "lab", "zeta", "alpha"]);
    assert_eq!(snapshot.profiles.len(), 5);
}

#[test]
fn saving_a_draft_keeps_other_raw_members() {
    let mut draft = draft_for("ops@example.com:2200", "prod");
    draft.raw = JsonObject {
        entries: vec![("tags".to_owned(), JsonValue::Array(vec![text("x")])), ("name".to_owned(), text("old"))],
    };
    let raw = save(&draft).raw.unwrap();
    assert!(raw.entries.iter().any(|(key, value)| key == "tags" && *value == JsonValue::Array(vec![text("x")])));
}
