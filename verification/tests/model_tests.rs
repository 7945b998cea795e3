use sshmgr_tui::json::{JsonNumber, JsonObject, JsonValue};
use sshmgr_tui::model::{
    draft_from_profile, draft_from_target, group_summaries, normalize_snapshot, parse_target,
    profile_target, raw_from_draft, target_port_text, visible_profiles, GroupSummary, ParsedTarget,
    RawDraftResult, ALL_GROUPS,
};
use sshmgr_tui::types::{ProfileDraft, Snapshot};

/// What the program computes for a document: the whole numbers its texts
/// read as under `str::parse::<f64>`.
fn readings_of(value: &JsonValue, out: &mut Vec<(String, u32)>) {
    match value {
        JsonValue::Text(s) => {
            if let Some(n) = reading(s) {
                out.push((s.clone(), n));
            }
        }
        JsonValue::Array(items) => items.iter().for_each(|item| readings_of(item, out)),
        JsonValue::Object(o) => o.entries.iter().for_each(|(_, item)| readings_of(item, out)),
        _ => {}
    }
}

fn normalize(value: &JsonValue) -> Snapshot {
    let mut readings = Vec::new();
    readings_of(value, &mut readings);
    normalize_snapshot(value, &readings)
}


/// The whole number text reads as under `str::parse::<f64>`, as the program
/// computes it.
fn reading(text: &str) -> Option<u32> {
    text.trim()
        .parse::<f64>()
        .ok()
        .filter(|v| v.is_finite() && v.fract() == 0.0 && *v >= 0.0 && *v <= u32::MAX as f64)
        .map(|v| v as u32)
}

fn target(spec: &str) -> ParsedTarget {
    parse_target(spec, target_port_text(spec).and_then(|t| reading(&t)))
}

fn draft_for(spec: &str, group: &str) -> ProfileDraft {
    draft_from_target(spec, group, target_port_text(spec).and_then(|t| reading(&t)))
}

fn save(draft: &ProfileDraft) -> RawDraftResult {
    raw_from_draft(draft, reading(&draft.port))
}


fn text(s: &str) -> JsonValue {
    JsonValue::Text(s.to_owned())
}

fn number(n: u64) -> JsonValue {
    JsonValue::Number(JsonNumber::PosInt(n))
}

fn object(members: Vec<(&str, JsonValue)>) -> JsonObject {
    JsonObject {
        entries: members
            .into_iter()
            .map(|(key, value)| (key.to_owned(), value))
            .collect(),
    }
}

fn obj(members: Vec<(&str, JsonValue)>) -> JsonValue {
    JsonValue::Object(object(members))
}

fn fixture() -> Snapshot {
    normalize(&obj(vec![
        ("store_path", text("/tmp/profiles.lua")),
        ("default_where", text("tab")),
        ("groups", JsonValue::Array(vec![text("prod")])),
        (
            "profiles",
            JsonValue::Array(vec![
                obj(vec![
                    ("id", text("prod/db")),
                    ("name", text("数据库")),
                    ("group", text("prod")),
                    ("editable", JsonValue::Bool(true)),
                    ("host", text("10.0.0.8")),
                    ("user", text("ops")),
                    ("port", number(2222)),
                    ("has_password", JsonValue::Bool(true)),
                    (
                        "sftp",
                        obj(vec![
                            ("host", text("files.internal")),
                            ("user", text("ops")),
                            ("privateKeys", JsonValue::Array(vec![text("~/.ssh/id_ed25519")])),
                        ]),
                    ),
                    (
                        "raw",
                        obj(vec![
                            ("name", text("数据库")),
                            ("group", text("prod")),
                            (
                                "options",
                                obj(vec![
                                    ("host", text("10.0.0.8")),
                                    ("user", text("ops")),
                                    ("port", number(2222)),
                                ]),
                            ),
                        ]),
                    ),
                ]),
                obj(vec![
                    ("id", text("lab")),
                    ("name", text("实验机")),
                    ("group", text("lab")),
                    ("editable", JsonValue::Bool(false)),
                    ("host", text("lab.local")),
                    ("port", number(22)),
                ]),
            ]),
        ),
    ]))
}

#[test]
fn normalizes_profiles_and_discovers_groups() {
    let snapshot = fixture();
    assert_eq!(snapshot.store_path, "/tmp/profiles.lua");
    assert_eq!(snapshot.groups, ["prod", "lab"]);
    assert!(snapshot.profiles[0].has_password);
    assert_eq!(
        snapshot.profiles[0]
            .sftp
            .as_ref()
            .and_then(|sftp| sftp.host.as_deref()),
        Some("files.internal")
    );
    assert_eq!(
        group_summaries(&snapshot),
        vec![
            GroupSummary {
                id: ALL_GROUPS.into(),
                label: "全部".into(),
                count: 2
            },
            GroupSummary {
                id: "prod".into(),
                label: "prod".into(),
                count: 1
            },
            GroupSummary {
                id: "lab".into(),
                label: "lab".into(),
                count: 1
            },
        ]
    );
}

#[test]
fn filters_and_renders_targets() {
    let snapshot = fixture();
    assert_eq!(
        visible_profiles(&snapshot, "prod", "OPS")
            .into_iter()
            .map(|profile| profile.id.as_str())
            .collect::<Vec<_>>(),
        ["prod/db"]
    );
    assert_eq!(visible_profiles(&snapshot, ALL_GROUPS, "实验")[0].id, "lab");
    assert_eq!(profile_target(&snapshot.profiles[0]), "ops@10.0.0.8:2222");
    assert_eq!(profile_target(&snapshot.profiles[1]), "lab.local");
}

#[test]
fn parses_targets_and_builds_drafts() {
    assert_eq!(
        target("ops@example.com:2200"),
        ParsedTarget {
            host: "example.com".into(),
            user: Some("ops".into()),
            port: Some(2200)
        }
    );
    assert_eq!(
        target("root@[2001:db8::1]:2222"),
        ParsedTarget {
            host: "2001:db8::1".into(),
            user: Some("root".into()),
            port: Some(2222)
        }
    );
    let draft = draft_for("ops@example.com:2200", "prod");
    assert_eq!(draft.host, "example.com");
    assert_eq!(draft.group, "prod");
    assert_eq!(draft.port, "2200");
}

#[test]
fn preserves_nested_raw_data_and_blank_password() {
    let snapshot = fixture();
    let mut draft = draft_from_profile(Some(&snapshot.profiles[0]), "");
    draft.name = "DB".into();
    draft.password.clear();
    let result = save(&draft);
    assert_eq!(
        result.raw,
        Some(object(vec![
            ("name", text("DB")),
            ("group", text("prod")),
            (
                "options",
                obj(vec![
                    ("host", text("10.0.0.8")),
                    ("user", text("ops")),
                    ("port", number(2222)),
                ]),
            ),
        ]))
    );
    assert!(result.error.is_none());
}

#[test]
fn validates_host_and_port() {
    let mut draft = draft_for("example.com", "");
    draft.port = "70000".into();
    assert_eq!(
        save(&draft).error.as_deref(),
        Some("端口需要是 1–65535 的整数")
    );
    draft.port = "22".into();
    draft.host.clear();
    assert_eq!(
        save(&draft).error.as_deref(),
        Some("主机不能为空")
    );
}

#[test]
fn mirrors_javascript_number_and_nullish_draft_rules() {
    let mut draft = draft_for("example.com", "");
    draft.port = "22.0".into();
    assert!(save(&draft).error.is_none());
    assert_eq!(target("host:2.2e1").port, Some(22));

    let mut profile = fixture().profiles.remove(0);
    profile.group.clear();
    profile.raw = Some(object(vec![("port", JsonValue::Null)]));
    let draft = draft_from_profile(Some(&profile), "selected-group");
    assert_eq!(draft.group, "");
    assert_eq!(draft.port, "2222");
}

#[test]
fn port_text_is_read_as_a_floating_point_number() {
    let mut draft = draft_for("example.com", "");
    draft.port = " 1.0000000000000001 ".into();
    assert_eq!(
        save(&draft).raw.unwrap().entries.iter().find(|(key, _)| key == "port").map(|(_, v)| v),
        Some(&number(1))
    );
    draft.port = "1.5".into();
    assert_eq!(save(&draft).error.as_deref(), Some("端口需要是 1–65535 的整数"));
    draft.port = "0".into();
    assert_eq!(save(&draft).error.as_deref(), Some("端口需要是 1–65535 的整数"));
    draft.port = "   ".into();
    assert!(save(&draft).error.is_none());
    assert_eq!(target_port_text("ops@example.com:2200").as_deref(), Some("2200"));
    assert_eq!(target_port_text("[::1]:22").as_deref(), Some("22"));
    assert_eq!(target_port_text("a:b:c"), None);
    assert_eq!(target("host:1.0000000000000001").port, Some(1));
    assert_eq!(target("host:0"), ParsedTarget { host: "host:0".into(), user: None, port: None });
}

#[test]
fn port_texts_in_the_snapshot_are_read_as_floating_point_numbers() {
    let snapshot = normalize(&obj(vec![(
        "profiles",
        JsonValue::Array(vec![
            obj(vec![("id", text("a")), ("port", text(" 2.2e3 "))]),
            obj(vec![("id", text("b")), ("port", text("1.0000000000000001"))]),
            obj(vec![("id", text("c")), ("port", text("x"))]),
            obj(vec![("id", text("d")), ("port", text("  "))]),
        ]),
    )]));
    let ports: Vec<u32> = snapshot.profiles.iter().map(|p| p.port).collect();
    assert_eq!(ports, vec![2200, 1, 22, 0]);
}
