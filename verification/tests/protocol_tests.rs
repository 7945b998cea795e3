use base64::Engine as _;
use sshmgr_tui::json::{JsonNumber, JsonObject, JsonValue};
use sshmgr_tui::protocol::{
    envelope_json, request_file_name, wakeup_text, ProtocolError, RequestProtocol,
};
use sshmgr_tui::runtime::{is_request_filename, random_request_id};
use sshmgr_tui::types::ManagerRequest;
use std::path::PathBuf;

fn protocol(token: &str) -> RequestProtocol {
    RequestProtocol::with_parts(
        PathBuf::from("/tmp/wezterm-sshmgr-test"),
        Some("wezterm-sshmgr-test"),
        token.to_owned(),
    )
    .unwrap()
}

#[test]
fn increments_sequence_numbers() {
    let mut protocol = protocol(&"b".repeat(64));
    assert_eq!(protocol.next_sequence(), Ok(1));
    assert_eq!(protocol.next_sequence(), Ok(2));
}

#[test]
fn rejects_foreign_directories_and_bad_tokens() {
    assert!(matches!(
        RequestProtocol::with_parts(PathBuf::from("/tmp/other"), Some("other"), "a".repeat(64)),
        Err(ProtocolError::InvalidRuntimeDirectory)
    ));
    assert!(matches!(
        RequestProtocol::with_parts(
            PathBuf::from("/tmp/wezterm-sshmgr-x"),
            Some("wezterm-sshmgr-x"),
            "A".repeat(64)
        ),
        Err(ProtocolError::InvalidSessionToken)
    ));
    assert_eq!(
        ProtocolError::SequenceOverflow.message(),
        "sshmgr request sequence overflow"
    );
}

#[test]
fn writes_authenticated_request_before_osc_wakeup() {
    let token = "a".repeat(64);
    let mut protocol = protocol(&token);
    let seq = protocol.next_sequence().unwrap();
    let request = ManagerRequest::Connect {
        id: "prod/db".into(),
        where_: "tab".into(),
    };
    let body = protocol.request_body(&request, seq);
    assert_eq!(
        body,
        JsonObject {
            entries: vec![
                ("op".to_owned(), JsonValue::Text("connect".to_owned())),
                ("id".to_owned(), JsonValue::Text("prod/db".to_owned())),
                ("where".to_owned(), JsonValue::Text("tab".to_owned())),
                ("_session".to_owned(), JsonValue::Text(token.clone())),
                ("_seq".to_owned(), JsonValue::Number(JsonNumber::PosInt(1))),
            ]
        }
    );
    let name = request_file_name(seq, &random_request_id());
    assert!(is_request_filename(&name));
    let envelope = protocol.envelope(seq, name);
    assert_eq!(envelope.v, 2);
    assert_eq!(envelope.token, token);
    assert_eq!(envelope.seq, 1);
    let output = wakeup_text(&envelope_json(&envelope));
    assert!(output.starts_with("\u{1b}]1337;SetUserVar=sshmgr="));
    assert!(output.ends_with("\u{7}\u{1b}]1337;SetUserVar=sshmgr=\u{7}"));
}

#[test]
fn osc_contains_only_the_envelope_not_request_secrets() {
    let token = "e".repeat(64);
    let mut protocol = protocol(&token);
    let seq = protocol.next_sequence().unwrap();
    let raw = JsonObject {
        entries: vec![(
            "options".to_owned(),
            JsonValue::Object(JsonObject {
                entries: vec![("password".to_owned(), JsonValue::Text("s3cret".to_owned()))],
            }),
        )],
    };
    let request = ManagerRequest::Upsert { id: None, raw };
    let body = protocol.request_body(&request, seq);
    assert!(format!("{body:?}").contains("s3cret"));
    let envelope = protocol.envelope(seq, request_file_name(seq, &"c".repeat(32)));
    let json = envelope_json(&envelope);
    let output = wakeup_text(&json);
    assert!(!output.contains("s3cret"));
    let encoded = output
        .strip_prefix("\u{1b}]1337;SetUserVar=sshmgr=")
        .unwrap()
        .split('\u{7}')
        .next()
        .unwrap();
    let decoded = base64::engine::general_purpose::STANDARD.decode(encoded).unwrap();
    assert_eq!(String::from_utf8(decoded).unwrap(), json);
    assert_eq!(
        json,
        format!(
            "{{\"v\":2,\"token\":\"{token}\",\"seq\":1,\"request\":\"request-1-{}.json\"}}",
            "c".repeat(32)
        )
    );
}

#[test]
fn envelope_strings_are_escaped() {
    let mut protocol = protocol(&"d".repeat(64));
    let seq = protocol.next_sequence().unwrap();
    let envelope = protocol.envelope(seq, "a\"b\\c\n\u{1}".to_owned());
    assert!(envelope_json(&envelope).ends_with("\"request\":\"a\\\"b\\\\c\\n\\u0001\"}"));
}

#[test]
fn opening_takes_the_directory_name_from_its_path() {
    assert!(RequestProtocol::open(PathBuf::from("/tmp/wezterm-sshmgr-test"), "c".repeat(64)).is_ok());
    assert!(matches!(
        RequestProtocol::open(PathBuf::from("/tmp/wezterm-sshmgr-test/other"), "c".repeat(64)),
        Err(ProtocolError::InvalidRuntimeDirectory)
    ));
    assert!(matches!(
        RequestProtocol::open(PathBuf::from("/"), "c".repeat(64)),
        Err(ProtocolError::InvalidRuntimeDirectory)
    ));
}
