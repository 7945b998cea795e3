use sshmgr_tui::json::{JsonNumber, JsonObject, JsonValue};
use sshmgr_tui::layout::{manager_regions, modal_rect, Rect};
use sshmgr_tui::manager::{Action, EntryKind, EntryView, Key, KeyCode, ManagerState, Modal, Mutation};
use sshmgr_tui::manager_events::{ConnectFailure, TransferOutcome};
use sshmgr_tui::model::normalize_snapshot;
use sshmgr_tui::protocol::RequestProtocol;
use sshmgr_tui::sftp::types::TransferDirection;
use sshmgr_tui::types::{MainPage, ManagerFocus, ManagerRequest, Snapshot};
use sshmgr_tui::workspace::SftpSide;
use std::path::PathBuf;

/// Normalises a test document; none of its texts is read as a number.
fn normalize(value: &JsonValue) -> Snapshot {
    normalize_snapshot(value, &Vec::new())
}


/// What the program does with a request to read the port text: it reads
/// the text as a floating-point number and hands back the whole number.
fn finish_reading(app: &mut ManagerState, actions: Vec<Action>) -> Vec<Action> {
    match &actions[..] {
        [Action::ReadPort { text }] => {
            let reading = text
                .trim()
                .parse::<f64>()
                .ok()
                .filter(|v| v.is_finite() && v.fract() == 0.0 && *v >= 0.0 && *v <= u32::MAX as f64)
                .map(|v| v as u32);
            app.finish_save(reading)
        }
        _ => actions,
    }
}

fn text(s: &str) -> JsonValue {
    JsonValue::Text(s.to_owned())
}

fn obj(members: Vec<(&str, JsonValue)>) -> JsonValue {
    JsonValue::Object(JsonObject {
        entries: members.into_iter().map(|(k, v)| (k.to_owned(), v)).collect(),
    })
}

fn sample_snapshot(profile_count: usize) -> Snapshot {
    let profiles = (0..profile_count)
        .map(|index| {
            let group = if index % 2 == 0 { "alpha" } else { "beta" };
            obj(vec![
                ("id", text(&format!("host-{index}"))),
                ("name", text(&format!("主机-{index}"))),
                ("group", text(group)),
                ("editable", JsonValue::Bool(true)),
                ("host", text(&format!("192.0.2.{}", index + 1))),
                ("port", JsonValue::Number(JsonNumber::PosInt(22))),
                (
                    "raw",
                    obj(vec![
                        ("name", text(&format!("主机-{index}"))),
                        ("group", text(group)),
                        ("host", text(&format!("192.0.2.{}", index + 1))),
                    ]),
                ),
            ])
        })
        .collect::<Vec<_>>();
    normalize(&obj(vec![
        ("store_path", text("/tmp/profiles.lua")),
        ("default_where", text("tab")),
        ("groups", JsonValue::Array(vec![text("alpha"), text("beta")])),
        ("profiles", JsonValue::Array(profiles)),
    ]))
}

fn test_app(snapshot: Snapshot) -> ManagerState {
    ManagerState::new(snapshot, "/home/ops".to_owned())
}

fn key(code: KeyCode) -> Key {
    Key { code, control: false, alt: false, shift: false, pressed: true }
}

fn ctrl(code: KeyCode) -> Key {
    Key { code, control: true, alt: false, shift: false, pressed: true }
}

/// Sends the requests of `actions` through a protocol, as the program does,
/// and gives their bodies.
fn request_bodies(protocol: &mut RequestProtocol, actions: Vec<Action>) -> Vec<JsonObject> {
    let mut bodies = Vec::new();
    for action in actions {
        if let Action::Emit { request, .. } = action {
            let seq = protocol.next_sequence().unwrap();
            bodies.push(protocol.request_body(&request, seq));
        }
    }
    bodies
}

fn test_protocol(token: &str) -> RequestProtocol {
    RequestProtocol::with_parts(
        PathBuf::from("/tmp/wezterm-sshmgr-test"),
        Some("wezterm-sshmgr-test"),
        token.to_owned(),
    )
    .unwrap()
}

fn field<'a>(body: &'a JsonObject, name: &str) -> &'a JsonValue {
    body.get(name).unwrap()
}

#[test]
fn edit_form_preserves_cursor_and_accepts_paste() {
    let mut app = test_app(sample_snapshot(1));
    let mut protocol = test_protocol(&"a".repeat(64));
    let profile = app.selected_host().cloned();
    app.open_edit(profile);
    app.handle_key(key(KeyCode::Left));
    app.handle_key(key(KeyCode::Char('X')));
    app.handle_paste("粘贴");

    let Some(Modal::Edit { draft, field: current, cursors }) = app.modal.as_ref() else {
        panic!("edit modal expected");
    };
    assert_eq!(*current, 0);
    assert_eq!(draft.name, "主机-X粘贴0");
    assert_eq!(cursors[0], "主机-X粘贴".len());

    app.handle_key(key(KeyCode::Tab));
    app.handle_key(Key { code: KeyCode::BackTab, control: false, alt: false, shift: true, pressed: true });
    assert!(matches!(app.modal, Some(Modal::Edit { field: 0, .. })));

    let actions = app.handle_key(ctrl(KeyCode::Char('s')));
    let actions = finish_reading(&mut app, actions);
    let requests = request_bodies(&mut protocol, actions);
    assert_eq!(requests.len(), 1);
    assert_eq!(field(&requests[0], "op"), &text("upsert"));
    assert_eq!(field(&requests[0], "id"), &text("host-0"));
    let raw = field(&requests[0], "raw").as_object().unwrap();
    assert_eq!(raw.get("name"), Some(&text("主机-X粘贴0")));
}

#[test]
fn live_filter_preserves_valid_selection_and_clamps_when_needed() {
    let mut app = test_app(sample_snapshot(5));
    app.host_index = 3;
    app.handle_key(key(KeyCode::Char('/')));
    app.handle_key(key(KeyCode::Char('主')));
    assert_eq!(app.host_index, 3);
    app.handle_key(ctrl(KeyCode::Char('u')));
    assert_eq!(app.host_index, 3);
    app.handle_paste("host-4");
    assert_eq!(app.host_index, 0);
    assert_eq!(app.hosts()[0].id, "host-4");
}

#[test]
fn manager_emits_compatible_connect_and_quick_requests() {
    let token = "f".repeat(64);
    let mut app = test_app(sample_snapshot(1));
    let mut protocol = test_protocol(&token);
    let mut actions = app.handle_key(ctrl(KeyCode::Enter));
    actions.extend(app.handle_key(key(KeyCode::Char('p'))));
    app.handle_paste("ops@example.com:2200");
    actions.extend(app.handle_key(key(KeyCode::Enter)));
    actions.extend(app.handle_key(key(KeyCode::Char('q'))));

    let requests = request_bodies(&mut protocol, actions);
    assert_eq!(requests.len(), 3);
    assert_eq!(
        requests[0],
        JsonObject {
            entries: vec![
                ("op".to_owned(), text("connect")),
                ("id".to_owned(), text("host-0")),
                ("where".to_owned(), text("window")),
                ("_session".to_owned(), text(&token)),
                ("_seq".to_owned(), JsonValue::Number(JsonNumber::PosInt(1))),
            ]
        }
    );
    assert_eq!(field(&requests[1], "op"), &text("quick"));
    assert_eq!(field(&requests[1], "target"), &text("ops@example.com:2200"));
    assert_eq!(field(&requests[1], "where"), &text("tab"));
    assert_eq!(field(&requests[2], "op"), &text("hide"));
}

#[test]
fn narrow_resize_moves_focus_out_of_hidden_details_and_draws() {
    let mut app = test_app(sample_snapshot(2));
    app.focus = ManagerFocus::Details;
    app.handle_resize(80, 4);
    assert_eq!(app.focus, ManagerFocus::Hosts);
    app.open_edit(None);
    for (width, height) in [(1, 1), (20, 4), (80, 10)] {
        app.handle_resize(width, height);
        assert_eq!((app.terminal_width, app.terminal_height), (width, height));
        // The geometry a frame of this size is drawn with stays on the screen.
        let screen = Rect::new(0, 0, width, height);
        let regions = manager_regions(width, height);
        for column in [regions.groups, regions.hosts] {
            assert!(column.right() <= width && column.bottom() <= height);
        }
        assert!(regions.details.is_none());
        let modal = modal_rect(screen, 20);
        assert!(modal.right() <= width && modal.bottom() <= height);
    }
}

#[test]
fn releases_are_ignored_and_ctrl_c_quits() {
    let mut app = test_app(sample_snapshot(2));
    let release = Key { code: KeyCode::Char('q'), control: false, alt: false, shift: false, pressed: false };
    assert!(app.handle_key(release).is_empty());
    assert!(!app.should_quit);
    app.handle_key(ctrl(KeyCode::Char('c')));
    assert!(app.should_quit);
}

#[test]
fn tab_cycles_focus_through_details_only_when_wide() {
    let mut app = test_app(sample_snapshot(2));
    assert_eq!(app.focus, ManagerFocus::Hosts);
    app.handle_key(key(KeyCode::Tab));
    assert_eq!(app.focus, ManagerFocus::Groups);
    app.handle_resize(120, 30);
    app.handle_key(key(KeyCode::Tab));
    app.handle_key(key(KeyCode::Tab));
    assert_eq!(app.focus, ManagerFocus::Details);
}

#[test]
fn selecting_a_group_resets_the_host_and_filters_the_list() {
    let mut app = test_app(sample_snapshot(4));
    app.host_index = 2;
    app.focus = ManagerFocus::Groups;
    app.handle_key(key(KeyCode::Down));
    assert_eq!(app.group_index, 1);
    assert_eq!(app.host_index, 0);
    assert_eq!(app.selected_group(), "alpha");
    let ids: Vec<_> = app.hosts().iter().map(|p| p.id.clone()).collect();
    assert_eq!(ids, vec!["host-0", "host-2"]);
}

#[test]
fn delete_asks_first_and_names_the_host() {
    let mut app = test_app(sample_snapshot(1));
    app.handle_key(key(KeyCode::Char('d')));
    assert!(matches!(app.modal, Some(Modal::Delete { .. })));
    assert_eq!(app.modal.as_ref().unwrap().title(), "确认删除");
    assert!(app.modal.as_ref().unwrap().is_dangerous());
    let actions = app.handle_key(key(KeyCode::Char('y')));
    assert!(app.modal.is_none());
    match &actions[..] {
        [Action::Emit { request: ManagerRequest::Delete { id }, success }] => {
            assert_eq!(id, "host-0");
            assert_eq!(success, "已请求删除 主机-0");
        }
        other => panic!("unexpected {other:?}"),
    }
}

#[test]
fn escape_closes_any_dialog_and_empty_form_reports_its_error() {
    let mut app = test_app(sample_snapshot(1));
    app.handle_key(key(KeyCode::Char('n')));
    let actions = app.handle_key(ctrl(KeyCode::Char('s')));
    let actions = finish_reading(&mut app, actions);
    assert!(actions.is_empty());
    assert_eq!(app.status, "主机不能为空");
    assert!(matches!(app.modal, Some(Modal::Edit { .. })));
    app.handle_key(key(KeyCode::Esc));
    assert!(app.modal.is_none());
}

#[test]
fn enter_without_a_host_reports_it() {
    let mut app = test_app(sample_snapshot(0));
    let actions = app.handle_key(key(KeyCode::Enter));
    assert!(actions.is_empty());
    assert_eq!(app.status, "请先选择一台主机");
}

#[test]
fn double_click_connects_within_the_window() {
    let mut app = test_app(sample_snapshot(10));
    app.handle_resize(120, 14);
    app.host_index = 6;
    assert!(app.click_host_row(0, 1_000).is_empty());
    assert_eq!(app.host_index, 4);
    // The window now starts at host 2, so host 4 is on row 2.
    let actions = app.click_host_row(2, 1_300);
    match &actions[..] {
        [Action::Emit { request: ManagerRequest::Connect { id, where_ }, .. }] => {
            assert_eq!(id, "host-4");
            assert_eq!(where_, "tab");
        }
        other => panic!("unexpected {other:?}"),
    }
    assert!(app.click_host_row(2, 1_400).is_empty());
    assert!(app.click_host_row(2, 2_000).is_empty());
    assert_eq!(app.host_index, 4);
}

#[test]
fn visible_window_keeps_the_selection_in_view() {
    let mut app = test_app(sample_snapshot(10));
    app.handle_resize(120, 14);
    app.host_index = 6;
    let window: Vec<usize> = app.visible_host_window().iter().map(|(i, _)| *i).collect();
    assert_eq!(window, vec![4, 5, 6, 7]);
    app.host_index = 9;
    let window: Vec<usize> = app.visible_host_window().iter().map(|(i, _)| *i).collect();
    assert_eq!(window, vec![6, 7, 8, 9]);
}

fn entry(name: &str, path: &str, kind: EntryKind) -> EntryView {
    EntryView { name: name.to_owned(), path: path.to_owned(), kind, size: Some(1), modified: None }
}

#[test]
fn stale_listings_are_ignored_and_remote_rows_get_a_parent() {
    let mut app = test_app(sample_snapshot(1));
    app.remote_connected = true;
    let actions = app.read_panel(SftpSide::Remote, "/srv/data".to_owned());
    let sequence = match &actions[..] {
        [Action::ListPanel { side: SftpSide::Remote, sequence, path }] => {
            assert_eq!(path, "/srv/data");
            *sequence
        }
        other => panic!("unexpected {other:?}"),
    };
    assert!(app.remote_panel.loading);
    app.panel_loaded(SftpSide::Remote, sequence + 1, "/elsewhere".to_owned(), Ok(vec![]));
    assert!(app.remote_panel.loading);
    app.panel_loaded(
        SftpSide::Remote,
        sequence,
        "/srv/data".to_owned(),
        Ok(vec![entry("a.txt", "/srv/data/a.txt", EntryKind::File)]),
    );
    assert!(!app.remote_panel.loading);
    let names: Vec<_> = app.remote_panel.entries.iter().map(|e| (e.name.clone(), e.path.clone())).collect();
    assert_eq!(
        names,
        vec![("..".to_owned(), "/srv".to_owned()), ("a.txt".to_owned(), "/srv/data/a.txt".to_owned())]
    );
}

#[test]
fn remote_panel_without_a_session_shows_an_error() {
    let mut app = test_app(sample_snapshot(1));
    let actions = app.read_panel(SftpSide::Remote, "/".to_owned());
    assert!(actions.is_empty());
    assert_eq!(app.remote_panel.error, "尚未连接 SFTP");
}

#[test]
fn transfers_need_a_session_and_report_overwrites() {
    let mut app = test_app(sample_snapshot(1));
    let actions = app.perform_transfer(TransferDirection::Upload, "/a".into(), "/b".into(), false);
    assert!(actions.is_empty());
    assert_eq!(app.status, "请先连接 SFTP");
    app.remote_connected = true;
    let actions = app.perform_transfer(TransferDirection::Upload, "/a".into(), "/b".into(), false);
    assert_eq!(actions.len(), 1);
    assert!(app.sftp_busy);
    let again = app.perform_transfer(TransferDirection::Upload, "/a".into(), "/b".into(), false);
    assert!(again.is_empty());
    assert_eq!(app.status, "已有 SFTP 操作正在进行");
    app.transfer_finished(TransferDirection::Upload, "/a".into(), "/b".into(), TransferOutcome::DestinationExists);
    assert!(!app.sftp_busy);
    assert_eq!(app.status, "目标已存在，请确认是否覆盖");
    let actions = app.handle_key(key(KeyCode::Char('y')));
    match &actions[..] {
        [Action::Transfer { direction: TransferDirection::Upload, source, destination, overwrite: true }] => {
            assert_eq!(source, "/a");
            assert_eq!(destination, "/b");
        }
        other => panic!("unexpected {other:?}"),
    }
    let done = app.transfer_finished(TransferDirection::Upload, "/a".into(), "/srv/b.txt".into(), TransferOutcome::Completed);
    assert_eq!(app.status, "上传完成：b.txt");
    assert_eq!(done.len(), 2);
}

#[test]
fn rename_dialog_joins_remote_names_and_rejects_blank_ones() {
    let mut app = test_app(sample_snapshot(1));
    app.remote_connected = true;
    app.page = MainPage::Sftp;
    app.sftp_side = SftpSide::Remote;
    app.remote_panel.path = "/srv".to_owned();
    app.remote_panel.entries = vec![entry("old.txt", "/srv/old.txt", EntryKind::File)];
    app.handle_key(key(KeyCode::Char('r')));
    assert_eq!(app.modal.as_ref().unwrap().title(), "改名");
    app.handle_key(ctrl(KeyCode::Char('u')));
    app.handle_key(key(KeyCode::Enter));
    assert_eq!(app.status, "名称不能为空");
    app.handle_paste(" new.txt ");
    let actions = app.handle_key(key(KeyCode::Enter));
    match &actions[..] {
        [Action::Mutate { side: SftpSide::Remote, mutation: Mutation::Rename { from, to }, success }] => {
            assert_eq!(from, "/srv/old.txt");
            assert_eq!(to, "/srv/new.txt");
            assert_eq!(success, "已改名为 new.txt");
        }
        other => panic!("unexpected {other:?}"),
    }
    assert!(app.modal.is_none());
}

#[test]
fn connection_results_for_old_attempts_are_dropped() {
    let mut app = test_app(sample_snapshot(1));
    let profile = app.snapshot.profiles[0].clone();
    let (keep, actions) = app.connected(
        app.connection_sequence + 1,
        profile.clone(),
        "fp".into(),
        true,
        vec![],
        Ok("/home/ops".into()),
    );
    assert!(!keep);
    assert!(actions.is_empty());
    assert!(!app.remote_connected);
    let (keep, _) = app.connected(
        app.connection_sequence,
        profile.clone(),
        "fp".into(),
        true,
        vec![],
        Err(ConnectFailure::Credential(sshmgr_tui::sftp::error::ConnectionRole::Jump)),
    );
    assert!(!keep);
    assert_eq!(app.status, "跳板机需要认证信息");
    assert!(matches!(app.modal, Some(Modal::SftpCredentials { field: 1, .. })));
    app.modal = None;
    let (keep, actions) = app.connected(
        app.connection_sequence,
        profile,
        "fp".into(),
        true,
        vec!["a".into(), "b".into()],
        Ok("/home/ops".into()),
    );
    assert!(keep);
    assert!(app.remote_connected);
    assert_eq!(app.status, "SFTP 已连接；a；b");
    assert_eq!(actions.len(), 1);
    let closed = app.disconnected(app.connection_sequence, "reset".into());
    assert_eq!(closed.len(), 1);
    assert_eq!(app.status, "SFTP 连接已断开：reset");
    assert!(!app.remote_connected);
}

#[test]
fn snapshot_refresh_updates_state() {
    let mut app = test_app(sample_snapshot(1));
    app.snapshot_loaded(sample_snapshot(2), true);
    assert_eq!(app.snapshot.profiles.len(), 2);
    assert_eq!(app.status, "已同步 2 台主机");
    app.snapshot_failed("missing".into());
    assert!(app.status.starts_with("snapshot："));
}
