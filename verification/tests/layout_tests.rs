use sshmgr_tui::json::{JsonNumber, JsonObject, JsonValue};
use sshmgr_tui::layout::{
    edit_modal_field_at, manager_group_row_at, manager_host_row_at, manager_regions, modal_rect,
    sftp_regions, Rect,
};
use sshmgr_tui::manager::{Action, Key, KeyCode, ManagerState, Modal};
use sshmgr_tui::model::normalize_snapshot;
use sshmgr_tui::types::{MainPage, ManagerFocus, Snapshot};
use sshmgr_tui::workspace::SftpSide;

/// Normalises a test document; none of its texts is read as a number.
fn normalize(value: &JsonValue) -> Snapshot {
    normalize_snapshot(value, &Vec::new())
}


fn text(s: &str) -> JsonValue {
    JsonValue::Text(s.to_owned())
}

fn obj(members: Vec<(&str, JsonValue)>) -> JsonValue {
    JsonValue::Object(JsonObject {
        entries: members.into_iter().map(|(k, v)| (k.to_owned(), v)).collect(),
    })
}

fn sample_snapshot(profile_count: usize) -> Snapshot {
    let profiles = (0..profile_count)
        .map(|index| {
            let group = if index % 2 == 0 { "alpha" } else { "beta" };
            obj(vec![
                ("id", text(&format!("host-{index}"))),
                ("name", text(&format!("主机-{index}"))),
                ("group", text(group)),
                ("editable", JsonValue::Bool(true)),
                ("host", text(&format!("192.0.2.{}", index + 1))),
                ("port", JsonValue::Number(JsonNumber::PosInt(22))),
            ])
        })
        .collect::<Vec<_>>();
    normalize(&obj(vec![
        ("store_path", text("/tmp/profiles.lua")),
        ("default_where", text("tab")),
        ("groups", JsonValue::Array(vec![text("alpha"), text("beta")])),
        ("profiles", JsonValue::Array(profiles)),
    ]))
}

#[test]
fn manager_regions_stay_inside_even_tiny_terminals() {
    for (width, height) in [(0, 0), (1, 1), (20, 4), (80, 10), (120, 30)] {
        let regions = manager_regions(width, height);
        for area in [regions.groups, regions.hosts].into_iter().chain(regions.details) {
            assert!(area.right() <= width);
            assert!(area.bottom() <= height);
        }
    }
}

#[test]
fn manager_hit_testing_excludes_borders_and_host_header() {
    let regions = manager_regions(120, 20);
    assert_eq!(manager_group_row_at(regions.groups, regions.groups.x + 1, regions.groups.y), None);
    assert_eq!(
        manager_group_row_at(regions.groups, regions.groups.x + 1, regions.groups.y + 1),
        Some(0)
    );
    assert_eq!(manager_host_row_at(regions.hosts, regions.hosts.x + 1, regions.hosts.y + 1), None);
    assert_eq!(
        manager_host_row_at(regions.hosts, regions.hosts.x + 1, regions.hosts.y + 2),
        Some(0)
    );
}

#[test]
fn edit_modal_hit_test_only_selects_input_rows() {
    let outer = Rect::new(0, 0, 120, 30);
    let modal = modal_rect(outer, 22);
    let inner = modal.inner(2, 2);
    assert_eq!(edit_modal_field_at(120, 30, inner.x + 12, inner.y + 6), Some(3));
    assert_eq!(edit_modal_field_at(120, 30, inner.x + 11, inner.y + 6), None);
    assert_eq!(edit_modal_field_at(20, 3, 0, 0), None);
}

#[test]
fn manager_mouse_ignores_borders_and_header_then_maps_visible_row() {
    let mut app = ManagerState::new(sample_snapshot(10), "/home/ops".to_owned());
    app.handle_resize(120, 14);
    app.host_index = 6;
    let regions = manager_regions(app.terminal_width, app.terminal_height);

    app.handle_click(regions.hosts.x + 1, regions.hosts.y, 0);
    app.handle_click(regions.hosts.x + 1, regions.hosts.y + 1, 0);
    assert_eq!(app.host_index, 6);
    app.handle_click(regions.hosts.x + 1, regions.hosts.y + 2, 0);
    assert_eq!(app.host_index, 4);

    app.group_index = 2;
    app.handle_click(regions.groups.x + 1, regions.groups.y, 0);
    assert_eq!(app.group_index, 2);
    app.handle_click(regions.groups.x + 1, regions.groups.y + 1, 0);
    assert_eq!(app.group_index, 0);
}

#[test]
fn clicks_on_details_and_form_fields() {
    let mut app = ManagerState::new(sample_snapshot(2), "/home/ops".to_owned());
    app.handle_resize(120, 30);
    let regions = manager_regions(120, 30);
    let details = regions.details.unwrap();
    assert!(app.handle_click(details.x + 1, details.y + 1, 0).is_empty());
    assert_eq!(app.focus, ManagerFocus::Details);

    let key = Key { code: KeyCode::Char('n'), control: false, alt: false, shift: false, pressed: true };
    app.handle_key(key);
    let inner = modal_rect(Rect::new(0, 0, 120, 30), 22).inner(2, 2);
    app.handle_click(inner.x + 12, inner.y + 6, 0);
    assert!(matches!(app.modal, Some(Modal::Edit { field: 3, .. })));
}

#[test]
fn sftp_click_selects_panel_rows_below_the_header() {
    let mut app = ManagerState::new(sample_snapshot(1), "/home/ops".to_owned());
    app.handle_resize(100, 30);
    app.page = MainPage::Sftp;
    app.remote_connected = true;
    let actions: Vec<Action> = app.read_panel(SftpSide::Remote, "/".to_owned());
    assert_eq!(actions.len(), 1);
    let regions = sftp_regions(100, 30);
    assert!(regions.local.right() <= regions.remote.x);
    app.handle_click(regions.remote.x + 1, regions.remote.y + 3, 0);
    assert_eq!(app.sftp_side, SftpSide::Remote);
    assert_eq!(app.remote_panel.selected, 0);
}

#[test]
fn clicks_on_given_columns_select_the_row_shown_there() {
    let mut app = ManagerState::new(sample_snapshot(10), "/home/ops".to_owned());
    app.handle_resize(120, 14);
    app.host_index = 6;
    let regions = sshmgr_tui::layout::ManagerRegions {
        groups: Rect::new(1, 4, 24, 7),
        hosts: Rect::new(26, 4, 40, 7),
        details: None,
    };
    app.click_manager_page(regions, 27, 5, 0);
    assert_eq!(app.host_index, 6);
    app.click_manager_page(regions, 27, 6, 0);
    assert_eq!(app.host_index, 4);
    app.click_manager_page(regions, 2, 6, 0);
    assert_eq!(app.group_index, 1);
    assert_eq!(app.focus, ManagerFocus::Groups);
}
