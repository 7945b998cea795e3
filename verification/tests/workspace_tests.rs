use sshmgr_tui::manager::PanelView;
use sshmgr_tui::sftp::profile::environment_of;
use sshmgr_tui::workspace::{join_path, parent_path, sibling_path, SftpSide};

#[test]
fn local_paths_join_and_climb_by_the_platform_rules() {
    assert_eq!(join_path(SftpSide::Local, "/home/me", "notes.txt"), "/home/me/notes.txt");
    assert_eq!(join_path(SftpSide::Local, "/home/me/", "notes.txt"), "/home/me/notes.txt");
    assert_eq!(join_path(SftpSide::Local, "", "notes.txt"), "notes.txt");
    assert_eq!(parent_path(SftpSide::Local, "/home/me/docs"), "/home/me");
    assert_eq!(parent_path(SftpSide::Local, "/"), "/");
    assert_eq!(sibling_path(SftpSide::Local, "/home/me/a.txt", "b.txt"), "/home/me/b.txt");
}

#[test]
fn remote_paths_join_and_climb() {
    assert_eq!(join_path(SftpSide::Remote, "/srv/", "/x"), "/srv/x");
    assert_eq!(parent_path(SftpSide::Remote, "/srv/data/"), "/srv");
    assert_eq!(parent_path(SftpSide::Remote, "name"), ".");
}

#[test]
fn environment_keeps_the_last_value_of_each_name() {
    let vars = vec![
        ("A".to_owned(), "1".to_owned()),
        ("B".to_owned(), "2".to_owned()),
        ("A".to_owned(), "3".to_owned()),
    ];
    let env = environment_of(vars);
    assert_eq!(env, vec![("A".to_owned(), "3".to_owned()), ("B".to_owned(), "2".to_owned())]);
}

#[test]
fn panel_window_keeps_the_selection_in_view() {
    let mut panel = PanelView::at("/".to_owned());
    assert_eq!(panel.visible_window(24), (0, 0));
    for index in 0..40 {
        panel.entries.push(sshmgr_tui::manager::EntryView {
            name: format!("f{index}"),
            path: format!("/f{index}"),
            kind: sshmgr_tui::manager::EntryKind::File,
            size: None,
            modified: None,
        });
    }
    panel.selected = 20;
    assert_eq!(panel.visible_window(24), (13, 27));
    panel.selected = 39;
    assert_eq!(panel.visible_window(24), (26, 40));
    assert_eq!(panel.visible_window(5), (37, 40));
}
