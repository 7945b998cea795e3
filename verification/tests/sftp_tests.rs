use sshmgr_tui::sftp::paths::remote_temporary;

#[test]
fn remote_temporary_is_a_sibling() {
    let temporary = remote_temporary("/srv/data/report.txt", "4242-18f3a-0");
    assert!(temporary.starts_with("/srv/data/.report.txt.sshmgr-"));
    assert!(temporary.ends_with(".part"));
}
