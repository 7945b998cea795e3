use std::cmp::Ordering;

use sshmgr_tui::sftp::paths::{compare_entries, sort_listing};
use sshmgr_tui::sftp::types::{FileEntry, FileKind};

fn entry(name: &str, kind: FileKind) -> FileEntry {
    FileEntry {
        name: name.to_owned(),
        path: format!("/data/{name}"),
        kind,
        size: 0,
        modified_at: None,
        mode: None,
    }
}

fn names(entries: &[FileEntry]) -> Vec<&str> {
    entries.iter().map(|entry| entry.name.as_str()).collect()
}

#[test]
fn listing_puts_directories_first_then_orders_names_without_case() {
    let listing = vec![
        entry("zeta.txt", FileKind::File),
        entry("Beta", FileKind::Directory),
        entry("alpha.txt", FileKind::File),
        entry("b.txt", FileKind::File),
        entry("Alpha.txt", FileKind::File),
        entry("apps", FileKind::Directory),
        entry("link", FileKind::Symlink),
    ];
    let sorted = sort_listing(listing);
    assert_eq!(names(&sorted), vec!["apps", "Beta", "Alpha.txt", "alpha.txt", "b.txt", "link", "zeta.txt"]);
}

#[test]
fn listing_of_nothing_stays_empty() {
    assert!(sort_listing(Vec::new()).is_empty());
}

#[test]
fn entry_order_is_antisymmetric_on_examples() {
    let dir = entry("z", FileKind::Directory);
    let file = entry("a", FileKind::File);
    assert_eq!(compare_entries(&dir, &file), Ordering::Less);
    assert_eq!(compare_entries(&file, &dir), Ordering::Greater);
    let upper = entry("Name", FileKind::File);
    let lower = entry("name", FileKind::File);
    assert_eq!(compare_entries(&upper, &lower), Ordering::Less);
    assert_eq!(compare_entries(&lower, &upper), Ordering::Greater);
    assert_eq!(compare_entries(&lower, &entry("name", FileKind::File)), Ordering::Equal);
}
