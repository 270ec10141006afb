use lsd::entry::{Entry, EntryType, Permissions};
use lsd::sort::{sort_entries, SortDir, SortKey, SortPolicy};
use lsd::ExitCode;

fn perms() -> Permissions {
    Permissions {
        user_read: true,
        user_write: true,
        user_execute: false,
        group_read: true,
        group_write: false,
        group_execute: false,
        other_read: true,
        other_write: false,
        other_execute: false,
        setuid: false,
        setgid: false,
        sticky: false,
    }
}

fn file(name: &str) -> Entry {
    Entry::new(
        name.to_string(),
        EntryType::RegularFile,
        0,
        1,
        0,
        Some(perms()),
        "u".to_string(),
        "g".to_string(),
    )
}

fn dir(name: &str) -> Entry {
    Entry::new(
        name.to_string(),
        EntryType::Directory,
        0,
        1,
        0,
        Some(perms()),
        "u".to_string(),
        "g".to_string(),
    )
}

fn names(v: &Vec<Entry>) -> Vec<String> {
    v.iter().map(|e| e.name.clone()).collect()
}

fn pol(key: SortKey, dir: SortDir, dirs_first: bool) -> SortPolicy {
    SortPolicy { key, dir, dirs_first }
}

#[test]
fn version_order_numeric_runs() {
    let mut v = vec![file("file2"), file("file10"), file("file1")];
    sort_entries(pol(SortKey::Version, SortDir::Ascending, false), &mut v);
    assert_eq!(names(&v), vec!["file1", "file2", "file10"]);
}

#[test]
fn version_order_leading_zeros_tie() {
    let mut v = vec![file("a007"), file("a7"), file("a06")];
    sort_entries(pol(SortKey::Version, SortDir::Ascending, false), &mut v);
    assert_eq!(names(&v), vec!["a06", "a007", "a7"]);
}

#[test]
fn name_ascending_and_descending() {
    let mut v = vec![file("b"), file("a"), file("c")];
    sort_entries(pol(SortKey::Name, SortDir::Ascending, false), &mut v);
    assert_eq!(names(&v), vec!["a", "b", "c"]);
    sort_entries(pol(SortKey::Name, SortDir::Descending, false), &mut v);
    assert_eq!(names(&v), vec!["c", "b", "a"]);
}

#[test]
fn size_ascending() {
    let mut a = file("a");
    a.size = 50;
    let mut b = file("b");
    b.size = 3;
    let mut v = vec![a, b];
    sort_entries(pol(SortKey::Size, SortDir::Ascending, false), &mut v);
    assert_eq!(names(&v), vec!["b", "a"]);
}

#[test]
fn time_ascending_handles_pre_epoch() {
    let mut a = file("a");
    a.modified = 100;
    let mut b = file("b");
    b.modified = -100;
    let mut v = vec![a, b];
    sort_entries(pol(SortKey::Time, SortDir::Ascending, false), &mut v);
    assert_eq!(names(&v), vec!["b", "a"]);
}

#[test]
fn created_sort_places_unknown_first() {
    let mut a = file("a");
    a.created = Some(100);
    let mut b = file("b");
    b.created = None;
    let mut c = file("c");
    c.created = Some(5);
    let mut v = vec![a, b, c];
    sort_entries(pol(SortKey::Created, SortDir::Ascending, false), &mut v);
    assert_eq!(names(&v), vec!["b", "c", "a"]);
}

#[test]
fn accessed_sort_orders_by_access_time() {
    let mut a = file("a");
    a.accessed = 9;
    let mut b = file("b");
    b.accessed = 2;
    let mut v = vec![a, b];
    sort_entries(pol(SortKey::Accessed, SortDir::Ascending, false), &mut v);
    assert_eq!(names(&v), vec!["b", "a"]);
}

#[test]
fn extension_primary_then_case_insensitive_name() {
    let mut v = vec![file("b.zip"), file("B.txt"), file("a.txt")];
    sort_entries(pol(SortKey::Extension, SortDir::Ascending, false), &mut v);
    assert_eq!(names(&v), vec!["a.txt", "B.txt", "b.zip"]);
}

#[test]
fn directories_first_regardless_of_key_and_direction() {
    let mut v = vec![file("a"), dir("z"), file("m"), dir("b")];
    sort_entries(pol(SortKey::Name, SortDir::Ascending, true), &mut v);
    assert_eq!(names(&v), vec!["b", "z", "a", "m"]);
    let mut v2 = vec![file("a"), dir("z"), file("m"), dir("b")];
    sort_entries(pol(SortKey::Name, SortDir::Descending, true), &mut v2);
    assert_eq!(names(&v2), vec!["z", "b", "m", "a"]);
}

#[test]
fn unsorted_keeps_enumeration_order() {
    let mut v = vec![file("b"), file("a"), file("c")];
    sort_entries(pol(SortKey::Unsorted, SortDir::Ascending, true), &mut v);
    assert_eq!(names(&v), vec!["b", "a", "c"]);
}

#[test]
fn sorting_preserves_every_entry() {
    let mut v = vec![file("x"), file("x"), file("a"), file("m")];
    sort_entries(pol(SortKey::Name, SortDir::Ascending, false), &mut v);
    assert_eq!(v.len(), 4);
    assert_eq!(names(&v), vec!["a", "m", "x", "x"]);
}

#[test]
fn exit_code_set_if_greater_raises_only() {
    let mut c = ExitCode::OK;
    c.set_if_greater(ExitCode::MinorIssue);
    assert!(c == ExitCode::MinorIssue);
    c.set_if_greater(ExitCode::OK);
    assert!(c == ExitCode::MinorIssue);
    c.set_if_greater(ExitCode::MajorIssue);
    assert!(c == ExitCode::MajorIssue);
    c.set_if_greater(ExitCode::MinorIssue);
    assert!(c == ExitCode::MajorIssue);
}
