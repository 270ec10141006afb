use lsd::entry::{Entry, EntryType, Permissions};
use lsd::grid::{choose_columns, render_grid};
use lsd::longfmt::{dec_string, long_aligns, long_cells, perm_string, render_table};
use lsd::orchestrator::render_single_column;
use lsd::tree::render_tree_root;
use unicode_width::UnicodeWidthChar;

fn cell_width(s: &str) -> usize {
    s.chars().map(|c| UnicodeWidthChar::width(c).unwrap_or(0)).sum()
}

fn cells(xs: &[&str]) -> Vec<String> {
    xs.iter().map(|s| s.to_string()).collect()
}

#[test]
fn grid_chooses_maximum_fitting_columns() {
    let cs = cells(&["aa", "bbb", "c", "dddd"]);
    assert_eq!(choose_columns(&cs, 16), 4);
    assert_eq!(choose_columns(&cs, 15), 3);
    assert_eq!(choose_columns(&cs, 3), 1);
}

#[test]
fn grid_narrower_width_never_more_columns() {
    let cs = cells(&["aa", "bbb", "c", "dddd", "ee", "f"]);
    let mut prev = usize::MAX;
    for avail in (0..40u64).rev() {
        let cols = choose_columns(&cs, avail);
        assert!(cols <= prev);
        prev = cols;
    }
}

#[test]
fn grid_renders_column_major_rows() {
    let cs = cells(&["aa", "bbb", "c", "dddd"]);
    let lines = render_grid(&cs, 16);
    assert_eq!(lines, vec!["aa  bbb  c  dddd"]);
    let lines2 = render_grid(&cs, 15);
    assert_eq!(lines2, vec!["aa   c", "bbb  dddd"]);
}

#[test]
fn grid_degrades_to_single_column() {
    let cs = cells(&["aa", "bbb", "c", "dddd"]);
    let lines = render_grid(&cs, 3);
    assert_eq!(lines, vec!["aa", "bbb", "c", "dddd"]);
}

#[test]
fn grid_lines_fit_width_with_wide_unicode() {
    let names = [
        "日本語ファイル.txt",
        "x",
        "caf\u{e9}.png",
        "\u{1F468}\u{200D}\u{1F469}\u{200D}\u{1F467}.jpg",
        "wide\u{3000}space",
        "plain_name_here",
    ];
    let cs = cells(&names);
    let widest = names.iter().map(|n| cell_width(n)).max().unwrap();
    for avail in [widest as u64, 30, 40, 60, 80] {
        if (avail as usize) < widest {
            continue;
        }
        let lines = render_grid(&cs, avail);
        assert!(!lines.is_empty());
        for line in &lines {
            assert!(cell_width(line) <= avail as usize);
        }
    }
}

#[test]
fn grid_empty_input_renders_nothing() {
    let cs: Vec<String> = Vec::new();
    let lines = render_grid(&cs, 80);
    assert!(lines.is_empty());
}

fn perms_all(b: bool) -> Permissions {
    Permissions {
        user_read: b,
        user_write: b,
        user_execute: b,
        group_read: b,
        group_write: b,
        group_execute: b,
        other_read: b,
        other_write: b,
        other_execute: b,
        setuid: false,
        setgid: false,
        sticky: false,
    }
}

#[test]
fn permission_field_renders_bits() {
    let all = perm_string(&perms_all(true));
    assert_eq!(all, "rwxrwxrwx");
    let none = perm_string(&perms_all(false));
    assert_eq!(none, "---------");
    let mut special = perms_all(true);
    special.setuid = true;
    special.setgid = true;
    special.sticky = true;
    assert_eq!(perm_string(&special), "rwsrwsrwt");
    let mut off = perms_all(false);
    off.setuid = true;
    off.sticky = true;
    assert_eq!(perm_string(&off), "--S-----T");
}

#[test]
fn decimal_rendering() {
    assert_eq!(dec_string(0), "0");
    assert_eq!(dec_string(7), "7");
    assert_eq!(dec_string(10), "10");
    assert_eq!(dec_string(90210), "90210");
    assert_eq!(dec_string(u64::MAX), "18446744073709551615");
}

#[test]
fn long_format_denied_entry_is_placeholder_row_among_siblings() {
    let ok = Entry::new(
        "notes.txt".to_string(),
        EntryType::RegularFile,
        1234,
        1,
        0,
        Some(perms_all(true)),
        "alice".to_string(),
        "staff".to_string(),
    );
    let denied = Entry::denied("secret.bin".to_string());
    let rows = vec![
        long_cells(&ok, "1970-01-01 00:00".to_string()),
        long_cells(&denied, "?".to_string()),
    ];
    let aligns = long_aligns();
    let lines = render_table(&rows, &aligns);
    assert_eq!(lines.len(), 2);
    assert!(lines[0].contains("rwxrwxrwx"));
    assert!(lines[0].contains("notes.txt"));
    assert!(lines[1].starts_with("denied"));
    assert!(lines[1].contains("secret.bin"));
}

#[test]
fn long_format_right_aligns_sizes() {
    let mut small = Entry::new(
        "a".to_string(),
        EntryType::RegularFile,
        5,
        1,
        0,
        Some(perms_all(false)),
        "u".to_string(),
        "g".to_string(),
    );
    small.nlink = 1;
    let mut big = Entry::new(
        "b".to_string(),
        EntryType::RegularFile,
        12345,
        1,
        0,
        Some(perms_all(false)),
        "u".to_string(),
        "g".to_string(),
    );
    big.nlink = 1;
    let rows = vec![
        long_cells(&small, "d".to_string()),
        long_cells(&big, "d".to_string()),
    ];
    let lines = render_table(&rows, &long_aligns());
    assert!(lines[0].contains("    5 "));
    assert!(lines[1].contains("12345 "));
}

#[test]
fn long_format_directory_size_placeholder() {
    let d = Entry::new(
        "stuff".to_string(),
        EntryType::Directory,
        4096,
        2,
        0,
        Some(perms_all(true)),
        "u".to_string(),
        "g".to_string(),
    );
    let rows = vec![long_cells(&d, "d".to_string())];
    let lines = render_table(&rows, &long_aligns());
    assert!(lines[0].contains(" - "));
}

#[test]
fn single_column_lists_each_cell() {
    let cs = cells(&["one", "two", "three"]);
    let lines = render_single_column(&cs);
    assert_eq!(lines, vec!["one", "two", "three"]);
}

fn tree_entry(name: &str, t: EntryType, children: Vec<Entry>) -> Entry {
    let mut e = Entry::new(
        name.to_string(),
        t,
        0,
        1,
        0,
        Some(perms_all(true)),
        "u".to_string(),
        "g".to_string(),
    );
    e.children = children;
    e
}

#[test]
fn tree_blank_indent_under_last_sibling() {
    let leaf_b = tree_entry("b", EntryType::RegularFile, vec![]);
    let leaf_c = tree_entry("c", EntryType::RegularFile, vec![]);
    let mid = tree_entry("mid", EntryType::Directory, vec![leaf_b, leaf_c]);
    let root = tree_entry("root", EntryType::Directory, vec![mid]);
    let lines = render_tree_root(&root, 5);
    assert_eq!(lines[0], "root");
    assert_eq!(lines[1], "└── mid");
    assert_eq!(lines[2], "    ├── b");
    assert_eq!(lines[3], "    └── c");
}

#[test]
fn tree_connector_indent_under_non_last_sibling() {
    let leaf = tree_entry("c", EntryType::RegularFile, vec![]);
    let a = tree_entry("a", EntryType::Directory, vec![leaf]);
    let b = tree_entry("b", EntryType::RegularFile, vec![]);
    let root = tree_entry("root", EntryType::Directory, vec![a, b]);
    let lines = render_tree_root(&root, 5);
    assert_eq!(lines[0], "root");
    assert_eq!(lines[1], "├── a");
    assert_eq!(lines[2], "│   └── c");
    assert_eq!(lines[3], "└── b");
}

#[test]
fn tree_depth_budget_stops_descent() {
    let leaf = tree_entry("deep", EntryType::RegularFile, vec![]);
    let a = tree_entry("a", EntryType::Directory, vec![leaf]);
    let root = tree_entry("root", EntryType::Directory, vec![a]);
    let lines = render_tree_root(&root, 1);
    assert_eq!(lines, vec!["root", "└── a"]);
}
