use lsd::entry::{Entry, EntryType, LinkTarget, Permissions, VcsStatus};
use lsd::orchestrator::{
    aggregate_outcomes, depth_allows, entry_outcome, filter_hidden, root_error_message,
    root_failure_outcome,
};
use lsd::providers::{account_display, date_cell, effective_width};
use lsd::style::{resolve, ColorClass, Theme, ThemeRule};
use lsd::vcs::{lookup_status, status_marker, worst_status, StatusRow};
use lsd::width::display_width;
use lsd::ExitCode;

fn perms() -> Permissions {
    Permissions {
        user_read: true,
        user_write: false,
        user_execute: false,
        group_read: true,
        group_write: false,
        group_execute: false,
        other_read: true,
        other_write: false,
        other_execute: false,
        setuid: false,
        setgid: false,
        sticky: false,
    }
}

fn entry(name: &str, t: EntryType) -> Entry {
    Entry::new(
        name.to_string(),
        t,
        0,
        1,
        0,
        Some(perms()),
        "u".to_string(),
        "g".to_string(),
    )
}

fn theme() -> Theme {
    Theme {
        rules: vec![
            ThemeRule { suffix: ".gz".to_string(), color_group: 1, icon: "z".to_string() },
            ThemeRule { suffix: ".tar.gz".to_string(), color_group: 2, icon: "t".to_string() },
            ThemeRule { suffix: ".txt".to_string(), color_group: 3, icon: "d".to_string() },
        ],
        file_icon: "f".to_string(),
        dir_icon: "D".to_string(),
        link_icon: "l".to_string(),
    }
}

#[test]
fn longest_suffix_wins_case_insensitively() {
    let t = theme();
    let st = resolve(&entry("backup.tar.gz", EntryType::RegularFile), &t);
    assert!(st.color == ColorClass::ExtensionGroup(2));
    assert_eq!(st.icon, "t");
    let st2 = resolve(&entry("ARCHIVE.TAR.GZ", EntryType::RegularFile), &t);
    assert!(st2.color == ColorClass::ExtensionGroup(2));
    let st3 = resolve(&entry("notes.gz", EntryType::RegularFile), &t);
    assert!(st3.color == ColorClass::ExtensionGroup(1));
}

#[test]
fn color_precedence_over_extension_but_icon_independent() {
    let t = theme();
    let d = entry("logs.txt", EntryType::Directory);
    let st = resolve(&d, &t);
    assert!(st.color == ColorClass::Directory);
    assert_eq!(st.icon, "d");
}

#[test]
fn broken_symlink_and_executable_classes() {
    let t = theme();
    let mut link = entry("dangling", EntryType::Symlink);
    link.symlink_target = Some(LinkTarget { target: "gone".to_string(), exists: false });
    assert!(resolve(&link, &t).color == ColorClass::BrokenSymlink);
    let mut ok_link = entry("alive", EntryType::Symlink);
    ok_link.symlink_target = Some(LinkTarget { target: "here".to_string(), exists: true });
    assert!(resolve(&ok_link, &t).color == ColorClass::Symlink);
    let mut exe = entry("tool", EntryType::RegularFile);
    let mut p = perms();
    p.user_execute = true;
    exe.perms = Some(p);
    assert!(resolve(&exe, &t).color == ColorClass::Executable);
    let denied = Entry::denied("locked".to_string());
    assert!(resolve(&denied, &t).color == ColorClass::PermissionDenied);
    let plain = entry("README", EntryType::RegularFile);
    assert!(resolve(&plain, &t).color == ColorClass::Plain);
    assert_eq!(resolve(&plain, &t).icon, "f");
}

#[test]
fn vcs_worst_status_priority() {
    assert_eq!(worst_status(&vec![]), None);
    assert_eq!(
        worst_status(&vec![VcsStatus::Unmodified, VcsStatus::New, VcsStatus::Ignored]),
        Some(VcsStatus::New)
    );
    assert_eq!(
        worst_status(&vec![VcsStatus::Modified, VcsStatus::Deleted, VcsStatus::New]),
        Some(VcsStatus::Deleted)
    );
    assert_eq!(
        worst_status(&vec![VcsStatus::Deleted, VcsStatus::Conflicted]),
        Some(VcsStatus::Conflicted)
    );
}

#[test]
fn vcs_table_lookup_first_match_or_none() {
    let rows = vec![
        StatusRow { path: "src/main.rs".to_string(), status: VcsStatus::Modified },
        StatusRow { path: "README".to_string(), status: VcsStatus::New },
        StatusRow { path: "src/main.rs".to_string(), status: VcsStatus::Ignored },
    ];
    assert_eq!(lookup_status(&rows, &"src/main.rs".to_string()), Some(VcsStatus::Modified));
    assert_eq!(lookup_status(&rows, &"README".to_string()), Some(VcsStatus::New));
    assert_eq!(lookup_status(&rows, &"missing".to_string()), None);
}

#[test]
fn vcs_markers() {
    assert_eq!(status_marker(Some(VcsStatus::Conflicted)), "C");
    assert_eq!(status_marker(Some(VcsStatus::Modified)), "M");
    assert_eq!(status_marker(Some(VcsStatus::Unmodified)), "-");
    assert_eq!(status_marker(None), ".");
}

#[test]
fn hidden_entries_never_reach_the_renderers() {
    let v = vec![
        entry(".git", EntryType::Directory),
        entry("src", EntryType::Directory),
        entry(".env", EntryType::RegularFile),
        entry("README", EntryType::RegularFile),
    ];
    let kept = filter_hidden(v);
    let names: Vec<String> = kept.iter().map(|e| e.name.clone()).collect();
    assert_eq!(names, vec!["src", "README"]);
}

#[test]
fn denied_entry_is_minor_issue_not_major() {
    let denied = Entry::denied("secret".to_string());
    let c = entry_outcome(&denied);
    assert!(c == ExitCode::MinorIssue);
    assert!(c != ExitCode::MajorIssue);
    let fine = entry("ok", EntryType::RegularFile);
    assert!(entry_outcome(&fine) == ExitCode::OK);
}

#[test]
fn missing_root_is_major_issue_with_diagnostic() {
    let c = root_failure_outcome();
    assert!(c == ExitCode::MajorIssue);
    let m = root_error_message("/no/such/path");
    assert_eq!(m, "cannot access /no/such/path");
    let overall = aggregate_outcomes(&vec![ExitCode::OK, ExitCode::MinorIssue, c]);
    assert!(overall == ExitCode::MajorIssue);
}

#[test]
fn outcome_aggregation_is_maximum_severity() {
    assert!(aggregate_outcomes(&vec![]) == ExitCode::OK);
    assert!(aggregate_outcomes(&vec![ExitCode::OK, ExitCode::OK]) == ExitCode::OK);
    assert!(
        aggregate_outcomes(&vec![ExitCode::MinorIssue, ExitCode::OK]) == ExitCode::MinorIssue
    );
}

#[test]
fn depth_bound_stops_descent() {
    assert!(depth_allows(0, 1));
    assert!(!depth_allows(1, 1));
    assert!(!depth_allows(5, 3));
}

#[test]
fn date_cell_formats_epoch() {
    assert_eq!(date_cell(0), "1970-01-01 00:00");
    assert_eq!(date_cell(86400 + 3600), "1970-01-02 01:00");
    assert_eq!(date_cell(i64::MAX), "?");
}

#[test]
fn account_display_falls_back_to_numeric() {
    assert_eq!(account_display(0, Some("root".to_string())), "root");
    assert_eq!(account_display(4242, None), "4242");
}

#[test]
fn effective_width_defaults_without_terminal() {
    assert_eq!(effective_width(Some(120)), 120);
    assert_eq!(effective_width(None), 80);
}

#[test]
fn display_width_counts_cells_not_bytes() {
    assert_eq!(display_width("abc"), 3);
    assert_eq!(display_width("日本"), 4);
    assert_eq!(display_width(""), 0);
    assert_eq!(display_width("a\u{301}"), 1);
}
