use file_lister::app_core::{FileListerApp, MoveOutcome};
use file_lister::record::FileInfo;
use file_lister::sorting::{SortColumn, SortOrder};
use file_lister::walk::{EntryKind, RawEntry, ScanError, Walk};
use file_lister::{is_today_at, numfmt};

fn rec(name: &str, ext: &str, rel: &str, size: u64, ts: i64) -> FileInfo {
    let full = if ext.is_empty() {
        name.to_string()
    } else {
        format!("{}.{}", name, ext)
    };
    FileInfo {
        name: name.to_string(),
        extension: ext.to_string(),
        full_name: full,
        relative_path: rel.to_string(),
        absolute_path: format!("/abs/{}", rel),
        file_size: size,
        modified_timestamp: ts,
    }
}

fn raw(full: &str, rel: &str, kind: EntryKind, size: u64) -> RawEntry {
    RawEntry {
        full_name: full.to_string(),
        relative_path: rel.to_string(),
        absolute_path: format!("/root/{}", rel),
        kind,
        size: Some(size),
        modified: Some(0),
    }
}

fn scan(recursive: bool) -> Vec<FileInfo> {
    // a directory holding a.txt (10 bytes), b.TXT (20 bytes) and
    // sub/a.txt (10 bytes)
    let mut walk = Walk::new("/root".to_string(), recursive);
    while let Some(dir) = walk.next_dir() {
        let listing = if dir == "/root" {
            vec![
                raw("a.txt", "a.txt", EntryKind::File, 10),
                raw("b.TXT", "b.TXT", EntryKind::File, 20),
                raw("sub", "sub", EntryKind::Dir, 0),
            ]
        } else {
            vec![raw("a.txt", "sub/a.txt", EntryKind::File, 10)]
        };
        walk.deliver(Ok(listing));
    }
    walk.finish().unwrap()
}

#[test]
fn scan_nonrecursive_and_recursive_counts() {
    let flat = scan(false);
    assert_eq!(flat.len(), 2);
    let deep = scan(true);
    assert_eq!(deep.len(), 3);
    // duplicate counts are case-sensitive on the full name
    assert_eq!(file_lister::view::duplicate_count(&flat, &"a.txt".to_string()), 1);
    assert_eq!(file_lister::view::duplicate_count(&deep, &"a.txt".to_string()), 2);
    // the snapshot is ordered by case-insensitive relative path
    let rels: Vec<&str> = deep.iter().map(|f| f.relative_path.as_str()).collect();
    assert_eq!(rels, vec!["a.txt", "b.TXT", "sub/a.txt"]);
}

#[test]
fn walk_aborts_whole_scan_on_directory_error() {
    let mut walk = Walk::new("/root".to_string(), true);
    let dir = walk.next_dir().unwrap();
    assert_eq!(dir, "/root");
    walk.deliver(Err("permission denied".to_string()));
    assert!(walk.next_dir().is_none());
    match walk.finish() {
        Err(ScanError::Io(m)) => assert_eq!(m, "permission denied"),
        _ => panic!("expected an io error"),
    }
}

#[test]
fn walk_degrades_missing_metadata_to_zero() {
    let mut walk = Walk::new("/root".to_string(), false);
    walk.next_dir().unwrap();
    walk.deliver(Ok(vec![RawEntry {
        full_name: "a.txt".to_string(),
        relative_path: "a.txt".to_string(),
        absolute_path: "/root/a.txt".to_string(),
        kind: EntryKind::File,
        size: None,
        modified: None,
    }]));
    let files = walk.finish().unwrap();
    assert_eq!(files[0].file_size, 0);
    assert_eq!(files[0].modified_timestamp, 0);
    assert_eq!(files[0].name, "a");
    assert_eq!(files[0].extension, "txt");
}

#[test]
fn scan_delivered_sorts_filters_and_reports() {
    let mut app = FileListerApp::new();
    let files = vec![rec("b", "txt", "b.txt", 2, 0), rec("a", "txt", "a.txt", 1, 0)];
    app.scan_delivered(Ok(files), 0, 0);
    assert!(!app.is_scanning);
    assert_eq!(app.status_message, "Scanned: 2 files found");
    assert_eq!(app.files[0].name, "a");
    assert_eq!(app.filtered_files.len(), 2);
}

#[test]
fn scan_error_clears_listing() {
    let mut app = FileListerApp::new();
    app.scan_delivered(Ok(vec![rec("a", "txt", "a.txt", 1, 0)]), 0, 0);
    app.scan_delivered(Err("boom".to_string()), 0, 0);
    assert_eq!(app.error_message.as_deref(), Some("Error scanning folder: boom"));
    assert!(app.files.is_empty());
    assert!(app.filtered_files.is_empty());
}

#[test]
fn duplicate_counts_invariant_under_filter_toggles() {
    // toggling any filter and re-deriving the view leaves every
    // duplicate count unchanged
    let mut app = FileListerApp::new();
    let files = vec![
        rec("a", "txt", "a.txt", 1, 0),
        rec("a", "txt", "sub/a.txt", 1, 0),
        rec("b", "txt", "b.txt", 1, 0),
    ];
    app.scan_delivered(Ok(files), 0, 0);
    let before = app.duplicate_counts.lookup(&"a.txt".to_string());
    app.show_duplicates_only = true;
    app.filter_text = "a".to_string();
    app.apply_filter(0, 0);
    let after = app.duplicate_counts.lookup(&"a.txt".to_string());
    assert_eq!(before, 2);
    assert_eq!(after, 2);
    app.show_today_only = true;
    app.apply_filter(12345, 0);
    assert_eq!(app.duplicate_counts.lookup(&"a.txt".to_string()), 2);
}

#[test]
fn toggle_sort_flips_direction_on_same_column() {
    let mut app = FileListerApp::new();
    assert_eq!(app.sort_column, SortColumn::Name);
    assert_eq!(app.sort_order, SortOrder::Ascending);
    app.toggle_sort(SortColumn::Name, 0, 0);
    assert_eq!(app.sort_order, SortOrder::Descending);
    app.toggle_sort(SortColumn::Size, 0, 0);
    assert_eq!(app.sort_column, SortColumn::Size);
    assert_eq!(app.sort_order, SortOrder::Ascending);
    assert_eq!(app.get_sort_indicator(SortColumn::Size), " ^");
    assert_eq!(app.get_sort_indicator(SortColumn::Name), "");
    app.toggle_sort(SortColumn::Size, 0, 0);
    assert_eq!(app.get_sort_indicator(SortColumn::Size), " v");
}

#[test]
fn selection_toggles_and_clears() {
    let mut app = FileListerApp::new();
    app.scan_delivered(Ok(vec![rec("a", "", "a", 1, 0), rec("b", "", "b", 1, 0)]), 0, 0);
    app.toggle_selection(1);
    app.toggle_selection(0);
    assert_eq!(app.selected_files, vec![0, 1]);
    app.toggle_selection(1);
    assert_eq!(app.selected_files, vec![0]);
    app.select_all();
    assert_eq!(app.selected_files, vec![0, 1]);
    app.deselect_all();
    assert!(app.selected_files.is_empty());
}

#[test]
fn bulk_delete_reports_partial_failure() {
    // three selected files, one already gone: the report names the counts
    let mut app = FileListerApp::new();
    app.scan_delivered(
        Ok(vec![
            rec("a", "txt", "a.txt", 1, 0),
            rec("b", "txt", "b.txt", 1, 0),
            rec("c", "txt", "c.txt", 1, 0),
        ]),
        0,
        0,
    );
    app.select_all();
    app.prepare_bulk_delete();
    assert!(app.show_delete_confirm);
    assert_eq!(app.pending_delete_paths.len(), 3);
    let results = vec![
        ("a.txt".to_string(), None),
        ("b.txt".to_string(), Some("No such file".to_string())),
        ("c.txt".to_string(), None),
    ];
    app.record_bulk_delete_results(&results);
    assert_eq!(app.status_message, "Deleted 2 files, 1 failed");
    assert_eq!(app.error_message.as_deref(), Some("b.txt: No such file"));
    assert!(!app.show_delete_confirm);
    assert!(app.pending_delete_paths.is_empty());
}

#[test]
fn bulk_move_reports() {
    let mut app = FileListerApp::new();
    let results = vec![("a.txt".to_string(), None), ("b.txt".to_string(), None)];
    app.record_bulk_move_results(&results, &"/dest".to_string());
    assert_eq!(app.status_message, "Moved 2 files to /dest");
    assert!(app.error_message.is_none());
    let results = vec![
        ("a.txt".to_string(), Some("busy".to_string())),
        ("b.txt".to_string(), None),
    ];
    app.record_bulk_move_results(&results, &"/dest".to_string());
    assert_eq!(app.status_message, "Moved 1 files, 1 failed");
    assert_eq!(app.error_message.as_deref(), Some("a.txt: busy"));
}

#[test]
fn rename_flow_trims_and_skips_unchanged() {
    let mut app = FileListerApp::new();
    app.scan_delivered(Ok(vec![rec("a", "txt", "a.txt", 1, 0)]), 0, 0);
    app.start_rename(0);
    assert_eq!(app.editing_index, Some(0));
    assert_eq!(app.editing_text, "a.txt");
    // unchanged name: no job
    assert!(app.confirm_rename().is_none());
    app.start_rename(0);
    app.editing_text = "   ".to_string();
    assert!(app.confirm_rename().is_none());
    app.start_rename(0);
    app.editing_text = "  b.txt  ".to_string();
    let job = app.confirm_rename().unwrap();
    assert_eq!(job.0, "/abs/a.txt");
    assert_eq!(job.1, "b.txt");
    assert!(app.editing_index.is_none());
}

#[test]
fn single_operation_reports() {
    let mut app = FileListerApp::new();
    assert!(app.record_delete_result(&"a.txt".to_string(), None));
    assert_eq!(app.status_message, "Deleted: a.txt");
    assert!(!app.record_delete_result(&"a.txt".to_string(), Some("locked".to_string())));
    assert_eq!(app.error_message.as_deref(), Some("Delete failed: locked"));
    assert!(app.record_rename_result(&"b.txt".to_string(), None));
    assert_eq!(app.status_message, "Renamed to: b.txt");
    assert!(app.record_move_result(&"a.txt".to_string(), &"/d".to_string(), MoveOutcome::Renamed));
    assert_eq!(app.status_message, "Moved: a.txt -> /d");
    assert!(!app.record_move_result(
        &"a.txt".to_string(),
        &"/d".to_string(),
        MoveOutcome::CopyFailed("full".to_string())
    ));
    assert_eq!(app.error_message.as_deref(), Some("Move failed: full"));
    assert!(app.record_move_result(
        &"a.txt".to_string(),
        &"/d".to_string(),
        MoveOutcome::DeleteAfterCopyFailed("busy".to_string())
    ));
    assert_eq!(
        app.error_message.as_deref(),
        Some("Move partial: copied but failed to delete source: busy")
    );
}

#[test]
fn begin_scan_clears_state_and_hands_out_job() {
    let mut app = FileListerApp::new();
    assert!(app.begin_scan().is_none());
    app.selected_folder = Some("/data".to_string());
    app.recursive = true;
    let job = app.begin_scan().unwrap();
    assert_eq!(job, ("/data".to_string(), true));
    assert!(app.is_scanning);
    assert_eq!(app.status_message, "Scanning...");
}

#[test]
fn is_today_window_boundaries() {
    let now: u64 = 86400 * 20000 + 12345;
    let start: i64 = (86400 * 20000) as i64;
    assert!(is_today_at(start, now, 0));
    assert!(!is_today_at(start - 1, now, 0));
    assert!(is_today_at(start + 86399, now, 0));
    assert!(!is_today_at(start + 86400, now, 0));
    assert!(!is_today_at(-5, now, 0));
}

#[test]
fn is_today_window_follows_local_midnight() {
    // one hour east of UTC: the local day starts an hour before the UTC one
    let now: u64 = 86400 * 20000 + 12345;
    let utc_start: i64 = (86400 * 20000) as i64;
    assert!(is_today_at(utc_start - 3600, now, 3600));
    assert!(!is_today_at(utc_start - 3601, now, 3600));
    assert!(is_today_at(utc_start + 86399 - 3600, now, 3600));
    assert!(!is_today_at(utc_start + 86400 - 3600, now, 3600));
    // five hours west of UTC, just after local midnight: the local day
    // begins five hours into the UTC day
    let now_w: u64 = (86400 * 20000) as u64 + 5 * 3600 + 60;
    assert!(is_today_at(utc_start + 5 * 3600, now_w, -5 * 3600));
    assert!(!is_today_at(utc_start + 5 * 3600 - 1, now_w, -5 * 3600));
}

#[test]
fn format_size_values() {
    assert_eq!(numfmt::format_size(0), "0 B");
    assert_eq!(numfmt::format_size(1023), "1023 B");
    assert_eq!(numfmt::format_size(1024), "1.00 KB");
    assert_eq!(numfmt::format_size(1536), "1.50 KB");
    assert_eq!(numfmt::format_size(1024 * 1024), "1.00 MB");
    assert_eq!(numfmt::format_size(2684354560), "2.50 GB");
    // exact midpoints round to the even hundredth, as "{:.2}" of the
    // exact quotient does: 1.125 -> 1.12, 1.375 -> 1.38
    assert_eq!(numfmt::format_size(1152), "1.12 KB");
    assert_eq!(numfmt::format_size(1408), "1.38 KB");
}

#[test]
fn format_duration_values() {
    assert_eq!(numfmt::format_duration(0), "00:00");
    assert_eq!(numfmt::format_duration(59), "00:59");
    assert_eq!(numfmt::format_duration(3599), "59:59");
    assert_eq!(numfmt::format_duration(3661), "01:01:01");
    assert_eq!(numfmt::format_duration(360000), "100:00:00");
}

#[test]
fn stem_and_extension_split() {
    let f = file_lister::record::make_file_info(
        "archive.tar.gz".to_string(),
        "archive.tar.gz".to_string(),
        "/a/archive.tar.gz".to_string(),
        Some(1),
        Some(2),
    );
    assert_eq!(f.name, "archive.tar");
    assert_eq!(f.extension, "gz");
    let f = file_lister::record::make_file_info(
        ".bashrc".to_string(),
        ".bashrc".to_string(),
        "/a/.bashrc".to_string(),
        None,
        None,
    );
    assert_eq!(f.name, ".bashrc");
    assert_eq!(f.extension, "");
    let f = file_lister::record::make_file_info(
        "noext".to_string(),
        "noext".to_string(),
        "/a/noext".to_string(),
        Some(7),
        Some(8),
    );
    assert_eq!(f.name, "noext");
    assert_eq!(f.extension, "");
    let f = file_lister::record::make_file_info(
        "dot.".to_string(),
        "dot.".to_string(),
        "/a/dot.".to_string(),
        Some(7),
        Some(8),
    );
    assert_eq!(f.name, "dot");
    assert_eq!(f.extension, "");
}
