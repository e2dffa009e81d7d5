use file_lister::record::FileInfo;
use file_lister::sorting::{sort_records, SortColumn, SortOrder};
use file_lister::view::{apply_filters, compute_duplicates, duplicate_count, get_file_type_icon};

fn rec(name: &str, ext: &str, rel: &str, size: u64, ts: i64) -> FileInfo {
    let full = if ext.is_empty() {
        name.to_string()
    } else {
        format!("{}.{}", name, ext)
    };
    FileInfo {
        name: name.to_string(),
        extension: ext.to_string(),
        full_name: full.clone(),
        relative_path: rel.to_string(),
        absolute_path: format!("/abs/{}", rel),
        file_size: size,
        modified_timestamp: ts,
    }
}

#[test]
fn sort_by_name_case_insensitive() {
    let files = vec![
        rec("beta", "txt", "beta.txt", 1, 0),
        rec("Alpha", "txt", "Alpha.txt", 2, 0),
        rec("alpha2", "txt", "alpha2.txt", 3, 0),
    ];
    let sorted = sort_records(&files, SortColumn::Name, SortOrder::Ascending);
    let names: Vec<&str> = sorted.iter().map(|f| f.name.as_str()).collect();
    assert_eq!(names, vec!["Alpha", "alpha2", "beta"]);
}

#[test]
fn sort_by_size_descending() {
    let files = vec![
        rec("a", "txt", "a.txt", 10, 0),
        rec("b", "txt", "b.txt", 30, 0),
        rec("c", "txt", "c.txt", 20, 0),
    ];
    let sorted = sort_records(&files, SortColumn::Size, SortOrder::Descending);
    let sizes: Vec<u64> = sorted.iter().map(|f| f.file_size).collect();
    assert_eq!(sizes, vec![30, 20, 10]);
}

#[test]
fn sort_is_stable_on_equal_keys_both_directions() {
    // four records with only two distinct sizes: ties must keep their
    // original relative order under either direction
    let files = vec![
        rec("first", "a", "1", 5, 0),
        rec("second", "b", "2", 1, 0),
        rec("third", "c", "3", 5, 0),
        rec("fourth", "d", "4", 1, 0),
    ];
    let asc = sort_records(&files, SortColumn::Size, SortOrder::Ascending);
    let names: Vec<&str> = asc.iter().map(|f| f.name.as_str()).collect();
    assert_eq!(names, vec!["second", "fourth", "first", "third"]);
    let desc = sort_records(&files, SortColumn::Size, SortOrder::Descending);
    let names: Vec<&str> = desc.iter().map(|f| f.name.as_str()).collect();
    assert_eq!(names, vec!["first", "third", "second", "fourth"]);
}

#[test]
fn sort_by_date() {
    let files = vec![
        rec("a", "", "a", 0, 300),
        rec("b", "", "b", 0, 100),
        rec("c", "", "c", 0, 200),
    ];
    let sorted = sort_records(&files, SortColumn::Date, SortOrder::Ascending);
    let names: Vec<&str> = sorted.iter().map(|f| f.name.as_str()).collect();
    assert_eq!(names, vec!["b", "c", "a"]);
}

#[test]
fn duplicate_counts_are_case_sensitive() {
    let files = vec![
        rec("a", "txt", "a.txt", 10, 0),
        rec("b", "TXT", "b.TXT", 20, 0),
        rec("a", "txt", "sub/a.txt", 10, 0),
    ];
    assert_eq!(duplicate_count(&files, &"a.txt".to_string()), 2);
    assert_eq!(duplicate_count(&files, &"b.TXT".to_string()), 1);
    assert_eq!(duplicate_count(&files, &"A.TXT".to_string()), 0);
    let dc = compute_duplicates(&files);
    assert_eq!(dc.lookup(&"a.txt".to_string()), 2);
    assert_eq!(dc.is_duplicate(&"a.txt".to_string()), Some(2));
    assert_eq!(dc.is_duplicate(&"b.TXT".to_string()), None);
}

#[test]
fn text_filter_matches_any_field_case_insensitive() {
    let files = vec![
        rec("Report", "PDF", "docs/Report.PDF", 10, 0),
        rec("notes", "txt", "notes.txt", 20, 0),
    ];
    let visible = apply_filters(&files, &"pdf".to_string(), false, false, 0, 0);
    assert_eq!(visible.len(), 1);
    assert_eq!(visible[0].name, "Report");
    let visible = apply_filters(&files, &"DOCS".to_string(), false, false, 0, 0);
    assert_eq!(visible.len(), 1);
    let visible = apply_filters(&files, &"".to_string(), false, false, 0, 0);
    assert_eq!(visible.len(), 2);
}

#[test]
fn duplicates_filter_over_matching_text() {
    // filtering by "txt" with duplicates-only keeps exactly the records
    // whose full name collides with another record's full name
    let files = vec![
        rec("a", "txt", "a.txt", 10, 0),
        rec("b", "TXT", "b.TXT", 20, 0),
        rec("a", "txt", "sub/a.txt", 10, 0),
        rec("c", "txt", "c.txt", 30, 0),
    ];
    let visible = apply_filters(&files, &"txt".to_string(), true, false, 0, 0);
    let rels: Vec<&str> = visible.iter().map(|f| f.relative_path.as_str()).collect();
    assert_eq!(rels, vec!["a.txt", "sub/a.txt"]);
}

#[test]
fn today_filter_uses_day_window() {
    let now: u64 = 1_700_000_000;
    let day_start = now - now % 86400;
    let files = vec![
        rec("old", "txt", "old.txt", 1, (day_start - 1) as i64),
        rec("fresh", "txt", "fresh.txt", 1, (day_start + 10) as i64),
        rec("late", "txt", "late.txt", 1, (day_start + 86399) as i64),
        rec("next", "txt", "next.txt", 1, (day_start + 86400) as i64),
    ];
    let visible = apply_filters(&files, &"".to_string(), false, true, now, 0);
    let names: Vec<&str> = visible.iter().map(|f| f.name.as_str()).collect();
    assert_eq!(names, vec!["fresh", "late"]);
    // two hours west of UTC the local day began two hours into the UTC
    // day, so the early record drops out and the one just past UTC
    // midnight is still today
    let visible = apply_filters(&files, &"".to_string(), false, true, now, -7200);
    let names: Vec<&str> = visible.iter().map(|f| f.name.as_str()).collect();
    assert_eq!(names, vec!["late", "next"]);
}

#[test]
fn icon_for_known_and_unknown_extensions() {
    assert_eq!(get_file_type_icon("txt"), "\u{1F4DD}");
    assert_eq!(get_file_type_icon("PDF"), "\u{1F4D5}");
    assert_eq!(get_file_type_icon("Rs"), "\u{1F4BB}");
    assert_eq!(get_file_type_icon("whatever"), "\u{1F4C4}");
}
