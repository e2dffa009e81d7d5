//! The application core: the scan lifecycle, the filter/sort/selection
//! state, rename and bulk-operation bookkeeping, and the preview pipeline.
//! Everything here is pure state: the surrounding program performs the
//! filesystem and process work and feeds the outcomes back in.

use vstd::prelude::*;
use vstd::string::*;
use crate::numfmt::{dec_digits, push_dec};
use crate::preview::{Capability, PreviewPipeline, PreviewSlot};
use crate::record::FileInfo;
use crate::sorting::{sort_records, sort_spec, SortColumn, SortOrder};
use crate::text::{join2, join3, lower_of, push_chars, string_from_chars, trim_chars, trim_spec, chars_vec};
use crate::view::{apply_filters, compute_duplicates, dup_counts_consistent, visible_spec, DupCounts};

verus! {

/// Selected row indices, kept strictly increasing.
pub open spec fn sel_sorted(s: Seq<usize>) -> bool {
    forall|i: int, j: int| 0 <= i < j < s.len() ==> s[i] < s[j]
}

/// The paths and names of the selected rows that still exist, in index
/// order: what a bulk operation will touch.
pub open spec fn selected_paths_spec(sel: Seq<usize>, files: Seq<FileInfo>) -> Seq<
    (String, String),
> {
    sel.filter(|i: usize| (i as int) < files.len()).map_values(
        |i: usize| (files[i as int].absolute_path, files[i as int].full_name),
    )
}

/// One outcome of moving a single file: a plain rename, the copy-then-
/// delete fallback, a failed copy, or a copy whose source could not be
/// removed afterwards (data duplicated, nothing lost).
pub enum MoveOutcome {
    Renamed,
    CopiedThenDeleted,
    CopyFailed(String),
    DeleteAfterCopyFailed(String),
}

/// Per-item results of a bulk operation: each file's name and, for the
/// failures, the error text.
pub open spec fn failures(results: Seq<(String, Option<String>)>) -> Seq<(String, Option<String>)> {
    results.filter(|r: (String, Option<String>)| r.1 is Some)
}

/// Error texts of the failures joined with "; ", each as "name: error".
pub open spec fn joined_errors(fs: Seq<(String, Option<String>)>) -> Seq<char>
    decreases fs.len(),
{
    if fs.len() == 0 {
        Seq::empty()
    } else if fs.len() == 1 {
        fs[0].0@ + ": "@ + (fs[0].1->0)@
    } else {
        joined_errors(fs.drop_last()) + "; "@ + fs.last().0@ + ": "@ + (fs.last().1->0)@
    }
}

/// Counts a bulk operation's successes and failures and joins the failure
/// texts, each as "name: error", with "; ".
fn summarize_results(results: &Vec<(String, Option<String>)>) -> (r: (u64, u64, String))
    ensures
        r.0 == results@.len() - failures(results@).len(),
        r.1 == failures(results@).len(),
        r.2@ == joined_errors(failures(results@)),
{
    let n = results.len();
    let mut ok: u64 = 0;
    let mut bad: u64 = 0;
    let mut err: Vec<char> = Vec::new();
    let mut i: usize = 0;
    let ghost p = |r: (String, Option<String>)| r.1 is Some;
    proof {
        reveal(Seq::filter);
        assert(results@.take(0).filter(p) =~= Seq::<(String, Option<String>)>::empty());
    }
    while i < n
        invariant
            n == results@.len(),
            i <= n,
            p == |r: (String, Option<String>)| r.1 is Some,
            bad == results@.take(i as int).filter(p).len(),
            ok == i - bad,
            err@ == joined_errors(results@.take(i as int).filter(p)),
        decreases n - i,
    {
        proof {
            assert(results@.take(i + 1).drop_last() =~= results@.take(i as int));
            assert(results@.take(i + 1).last() == results@[i as int]);
            assert(results@.take(i + 1) =~= results@.take(i as int).push(results@[i as int]));
            crate::sorting::lemma_filter_push(results@.take(i as int), results@[i as int], p);
        }
        let ghost fs0 = results@.take(i as int).filter(p);
        match &results[i].1 {
            None => {
                ok = ok + 1;
            },
            Some(e) => {
                if bad > 0 {
                    push_chars(&mut err, "; ");
                }
                push_chars(&mut err, results[i].0.as_str());
                push_chars(&mut err, ": ");
                push_chars(&mut err, e.as_str());
                bad = bad + 1;
                proof {
                    let fs1 = results@.take(i + 1).filter(p);
                    assert(fs1 =~= fs0.push(results@[i as int]));
                    assert(fs1.drop_last() =~= fs0);
                    assert(fs1.last() == results@[i as int]);
                    if fs0.len() == 0 {
                        assert(err@ =~= joined_errors(fs1));
                    } else {
                        assert(err@ =~= joined_errors(fs1));
                    }
                }
            },
        }
        i = i + 1;
    }
    proof {
        assert(results@.take(n as int) =~= results@);
    }
    (ok, bad, string_from_chars(&err))
}

/// The whole tool's state apart from rendering and I/O.
pub struct FileListerApp {
    pub selected_folder: Option<String>,
    pub files: Vec<FileInfo>,
    pub filtered_files: Vec<FileInfo>,
    pub status_message: String,
    pub error_message: Option<String>,
    pub recursive: bool,
    pub sort_column: SortColumn,
    pub sort_order: SortOrder,
    pub filter_text: String,
    /// Occurrence counts of each full name over the whole snapshot.
    pub duplicate_counts: DupCounts,
    pub show_duplicates_only: bool,
    pub show_today_only: bool,
    /// Index into `filtered_files` of the row being renamed.
    pub editing_index: Option<usize>,
    pub editing_text: String,
    pub request_rename_focus: bool,
    /// Selected row indices into `filtered_files`, strictly increasing.
    pub selected_files: Vec<usize>,
    pub show_delete_confirm: bool,
    /// (absolute path, full name) of each file awaiting confirmed deletion.
    pub pending_delete_paths: Vec<(String, String)>,
    pub is_scanning: bool,
    pub preview: PreviewPipeline,
    pub video_backend: Capability,
    pub pdf_backend: Capability,
    /// The wall clock, in seconds, of the last filter evaluation.
    pub filter_now: Ghost<u64>,
    /// The local zone's offset east of UTC, in seconds, at the last
    /// filter evaluation.
    pub filter_offset: Ghost<int>,
}

impl FileListerApp {
    /// The state every method preserves: the selection is a strictly
    /// increasing index list, the duplicate counts describe the current
    /// snapshot, the visible rows are the filter pipeline's output over
    /// it, and the preview pipeline is well formed.
    pub open spec fn inv(self) -> bool {
        &&& sel_sorted(self.selected_files@)
        &&& dup_counts_consistent(self.duplicate_counts, self.files@)
        &&& self.filtered_files@ == visible_spec(
            self.files@,
            lower_of(self.filter_text@),
            self.show_duplicates_only,
            self.show_today_only,
            self.filter_now@,
            self.filter_offset@,
        )
        &&& self.preview.wf()
    }

    /// A fresh, empty state.
    pub fn new() -> (app: FileListerApp)
        ensures
            app.inv(),
            app.selected_folder is None,
            app.files@.len() == 0,
            app.filtered_files@.len() == 0,
            app.status_message@ == "Select a folder to scan"@,
            app.error_message is None,
            !app.recursive,
            app.sort_column == SortColumn::Name,
            app.sort_order == SortOrder::Ascending,
            app.filter_text@.len() == 0,
            !app.show_duplicates_only,
            !app.show_today_only,
            app.editing_index is None,
            app.selected_files@.len() == 0,
            !app.show_delete_confirm,
            app.pending_delete_paths@.len() == 0,
            !app.is_scanning,
            app.preview.cache@.len() == 0,
            app.preview.slot is Idle,
            app.video_backend is Unknown,
            app.pdf_backend is Unknown,
    {
        let files: Vec<FileInfo> = Vec::new();
        let app = FileListerApp {
            selected_folder: None,
            files,
            filtered_files: Vec::new(),
            status_message: "Select a folder to scan".to_owned(),
            error_message: None,
            recursive: false,
            sort_column: SortColumn::Name,
            sort_order: SortOrder::Ascending,
            filter_text: String::new(),
            duplicate_counts: DupCounts::new(),
            show_duplicates_only: false,
            show_today_only: false,
            editing_index: None,
            editing_text: String::new(),
            request_rename_focus: false,
            selected_files: Vec::new(),
            show_delete_confirm: false,
            pending_delete_paths: Vec::new(),
            is_scanning: false,
            preview: PreviewPipeline::new(),
            video_backend: Capability::new(),
            pdf_backend: Capability::new(),
            filter_now: Ghost(0),
            filter_offset: Ghost(0),
        };
        proof {
            reveal(Seq::filter);
            assert(visible_spec(
                app.files@,
                lower_of(app.filter_text@),
                false,
                false,
                app.filter_now@,
                app.filter_offset@,
            ) =~= Seq::<FileInfo>::empty());
        }
        app
    }

    /// Starts a scan of the selected folder: clears the stale selection
    /// and preview cache, forgets the previous error, and — when a folder
    /// is selected — enters the scanning state and hands back the job the
    /// caller must run in the background. A scan already in flight is
    /// simply superseded when its result later fails to find a receiver.
    pub fn begin_scan(&mut self) -> (job: Option<(String, bool)>)
        requires
            old(self).inv(),
        ensures
            final(self).inv(),
            final(self).error_message is None,
            final(self).selected_files@.len() == 0,
            final(self).preview.cache@.len() == 0,
            final(self).files@ == old(self).files@,
            final(self).filtered_files@ == old(self).filtered_files@,
            old(self).selected_folder is Some ==> {
                &&& final(self).is_scanning
                &&& final(self).status_message@ == "Scanning..."@
                &&& job == Some((old(self).selected_folder->0, old(self).recursive))
            },
            old(self).selected_folder is None ==> job is None
                && final(self).is_scanning == old(self).is_scanning,
    {
        self.error_message = None;
        self.selected_files = Vec::new();
        self.preview.clear_cache();
        match &self.selected_folder {
            Some(folder) => {
                let f = folder.clone();
                self.is_scanning = true;
                self.status_message = "Scanning...".to_owned();
                Some((f, self.recursive))
            },
            None => None,
        }
    }

    /// Recomputes the duplicate counts and the visible rows from the
    /// current snapshot and filter state, clearing the selection whose
    /// positional indices the change invalidates. The duplicate counts
    /// depend on the snapshot alone: toggling a filter cannot change them.
    pub fn apply_filter(&mut self, now: u64, tz_offset: i32)
        requires
            old(self).preview.wf(),
            crate::valid_offset(tz_offset as int),
        ensures
            final(self).inv(),
            final(self).files@ == old(self).files@,
            final(self).selected_files@.len() == 0,
            dup_counts_consistent(final(self).duplicate_counts, old(self).files@),
            final(self).filtered_files@ == visible_spec(
                old(self).files@,
                lower_of(old(self).filter_text@),
                old(self).show_duplicates_only,
                old(self).show_today_only,
                now,
                tz_offset as int,
            ),
            final(self).filter_text == old(self).filter_text,
            final(self).show_duplicates_only == old(self).show_duplicates_only,
            final(self).show_today_only == old(self).show_today_only,
            final(self).sort_column == old(self).sort_column,
            final(self).sort_order == old(self).sort_order,
            final(self).status_message == old(self).status_message,
            final(self).error_message == old(self).error_message,
            final(self).is_scanning == old(self).is_scanning,
            final(self).preview == old(self).preview,
    {
        self.selected_files = Vec::new();
        self.duplicate_counts = compute_duplicates(&self.files);
        self.filtered_files = apply_filters(
            &self.files,
            &self.filter_text,
            self.show_duplicates_only,
            self.show_today_only,
            now,
            tz_offset,
        );
        self.filter_now = Ghost(now);
        self.filter_offset = Ghost(tz_offset as int);
    }

    /// Re-sorts the snapshot by the active column and direction and then
    /// re-derives the visible rows.
    pub fn sort_files(&mut self, now: u64, tz_offset: i32)
        requires
            old(self).preview.wf(),
            crate::valid_offset(tz_offset as int),
        ensures
            final(self).inv(),
            final(self).files@ == sort_spec(
                old(self).files@,
                old(self).sort_column,
                old(self).sort_order,
            ),
            final(self).sort_column == old(self).sort_column,
            final(self).sort_order == old(self).sort_order,
            final(self).selected_files@.len() == 0,
            final(self).filtered_files@ == visible_spec(
                final(self).files@,
                lower_of(old(self).filter_text@),
                old(self).show_duplicates_only,
                old(self).show_today_only,
                now,
                tz_offset as int,
            ),
            final(self).filter_text == old(self).filter_text,
            final(self).show_duplicates_only == old(self).show_duplicates_only,
            final(self).show_today_only == old(self).show_today_only,
            final(self).status_message == old(self).status_message,
            final(self).error_message == old(self).error_message,
            final(self).is_scanning == old(self).is_scanning,
            final(self).preview == old(self).preview,
    {
        self.files = sort_records(&self.files, self.sort_column, self.sort_order);
        self.apply_filter(now, tz_offset);
    }

    /// Takes the scan result the background task delivered. A snapshot
    /// replaces the old one wholesale and is sorted and filtered; an error
    /// clears the listing entirely — no partial results survive.
    pub fn scan_delivered(&mut self, result: Result<Vec<FileInfo>, String>, now: u64, tz_offset: i32)
        requires
            old(self).inv(),
            crate::valid_offset(tz_offset as int),
        ensures
            final(self).inv(),
            !final(self).is_scanning,
            result matches Ok(v) ==> {
                &&& final(self).files@ == sort_spec(
                    v@,
                    old(self).sort_column,
                    old(self).sort_order,
                )
                &&& final(self).status_message@ == "Scanned: "@ + dec_digits(v@.len())
                    + " files found"@
                &&& final(self).filtered_files@ == visible_spec(
                    final(self).files@,
                    lower_of(old(self).filter_text@),
                    old(self).show_duplicates_only,
                    old(self).show_today_only,
                    now,
                    tz_offset as int,
                )
            },
            result matches Err(e) ==> {
                &&& final(self).error_message matches Some(m) && m@ == "Error scanning folder: "@
                    + e@
                &&& final(self).files@.len() == 0
                &&& final(self).filtered_files@.len() == 0
            },
    {
        match result {
            Ok(v) => {
                let n: u64 = v.len() as u64;
                let mut digits: Vec<char> = Vec::new();
                push_dec(&mut digits, n);
                let ds = string_from_chars(&digits);
                self.status_message = join3("Scanned: ", ds.as_str(), " files found");
                self.files = v;
                self.sort_files(now, tz_offset);
            },
            Err(e) => {
                self.error_message = Some(join2("Error scanning folder: ", e.as_str()));
                self.files = Vec::new();
                self.filtered_files = Vec::new();
                self.selected_files = Vec::new();
                self.duplicate_counts = compute_duplicates(&self.files);
                self.filter_now = Ghost(now);
                self.filter_offset = Ghost(tz_offset as int);
                let ghost fl = lower_of(self.filter_text@);
                proof {
                    reveal(Seq::filter);
                    assert(visible_spec(
                        Seq::<FileInfo>::empty(),
                        fl,
                        self.show_duplicates_only,
                        self.show_today_only,
                        now,
                        tz_offset as int,
                    ) =~= Seq::<FileInfo>::empty());
                    assert(self.files@ =~= Seq::<FileInfo>::empty());
                }
            },
        }
        self.is_scanning = false;
    }

    /// A click on a column header: the same column flips the direction,
    /// a new column starts ascending; the rows are re-sorted either way.
    pub fn toggle_sort(&mut self, column: SortColumn, now: u64, tz_offset: i32)
        requires
            old(self).inv(),
            crate::valid_offset(tz_offset as int),
        ensures
            final(self).inv(),
            old(self).sort_column == column ==> final(self).sort_column == column
                && final(self).sort_order == (if old(self).sort_order == SortOrder::Ascending {
                SortOrder::Descending
            } else {
                SortOrder::Ascending
            }),
            old(self).sort_column != column ==> final(self).sort_column == column
                && final(self).sort_order == SortOrder::Ascending,
            final(self).files@ == sort_spec(
                old(self).files@,
                final(self).sort_column,
                final(self).sort_order,
            ),
    {
        if self.sort_column == column {
            self.sort_order = match self.sort_order {
                SortOrder::Ascending => SortOrder::Descending,
                SortOrder::Descending => SortOrder::Ascending,
            };
        } else {
            self.sort_column = column;
            self.sort_order = SortOrder::Ascending;
        }
        self.sort_files(now, tz_offset);
    }

    /// The marker shown on a column header: the direction on the active
    /// column, nothing elsewhere.
    pub fn get_sort_indicator(&self, column: SortColumn) -> (r: &'static str)
        ensures
            self.sort_column == column && self.sort_order == SortOrder::Ascending ==> r@ == " ^"@,
            self.sort_column == column && self.sort_order == SortOrder::Descending ==> r@ == " v"@,
            self.sort_column != column ==> r@ == ""@,
    {
        if self.sort_column == column {
            match self.sort_order {
                SortOrder::Ascending => " ^",
                SortOrder::Descending => " v",
            }
        } else {
            ""
        }
    }

    /// Flips one row's membership in the selection.
    pub fn toggle_selection(&mut self, idx: usize)
        requires
            old(self).inv(),
        ensures
            final(self).inv(),
            final(self).selected_files@.contains(idx) == !old(self).selected_files@.contains(idx),
            forall|v: usize|
                v != idx ==> final(self).selected_files@.contains(v) == old(self).selected_files@.contains(v),
            final(self).files@ == old(self).files@,
            final(self).filtered_files@ == old(self).filtered_files@,
    {
        let n = self.selected_files.len();
        let mut k: usize = 0;
        while k < n && self.selected_files[k] < idx
            invariant
                n == self.selected_files@.len(),
                k <= n,
                forall|j: int| 0 <= j < k ==> self.selected_files@[j] < idx,
                sel_sorted(self.selected_files@),
            decreases n - k,
        {
            k = k + 1;
        }
        let ghost s0 = self.selected_files@;
        if k < n && self.selected_files[k] == idx {
            self.selected_files.remove(k);
            proof {
                let s1 = self.selected_files@;
                assert(s1 =~= s0.subrange(0, k as int) + s0.subrange(k + 1, s0.len() as int));
                assert(!s1.contains(idx)) by {
                    if s1.contains(idx) {
                        let j = choose|j: int| 0 <= j < s1.len() && s1[j] == idx;
                        if j < k {
                            assert(s0[j] == idx && s0[k as int] == idx);
                        } else {
                            assert(s0[j + 1] == idx && s0[k as int] == idx);
                        }
                    }
                }
                assert(s0.contains(idx)) by {
                    assert(s0[k as int] == idx);
                }
                assert forall|v: usize| v != idx implies s1.contains(v) == s0.contains(v) by {
                    if s0.contains(v) {
                        let j = choose|j: int| 0 <= j < s0.len() && s0[j] == v;
                        if j < k {
                            assert(s1[j] == v);
                        } else {
                            assert(s1[j - 1] == v);
                        }
                    }
                    if s1.contains(v) {
                        let j = choose|j: int| 0 <= j < s1.len() && s1[j] == v;
                        if j < k {
                            assert(s0[j] == v);
                        } else {
                            assert(s0[j + 1] == v);
                        }
                    }
                }
            }
        } else {
            self.selected_files.insert(k, idx);
            proof {
                let s1 = self.selected_files@;
                assert(s1 =~= s0.subrange(0, k as int) + seq![idx] + s0.subrange(
                    k as int,
                    s0.len() as int,
                ));
                assert(forall|j: int| k <= j < s0.len() ==> s0[j] > idx) by {
                    assert(k < s0.len() ==> s0[k as int] != idx && s0[k as int] >= idx);
                    assert forall|j: int| k < j < s0.len() implies s0[j] > idx by {
                        assert(s0[k as int] < s0[j]);
                    }
                }
                assert(s1.contains(idx)) by {
                    assert(s1[k as int] == idx);
                }
                assert(!s0.contains(idx)) by {
                    if s0.contains(idx) {
                        let j = choose|j: int| 0 <= j < s0.len() && s0[j] == idx;
                    }
                }
                assert(sel_sorted(s1)) by {
                    assert forall|a: int, b: int| 0 <= a < b < s1.len() implies s1[a] < s1[b] by {
                        if a < k && b == k {
                        } else if a == k && b > k {
                        } else if a < k && b > k {
                            assert(s1[a] == s0[a] && s1[b] == s0[b - 1]);
                        }
                    }
                }
                assert forall|v: usize| v != idx implies s1.contains(v) == s0.contains(v) by {
                    if s0.contains(v) {
                        let j = choose|j: int| 0 <= j < s0.len() && s0[j] == v;
                        if j < k {
                            assert(s1[j] == v);
                        } else {
                            assert(s1[j + 1] == v);
                        }
                    }
                    if s1.contains(v) {
                        let j = choose|j: int| 0 <= j < s1.len() && s1[j] == v;
                        if j < k {
                            assert(s0[j] == v);
                        } else if j == k {
                        } else {
                            assert(s0[j - 1] == v);
                        }
                    }
                }
            }
        }
    }

    /// Selects every visible row.
    pub fn select_all(&mut self)
        requires
            old(self).inv(),
        ensures
            final(self).inv(),
            forall|v: usize|
                final(self).selected_files@.contains(v) == ((v as int) < final(self).filtered_files@.len()),
            final(self).filtered_files@ == old(self).filtered_files@,
            final(self).files@ == old(self).files@,
    {
        let n = self.filtered_files.len();
        let mut sel: Vec<usize> = Vec::new();
        let mut i: usize = 0;
        while i < n
            invariant
                i <= n,
                sel@.len() == i,
                forall|j: int| 0 <= j < i ==> sel@[j] == j,
            decreases n - i,
        {
            sel.push(i);
            i = i + 1;
        }
        self.selected_files = sel;
        proof {
            assert forall|v: usize|
                self.selected_files@.contains(v) == ((v as int) < self.filtered_files@.len()) by {
                if (v as int) < self.filtered_files@.len() {
                    assert(self.selected_files@[v as int] == v);
                }
                if self.selected_files@.contains(v) {
                    let j = choose|j: int|
                        0 <= j < self.selected_files@.len() && self.selected_files@[j] == v;
                }
            }
        }
    }

    /// Clears the selection.
    pub fn deselect_all(&mut self)
        requires
            old(self).inv(),
        ensures
            final(self).inv(),
            final(self).selected_files@.len() == 0,
            final(self).files@ == old(self).files@,
            final(self).filtered_files@ == old(self).filtered_files@,
    {
        self.selected_files = Vec::new();
    }

    /// The (absolute path, full name) pairs of the selected rows, in
    /// index order, skipping indices no longer backed by a visible row.
    pub fn selected_paths(&self) -> (r: Vec<(String, String)>)
        ensures
            r@ == selected_paths_spec(self.selected_files@, self.filtered_files@),
    {
        let n = self.selected_files.len();
        let mut out: Vec<(String, String)> = Vec::new();
        let mut i: usize = 0;
        let ghost sel = self.selected_files@;
        let ghost fs = self.filtered_files@;
        let ghost p = |i: usize| (i as int) < fs.len();
        let ghost m = |i: usize| (fs[i as int].absolute_path, fs[i as int].full_name);
        proof {
            reveal(Seq::filter);
            assert(sel.take(0).filter(p) =~= Seq::<usize>::empty());
            assert(out@ =~= sel.take(0).filter(p).map_values(m));
        }
        while i < n
            invariant
                n == sel.len(),
                i <= n,
                sel == self.selected_files@,
                fs == self.filtered_files@,
                p == |i: usize| (i as int) < fs.len(),
                m == |i: usize| (fs[i as int].absolute_path, fs[i as int].full_name),
                out@ == sel.take(i as int).filter(p).map_values(m),
            decreases n - i,
        {
            proof {
                assert(sel.take(i + 1).drop_last() =~= sel.take(i as int));
                assert(sel.take(i + 1).last() == sel[i as int]);
                assert(sel.take(i + 1) =~= sel.take(i as int).push(sel[i as int]));
                crate::sorting::lemma_filter_push(sel.take(i as int), sel[i as int], p);
            }
            let idx = self.selected_files[i];
            if idx < self.filtered_files.len() {
                let f = &self.filtered_files[idx];
                out.push((f.absolute_path.clone(), f.full_name.clone()));
                proof {
                    assert(out@ =~= sel.take(i + 1).filter(p).map_values(m));
                }
            } else {
                proof {
                    assert(out@ =~= sel.take(i + 1).filter(p).map_values(m));
                }
            }
            i = i + 1;
        }
        proof {
            assert(sel.take(n as int) =~= sel);
        }
        out
    }

    /// Collects the selected files for the delete confirmation; the modal
    /// opens only when something is actually selected.
    pub fn prepare_bulk_delete(&mut self)
        requires
            old(self).inv(),
        ensures
            final(self).inv(),
            final(self).pending_delete_paths@ == selected_paths_spec(
                old(self).selected_files@,
                old(self).filtered_files@,
            ),
            final(self).show_delete_confirm == (final(self).pending_delete_paths@.len() > 0),
            final(self).files@ == old(self).files@,
            final(self).filtered_files@ == old(self).filtered_files@,
    {
        self.pending_delete_paths = self.selected_paths();
        self.show_delete_confirm = !self.pending_delete_paths.is_empty();
    }

    /// Closes the confirmation without touching anything.
    pub fn cancel_bulk_delete(&mut self)
        requires
            old(self).inv(),
        ensures
            final(self).inv(),
            final(self).pending_delete_paths@.len() == 0,
            !final(self).show_delete_confirm,
            final(self).files@ == old(self).files@,
            final(self).filtered_files@ == old(self).filtered_files@,
    {
        self.pending_delete_paths = Vec::new();
        self.show_delete_confirm = false;
    }

    /// Begins renaming one visible row, seeding the edit box with its
    /// current full name.
    pub fn start_rename(&mut self, idx: usize)
        requires
            old(self).inv(),
        ensures
            final(self).inv(),
            (idx as int) < old(self).filtered_files@.len() ==> {
                &&& final(self).editing_index == Some(idx)
                &&& final(self).editing_text == old(self).filtered_files@[idx as int].full_name
                &&& final(self).request_rename_focus
            },
            (idx as int) >= old(self).filtered_files@.len() ==> *final(self) == *old(self),
            final(self).files@ == old(self).files@,
            final(self).filtered_files@ == old(self).filtered_files@,
    {
        if idx < self.filtered_files.len() {
            self.editing_index = Some(idx);
            self.editing_text = self.filtered_files[idx].full_name.clone();
            self.request_rename_focus = true;
        }
    }

    /// Abandons the rename in progress.
    pub fn cancel_rename(&mut self)
        requires
            old(self).inv(),
        ensures
            final(self).inv(),
            final(self).editing_index is None,
            final(self).editing_text@.len() == 0,
            !final(self).request_rename_focus,
            final(self).files@ == old(self).files@,
            final(self).filtered_files@ == old(self).filtered_files@,
    {
        self.editing_index = None;
        self.editing_text = String::new();
        self.request_rename_focus = false;
    }

    /// Ends the rename: when a row is being edited and the trimmed text is
    /// neither empty nor the unchanged name, hands back the rename the
    /// caller must perform on disk — (absolute path, new name) — and
    /// always leaves edit mode.
    pub fn confirm_rename(&mut self) -> (job: Option<(String, String)>)
        requires
            old(self).inv(),
        ensures
            final(self).inv(),
            final(self).editing_index is None,
            !final(self).request_rename_focus,
            final(self).files@ == old(self).files@,
            final(self).filtered_files@ == old(self).filtered_files@,
            job matches Some((path, name)) ==> {
                &&& old(self).editing_index matches Some(idx)
                &&& (idx as int) < old(self).filtered_files@.len()
                &&& path == old(self).filtered_files@[idx as int].absolute_path
                &&& name@ == trim_spec(old(self).editing_text@)
                &&& name@.len() > 0
                &&& name@ != old(self).filtered_files@[idx as int].full_name@
            },
            job is None ==> (match old(self).editing_index {
                Some(idx) => (idx as int) >= old(self).filtered_files@.len() || trim_spec(
                    old(self).editing_text@,
                ).len() == 0 || trim_spec(old(self).editing_text@) == old(self).filtered_files@[idx as int].full_name@,
                None => true,
            }),
    {
        let mut job: Option<(String, String)> = None;
        if let Some(idx) = self.editing_index {
            if idx < self.filtered_files.len() {
                let trimmed = trim_chars(&chars_vec(self.editing_text.as_str()));
                let new_name = string_from_chars(&trimmed);
                let current = &self.filtered_files[idx].full_name;
                if trimmed.len() > 0 && !new_name.eq(current) {
                    job = Some((self.filtered_files[idx].absolute_path.clone(), new_name));
                }
            }
        }
        self.cancel_rename();
        job
    }

    /// Whether the backend a kind of file needs has passed its probe;
    /// images need none.
    pub open spec fn backend_ready_spec(self, kind: crate::preview::PreviewKind) -> bool {
        match kind {
            crate::preview::PreviewKind::Image => true,
            crate::preview::PreviewKind::Video => self.video_backend is Ready,
            crate::preview::PreviewKind::Pdf => self.pdf_backend is Ready,
        }
    }

    /// Asks for a hover preview of one visible row. Nothing starts for a
    /// row that does not exist, is not previewable, or whose backend is
    /// not ready, nor when the row's thumbnail is already cached or
    /// already loading; otherwise the slot takes the request — replacing
    /// any other in-flight load — and the caller must run one extraction
    /// of the returned path with the returned backend.
    pub fn load_hover_preview(&mut self, idx: usize, now_ms: u64) -> (job: Option<
        (String, crate::preview::PreviewKind),
    >)
        requires
            old(self).inv(),
        ensures
            final(self).inv(),
            final(self).files@ == old(self).files@,
            final(self).filtered_files@ == old(self).filtered_files@,
            final(self).preview.cache@ == old(self).preview.cache@,
            job is None ==> final(self).preview.slot == old(self).preview.slot,
            job matches Some((path, kind)) ==> {
                let row = old(self).filtered_files@[idx as int];
                &&& (idx as int) < old(self).filtered_files@.len()
                &&& Some(kind) == crate::preview::kind_of_ext(row.extension@)
                &&& old(self).backend_ready_spec(kind)
                &&& path == row.absolute_path
                &&& !crate::preview::cache_has(old(self).preview.cache@, path@)
                &&& (final(self).preview.slot matches PreviewSlot::Loading {
                    path: p,
                    start_ms: t,
                } && p == path && t == now_ms)
            },
            (match (if (idx as int) < old(self).filtered_files@.len() {
                crate::preview::kind_of_ext(old(self).filtered_files@[idx as int].extension@)
            } else {
                None
            }) {
                Some(kind) => job is Some == (old(self).backend_ready_spec(kind)
                    && !crate::preview::cache_has(
                    old(self).preview.cache@,
                    old(self).filtered_files@[idx as int].absolute_path@,
                ) && !crate::preview::slot_loading(
                    old(self).preview.slot,
                    old(self).filtered_files@[idx as int].absolute_path@,
                )),
                None => job is None,
            }),
    {
        if idx >= self.filtered_files.len() {
            return None;
        }
        let kind = match crate::preview::classify_extension(self.filtered_files[idx].extension.as_str()) {
            Some(k) => k,
            None => {
                return None;
            },
        };
        let ready = match kind {
            crate::preview::PreviewKind::Image => true,
            crate::preview::PreviewKind::Video => self.video_backend.is_ready(),
            crate::preview::PreviewKind::Pdf => self.pdf_backend.is_ready(),
        };
        if !ready {
            return None;
        }
        let path = self.filtered_files[idx].absolute_path.clone();
        if self.preview.request(&path, true, now_ms) {
            Some((path, kind))
        } else {
            None
        }
    }

    /// The duplicate marker for one full name: the number of records in
    /// the whole snapshot carrying it, when that number exceeds one.
    pub fn is_duplicate(&self, full_name: &String) -> (r: Option<usize>)
        requires
            self.inv(),
        ensures
            r == (if crate::view::dup_count(self.files@, full_name@) > 1 {
                Some(crate::view::dup_count(self.files@, full_name@) as usize)
            } else {
                None::<usize>
            }),
    {
        self.duplicate_counts.is_duplicate(full_name)
    }

    /// Takes the per-item outcomes of a confirmed bulk delete: counts the
    /// successes and failures, reports them — "Deleted N files" or
    /// "Deleted N files, M failed" with the failures' errors joined — and
    /// clears the confirmation state. The caller re-scans afterwards so
    /// the listing reflects the disk even under partial failure.
    pub fn record_bulk_delete_results(&mut self, results: &Vec<(String, Option<String>)>)
        requires
            old(self).inv(),
        ensures
            final(self).inv(),
            final(self).pending_delete_paths@.len() == 0,
            !final(self).show_delete_confirm,
            final(self).selected_files@.len() == 0,
            failures(results@).len() == 0 ==> {
                &&& final(self).status_message@ == "Deleted "@ + dec_digits(results@.len())
                    + " files"@
                &&& final(self).error_message is None
            },
            failures(results@).len() > 0 ==> {
                &&& final(self).status_message@ == "Deleted "@ + dec_digits(
                    (results@.len() - failures(results@).len()) as nat,
                ) + " files, "@ + dec_digits(failures(results@).len()) + " failed"@
                &&& final(self).error_message matches Some(m) && m@ == joined_errors(
                    failures(results@),
                )
            },
            final(self).files@ == old(self).files@,
            final(self).filtered_files@ == old(self).filtered_files@,
    {
        let (deleted, failed, err) = summarize_results(results);
        let mut msg: Vec<char> = Vec::new();
        push_chars(&mut msg, "Deleted ");
        push_dec(&mut msg, deleted);
        if failed == 0 {
            push_chars(&mut msg, " files");
            self.status_message = string_from_chars(&msg);
            self.error_message = None;
            proof {
                assert(msg@ =~= "Deleted "@ + dec_digits(results@.len()) + " files"@);
            }
        } else {
            push_chars(&mut msg, " files, ");
            push_dec(&mut msg, failed);
            push_chars(&mut msg, " failed");
            self.status_message = string_from_chars(&msg);
            self.error_message = Some(err);
            proof {
                assert(msg@ =~= "Deleted "@ + dec_digits(
                    (results@.len() - failures(results@).len()) as nat,
                ) + " files, "@ + dec_digits(failures(results@).len()) + " failed"@);
            }
        }
        self.pending_delete_paths = Vec::new();
        self.show_delete_confirm = false;
        self.selected_files = Vec::new();
    }

    /// Takes the per-item outcomes of a bulk move, reporting "Moved N
    /// files to DEST" or "Moved N files, M failed" and clearing the
    /// selection. The caller re-scans afterwards.
    pub fn record_bulk_move_results(
        &mut self,
        results: &Vec<(String, Option<String>)>,
        dest_display: &String,
    )
        requires
            old(self).inv(),
        ensures
            final(self).inv(),
            final(self).selected_files@.len() == 0,
            failures(results@).len() == 0 ==> {
                &&& final(self).status_message@ == "Moved "@ + dec_digits(results@.len())
                    + " files to "@ + dest_display@
                &&& final(self).error_message is None
            },
            failures(results@).len() > 0 ==> {
                &&& final(self).status_message@ == "Moved "@ + dec_digits(
                    (results@.len() - failures(results@).len()) as nat,
                ) + " files, "@ + dec_digits(failures(results@).len()) + " failed"@
                &&& final(self).error_message matches Some(m) && m@ == joined_errors(
                    failures(results@),
                )
            },
            final(self).files@ == old(self).files@,
            final(self).filtered_files@ == old(self).filtered_files@,
    {
        let (moved, failed, err) = summarize_results(results);
        let mut msg: Vec<char> = Vec::new();
        push_chars(&mut msg, "Moved ");
        push_dec(&mut msg, moved);
        if failed == 0 {
            push_chars(&mut msg, " files to ");
            push_chars(&mut msg, dest_display.as_str());
            self.status_message = string_from_chars(&msg);
            self.error_message = None;
            proof {
                assert(msg@ =~= "Moved "@ + dec_digits(results@.len()) + " files to "@
                    + dest_display@);
            }
        } else {
            push_chars(&mut msg, " files, ");
            push_dec(&mut msg, failed);
            push_chars(&mut msg, " failed");
            self.status_message = string_from_chars(&msg);
            self.error_message = Some(err);
            proof {
                assert(msg@ =~= "Moved "@ + dec_digits(
                    (results@.len() - failures(results@).len()) as nat,
                ) + " files, "@ + dec_digits(failures(results@).len()) + " failed"@);
            }
        }
        self.selected_files = Vec::new();
    }

    /// Takes a CSV export's outcome, reporting how many visible rows went
    /// to which file, or the error.
    pub fn record_export_result(&mut self, path_display: &String, error: Option<String>)
        requires
            old(self).inv(),
        ensures
            final(self).inv(),
            error is None ==> {
                &&& final(self).status_message@ == "Exported "@ + dec_digits(
                    old(self).filtered_files@.len(),
                ) + " files to: "@ + path_display@
                &&& final(self).error_message is None
            },
            error matches Some(e) ==> final(self).error_message matches Some(m) && m@
                == "Export failed: "@ + e@,
            final(self).files@ == old(self).files@,
            final(self).filtered_files@ == old(self).filtered_files@,
    {
        match error {
            None => {
                let mut msg: Vec<char> = Vec::new();
                push_chars(&mut msg, "Exported ");
                push_dec(&mut msg, self.filtered_files.len() as u64);
                push_chars(&mut msg, " files to: ");
                push_chars(&mut msg, path_display.as_str());
                self.status_message = string_from_chars(&msg);
                self.error_message = None;
                proof {
                    assert(msg@ =~= "Exported "@ + dec_digits(self.filtered_files@.len())
                        + " files to: "@ + path_display@);
                }
            },
            Some(e) => {
                self.error_message = Some(join2("Export failed: ", e.as_str()));
            },
        }
    }

    /// Takes a single delete's outcome: success reports the file and asks
    /// for a re-scan; failure keeps the listing and shows the error.
    pub fn record_delete_result(&mut self, file_name: &String, error: Option<String>) -> (rescan:
        bool)
        requires
            old(self).inv(),
        ensures
            final(self).inv(),
            error is None ==> {
                &&& rescan
                &&& final(self).status_message@ == "Deleted: "@ + file_name@
                &&& final(self).error_message is None
            },
            error matches Some(e) ==> {
                &&& !rescan
                &&& final(self).error_message matches Some(m) && m@ == "Delete failed: "@ + e@
            },
            final(self).files@ == old(self).files@,
            final(self).filtered_files@ == old(self).filtered_files@,
    {
        match error {
            None => {
                self.status_message = join2("Deleted: ", file_name.as_str());
                self.error_message = None;
                true
            },
            Some(e) => {
                self.error_message = Some(join2("Delete failed: ", e.as_str()));
                false
            },
        }
    }

    /// Takes a single rename's outcome.
    pub fn record_rename_result(&mut self, new_name: &String, error: Option<String>) -> (rescan:
        bool)
        requires
            old(self).inv(),
        ensures
            final(self).inv(),
            error is None ==> {
                &&& rescan
                &&& final(self).status_message@ == "Renamed to: "@ + new_name@
                &&& final(self).error_message is None
            },
            error matches Some(e) ==> {
                &&& !rescan
                &&& final(self).error_message matches Some(m) && m@ == "Rename failed: "@ + e@
            },
            final(self).files@ == old(self).files@,
            final(self).filtered_files@ == old(self).filtered_files@,
    {
        match error {
            None => {
                self.status_message = join2("Renamed to: ", new_name.as_str());
                self.error_message = None;
                true
            },
            Some(e) => {
                self.error_message = Some(join2("Rename failed: ", e.as_str()));
                false
            },
        }
    }

    /// Takes a single move's outcome. A failed copy leaves everything in
    /// place; a copy whose source could not be removed afterwards is
    /// reported as partial — the data is duplicated, never lost — and
    /// still triggers a re-scan so the listing reflects the disk.
    pub fn record_move_result(
        &mut self,
        file_name: &String,
        dest_display: &String,
        outcome: MoveOutcome,
    ) -> (rescan: bool)
        requires
            old(self).inv(),
        ensures
            final(self).inv(),
            (outcome is Renamed || outcome is CopiedThenDeleted) ==> {
                &&& rescan
                &&& final(self).status_message@ == "Moved: "@ + file_name@ + " -> "@
                    + dest_display@
                &&& final(self).error_message is None
            },
            outcome matches MoveOutcome::CopyFailed(e) ==> {
                &&& !rescan
                &&& final(self).error_message matches Some(m) && m@ == "Move failed: "@ + e@
            },
            outcome matches MoveOutcome::DeleteAfterCopyFailed(e) ==> {
                &&& rescan
                &&& final(self).error_message matches Some(m) && m@
                    == "Move partial: copied but failed to delete source: "@ + e@
            },
            final(self).files@ == old(self).files@,
            final(self).filtered_files@ == old(self).filtered_files@,
    {
        match outcome {
            MoveOutcome::Renamed | MoveOutcome::CopiedThenDeleted => {
                let head = join3("Moved: ", file_name.as_str(), " -> ");
                self.status_message = join2(head.as_str(), dest_display.as_str());
                self.error_message = None;
                proof {
                    assert(self.status_message@ =~= "Moved: "@ + file_name@ + " -> "@
                        + dest_display@);
                }
                true
            },
            MoveOutcome::CopyFailed(e) => {
                self.error_message = Some(join2("Move failed: ", e.as_str()));
                false
            },
            MoveOutcome::DeleteAfterCopyFailed(e) => {
                self.error_message = Some(
                    join2("Move partial: copied but failed to delete source: ", e.as_str()),
                );
                true
            },
        }
    }
}

} // verus!
