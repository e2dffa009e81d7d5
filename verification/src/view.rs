//! The view engine: duplicate counts over the whole snapshot, and the
//! text / duplicates-only / today-only filter stages that produce the
//! visible rows. Duplicate counts are case-sensitive on the full file
//! name, deliberately unlike the case-insensitive filtering and sorting.

use vstd::prelude::*;
use vstd::string::*;
use crate::is_today_spec;
use crate::is_today_at;
use crate::record::FileInfo;
use crate::text::{chars_vec, contains_seq, contains_chars, lower_of, lowercase, str_eq};

verus! {

/// Number of records in `s` whose full name is exactly `full_name`.
pub open spec fn dup_count(s: Seq<FileInfo>, full_name: Seq<char>) -> nat {
    s.filter(|r: FileInfo| r.full_name@ == full_name).len()
}

/// A record is a duplicate when its full name occurs more than once in the
/// whole snapshot, filters notwithstanding.
pub open spec fn is_dup(s: Seq<FileInfo>, full_name: Seq<char>) -> bool {
    dup_count(s, full_name) > 1
}

/// A snapshot with no record named `full_name` has count zero.
proof fn lemma_dup_count_absent(s: Seq<FileInfo>, full_name: Seq<char>)
    requires
        forall|k: int| 0 <= k < s.len() ==> s[k].full_name@ != full_name,
    ensures
        dup_count(s, full_name) == 0,
    decreases s.len(),
{
    reveal(Seq::filter);
    if s.len() > 0 {
        assert(forall|k: int| 0 <= k < s.len() - 1 ==> s.drop_last()[k] == s[k]);
        lemma_dup_count_absent(s.drop_last(), full_name);
        assert(s[s.len() - 1].full_name@ != full_name);
    }
}

/// Counting is over a prefix-extension: one more record raises exactly its
/// own name's count by one.
proof fn lemma_dup_count_push(s: Seq<FileInfo>, r: FileInfo, full_name: Seq<char>)
    ensures
        dup_count(s.push(r), full_name) == if r.full_name@ == full_name {
            dup_count(s, full_name) + 1
        } else {
            dup_count(s, full_name)
        },
{
    let p = |x: FileInfo| x.full_name@ == full_name;
    reveal(Seq::filter);
    assert(s.push(r).drop_last() =~= s);
}

/// Cached duplicate counts: one entry per distinct full name in the
/// snapshot, each holding that name's count over the whole snapshot.
pub struct DupCounts {
    pub entries: Vec<(String, usize)>,
}

/// The count an entry list reports for a name: the first matching entry's
/// count, or zero.
pub open spec fn dc_lookup(es: Seq<(String, usize)>, full_name: Seq<char>) -> nat
    decreases es.len(),
{
    if es.len() == 0 {
        0
    } else if es[0].0@ == full_name {
        es[0].1 as nat
    } else {
        dc_lookup(es.drop_first(), full_name)
    }
}

/// Some entry carries this name.
pub open spec fn dc_has(es: Seq<(String, usize)>, full_name: Seq<char>) -> bool {
    exists|k: int| 0 <= k < es.len() && es[k].0@ == full_name
}

/// The cache agrees with the snapshot on every name.
pub open spec fn dup_counts_consistent(dc: DupCounts, s: Seq<FileInfo>) -> bool {
    forall|full_name: Seq<char>| dc_lookup(dc.entries@, full_name) == dup_count(s, full_name)
}

proof fn lemma_dc_lookup_push(es: Seq<(String, usize)>, e: (String, usize), full_name: Seq<char>)
    ensures
        dc_lookup(es.push(e), full_name) == if dc_has(es, full_name) {
            dc_lookup(es, full_name)
        } else if e.0@ == full_name {
            e.1 as nat
        } else {
            0
        },
    decreases es.len(),
{
    assert(es.push(e)[0] == if es.len() == 0 {
        e
    } else {
        es[0]
    });
    if es.len() == 0 {
        assert(es.push(e).drop_first() =~= Seq::<(String, usize)>::empty());
        assert(!dc_has(es, full_name));
        if e.0@ == full_name {
            assert(dc_lookup(es.push(e), full_name) == e.1 as nat);
        } else {
            assert(dc_lookup(es.push(e).drop_first(), full_name) == 0);
            assert(dc_lookup(es.push(e), full_name) == 0);
        }
    } else if es[0].0@ == full_name {
        assert(dc_has(es, full_name));
        assert(dc_lookup(es.push(e), full_name) == es[0].1 as nat);
        assert(dc_lookup(es, full_name) == es[0].1 as nat);
    } else {
        assert(es.push(e).drop_first() =~= es.drop_first().push(e));
        lemma_dc_lookup_push(es.drop_first(), e, full_name);
        assert(dc_lookup(es.push(e), full_name) == dc_lookup(es.drop_first().push(e), full_name));
        assert(dc_lookup(es, full_name) == dc_lookup(es.drop_first(), full_name));
        if dc_has(es.drop_first(), full_name) {
            let k = choose|k: int|
                0 <= k < es.drop_first().len() && es.drop_first()[k].0@ == full_name;
            assert(es[k + 1].0@ == full_name);
            assert(dc_has(es, full_name));
        } else if dc_has(es, full_name) {
            let k = choose|k: int| 0 <= k < es.len() && es[k].0@ == full_name;
            assert(k != 0);
            assert(es.drop_first()[k - 1].0@ == full_name);
            assert(dc_has(es.drop_first(), full_name));
        }
    }
}

/// Number of records in the snapshot carrying exactly this full name.
pub fn duplicate_count(files: &Vec<FileInfo>, full_name: &String) -> (c: usize)
    ensures
        c == dup_count(files@, full_name@),
{
    let n = files.len();
    let mut c: usize = 0;
    let mut i: usize = 0;
    proof {
        reveal(Seq::filter);
        assert(files@.take(0).filter(|r: FileInfo| r.full_name@ == full_name@) =~= Seq::<
            FileInfo,
        >::empty());
    }
    while i < n
        invariant
            n == files@.len(),
            i <= n,
            c == dup_count(files@.take(i as int), full_name@),
            c <= i,
        decreases n - i,
    {
        proof {
            assert(files@.take(i + 1).drop_last() =~= files@.take(i as int));
            assert(files@.take(i + 1).last() == files@[i as int]);
            lemma_dup_count_push(files@.take(i as int), files@[i as int], full_name@);
            assert(files@.take(i + 1) =~= files@.take(i as int).push(files@[i as int]));
        }
        if files[i].full_name.eq(full_name) {
            c = c + 1;
        }
        i = i + 1;
    }
    proof {
        assert(files@.take(n as int) =~= files@);
    }
    c
}

/// Whether the cache already has an entry for this name.
fn dc_find(entries: &Vec<(String, usize)>, full_name: &String) -> (r: bool)
    ensures
        r == dc_has(entries@, full_name@),
{
    let n = entries.len();
    let mut i: usize = 0;
    while i < n
        invariant
            n == entries@.len(),
            i <= n,
            forall|k: int| 0 <= k < i ==> entries@[k].0@ != full_name@,
        decreases n - i,
    {
        if entries[i].0.eq(full_name) {
            return true;
        }
        i = i + 1;
    }
    false
}

/// Recomputes duplicate counts over the whole snapshot. The counts depend
/// on the snapshot alone, so no later filter toggle can change them.
pub fn compute_duplicates(files: &Vec<FileInfo>) -> (dc: DupCounts)
    ensures
        dup_counts_consistent(dc, files@),
{
    let n = files.len();
    let mut entries: Vec<(String, usize)> = Vec::new();
    let mut i: usize = 0;
    while i < n
        invariant
            n == files@.len(),
            i <= n,
            forall|full_name: Seq<char>|
                dc_has(entries@, full_name) <==> exists|k: int|
                    0 <= k < i && files@[k].full_name@ == full_name,
            forall|full_name: Seq<char>|
                dc_lookup(entries@, full_name) == if dc_has(entries@, full_name) {
                    dup_count(files@, full_name)
                } else {
                    0
                },
        decreases n - i,
    {
        let fname = &files[i].full_name;
        if !dc_find(&entries, fname) {
            let c = duplicate_count(files, fname);
            let ghost old_entries = entries@;
            entries.push((fname.clone(), c));
            proof {
                assert forall|full_name: Seq<char>|
                    dc_lookup(entries@, full_name) == (if dc_has(entries@, full_name) {
                        dup_count(files@, full_name)
                    } else {
                        0nat
                    }) by {
                    lemma_dc_lookup_push(old_entries, entries@.last(), full_name);
                    if dc_has(old_entries, full_name) {
                        let k = choose|k: int|
                            0 <= k < old_entries.len() && old_entries[k].0@ == full_name;
                        assert(entries@[k].0@ == full_name);
                    }
                }
                assert forall|full_name: Seq<char>|
                    dc_has(entries@, full_name) <==> exists|k: int|
                        0 <= k < i + 1 && files@[k].full_name@ == full_name by {
                    if dc_has(entries@, full_name) {
                        let k = choose|k: int|
                            0 <= k < entries@.len() && entries@[k].0@ == full_name;
                        if k < old_entries.len() {
                            assert(dc_has(old_entries, full_name));
                        } else {
                            assert(files@[i as int].full_name@ == full_name);
                        }
                    }
                    if exists|k: int| 0 <= k < i + 1 && files@[k].full_name@ == full_name {
                        let k = choose|k: int|
                            0 <= k < i + 1 && files@[k].full_name@ == full_name;
                        if k < i {
                            assert(dc_has(old_entries, full_name));
                            let m = choose|m: int|
                                0 <= m < old_entries.len() && old_entries[m].0@ == full_name;
                            assert(entries@[m].0@ == full_name);
                        } else {
                            assert(entries@[entries@.len() - 1].0@ == full_name);
                        }
                    }
                }
            }
        } else {
            proof {
                assert forall|full_name: Seq<char>|
                    dc_has(entries@, full_name) <==> exists|k: int|
                        0 <= k < i + 1 && files@[k].full_name@ == full_name by {
                    if exists|k: int| 0 <= k < i + 1 && files@[k].full_name@ == full_name {
                        let k = choose|k: int|
                            0 <= k < i + 1 && files@[k].full_name@ == full_name;
                        if k == i && files@[i as int].full_name@ == full_name {
                            assert(dc_has(entries@, files@[i as int].full_name@));
                        }
                    }
                }
            }
        }
        i = i + 1;
    }
    let dc = DupCounts { entries };
    proof {
        assert forall|full_name: Seq<char>|
            dc_lookup(dc.entries@, full_name) == dup_count(files@, full_name) by {
            if !dc_has(dc.entries@, full_name) {
                assert(forall|k: int| 0 <= k < n ==> files@[k].full_name@ != full_name);
                lemma_dup_count_absent(files@, full_name);
            }
        }
    }
    dc
}

impl DupCounts {
    /// An empty cache, consistent with the empty snapshot.
    pub fn new() -> (dc: DupCounts)
        ensures
            dc.entries@ =~= Seq::<(String, usize)>::empty(),
            dup_counts_consistent(dc, Seq::<FileInfo>::empty()),
    {
        let dc = DupCounts { entries: Vec::new() };
        proof {
            reveal(Seq::filter);
        }
        dc
    }

    /// The count recorded for a full name; zero when the name is unknown.
    pub fn lookup(&self, full_name: &String) -> (c: usize)
        ensures
            c == dc_lookup(self.entries@, full_name@),
    {
        let n = self.entries.len();
        let mut i: usize = 0;
        proof {
            assert(self.entries@.skip(0) =~= self.entries@);
        }
        while i < n
            invariant
                n == self.entries@.len(),
                i <= n,
                dc_lookup(self.entries@, full_name@) == dc_lookup(
                    self.entries@.skip(i as int),
                    full_name@,
                ),
            decreases n - i,
        {
            proof {
                assert(self.entries@.skip(i as int)[0] == self.entries@[i as int]);
                assert(self.entries@.skip(i as int).drop_first() =~= self.entries@.skip(i + 1));
            }
            if self.entries[i].0.eq(full_name) {
                return self.entries[i].1;
            }
            i = i + 1;
        }
        0
    }

    /// The count when the name occurs more than once; `None` for a name
    /// that is unique or unknown.
    pub fn is_duplicate(&self, full_name: &String) -> (r: Option<usize>)
        ensures
            r == (if dc_lookup(self.entries@, full_name@) > 1 {
                Some(dc_lookup(self.entries@, full_name@) as usize)
            } else {
                None::<usize>
            }),
    {
        let c = self.lookup(full_name);
        if c > 1 {
            Some(c)
        } else {
            None
        }
    }
}

/// The case-insensitive text filter: a record passes when the lowered
/// filter text occurs in its lowered name, extension, relative path or
/// full name. The empty filter passes everything.
pub open spec fn matches_text(r: FileInfo, filter_lower: Seq<char>) -> bool {
    ||| contains_seq(lower_of(r.name@), filter_lower)
    ||| contains_seq(lower_of(r.extension@), filter_lower)
    ||| contains_seq(lower_of(r.relative_path@), filter_lower)
    ||| contains_seq(lower_of(r.full_name@), filter_lower)
}

/// The visible rows: the text filter, then the duplicates-only filter,
/// then the today-only filter, each over the previous stage's output.
/// Duplicate counts always refer to the whole snapshot `s`.
pub open spec fn visible_spec(
    s: Seq<FileInfo>,
    filter_lower: Seq<char>,
    dups_only: bool,
    today_only: bool,
    now: u64,
    offset: int,
) -> Seq<FileInfo> {
    let t1 = s.filter(|r: FileInfo| matches_text(r, filter_lower));
    let t2 = if dups_only {
        t1.filter(|r: FileInfo| is_dup(s, r.full_name@))
    } else {
        t1
    };
    if today_only {
        t2.filter(|r: FileInfo| is_today_spec(r.modified_timestamp, now, offset))
    } else {
        t2
    }
}

/// One record's text-filter test.
pub fn matches_text_exec(r: &FileInfo, filter_lower: &Vec<char>) -> (b: bool)
    ensures
        b == matches_text(*r, filter_lower@),
{
    let ln = lowercase(r.name.as_str());
    if contains_chars(&chars_vec(ln.as_str()), filter_lower) {
        return true;
    }
    let le = lowercase(r.extension.as_str());
    if contains_chars(&chars_vec(le.as_str()), filter_lower) {
        return true;
    }
    let lp = lowercase(r.relative_path.as_str());
    if contains_chars(&chars_vec(lp.as_str()), filter_lower) {
        return true;
    }
    let lf = lowercase(r.full_name.as_str());
    contains_chars(&chars_vec(lf.as_str()), filter_lower)
}

/// Computes the visible rows for a snapshot under the given filter state.
/// `now` is the wall clock in seconds used by the today-only stage, and
/// `tz_offset` the local zone's offset east of UTC that anchors its
/// midnight boundary.
pub fn apply_filters(
    files: &Vec<FileInfo>,
    filter_text: &String,
    dups_only: bool,
    today_only: bool,
    now: u64,
    tz_offset: i32,
) -> (r: Vec<FileInfo>)
    requires
        crate::valid_offset(tz_offset as int),
    ensures
        r@ == visible_spec(
            files@,
            lower_of(filter_text@),
            dups_only,
            today_only,
            now,
            tz_offset as int,
        ),
{
    let filter_lower_s = lowercase(filter_text.as_str());
    let filter_lower = chars_vec(filter_lower_s.as_str());
    let ghost fl = lower_of(filter_text@);

    let n = files.len();
    let mut t1: Vec<FileInfo> = Vec::new();
    let mut i: usize = 0;
    proof {
        reveal(Seq::filter);
        assert(files@.take(0).filter(|r: FileInfo| matches_text(r, fl)) =~= Seq::<
            FileInfo,
        >::empty());
    }
    while i < n
        invariant
            n == files@.len(),
            i <= n,
            filter_lower@ == fl,
            t1@ == files@.take(i as int).filter(|r: FileInfo| matches_text(r, fl)),
        decreases n - i,
    {
        proof {
            assert(files@.take(i + 1).drop_last() =~= files@.take(i as int));
            assert(files@.take(i + 1).last() == files@[i as int]);
            reveal(Seq::filter);
        }
        if matches_text_exec(&files[i], &filter_lower) {
            t1.push(crate::sorting::clone_record(&files[i]));
        }
        i = i + 1;
    }
    proof {
        assert(files@.take(n as int) =~= files@);
    }

    let t2: Vec<FileInfo> = if dups_only {
        let m = t1.len();
        let mut out: Vec<FileInfo> = Vec::new();
        let mut j: usize = 0;
        proof {
            reveal(Seq::filter);
            assert(t1@.take(0).filter(|r: FileInfo| is_dup(files@, r.full_name@)) =~= Seq::<
                FileInfo,
            >::empty());
        }
        while j < m
            invariant
                m == t1@.len(),
                j <= m,
                out@ == t1@.take(j as int).filter(|r: FileInfo| is_dup(files@, r.full_name@)),
            decreases m - j,
        {
            proof {
                assert(t1@.take(j + 1).drop_last() =~= t1@.take(j as int));
                assert(t1@.take(j + 1).last() == t1@[j as int]);
                reveal(Seq::filter);
            }
            let c = duplicate_count(files, &t1[j].full_name);
            if c > 1 {
                out.push(crate::sorting::clone_record(&t1[j]));
            }
            j = j + 1;
        }
        proof {
            assert(t1@.take(m as int) =~= t1@);
        }
        out
    } else {
        t1
    };

    if today_only {
        let m = t2.len();
        let mut out: Vec<FileInfo> = Vec::new();
        let mut j: usize = 0;
        proof {
            reveal(Seq::filter);
            assert(t2@.take(0).filter(
                |r: FileInfo| is_today_spec(r.modified_timestamp, now, tz_offset as int),
            ) =~= Seq::<FileInfo>::empty());
        }
        while j < m
            invariant
                m == t2@.len(),
                j <= m,
                crate::valid_offset(tz_offset as int),
                out@ == t2@.take(j as int).filter(
                    |r: FileInfo| is_today_spec(r.modified_timestamp, now, tz_offset as int),
                ),
            decreases m - j,
        {
            proof {
                assert(t2@.take(j + 1).drop_last() =~= t2@.take(j as int));
                assert(t2@.take(j + 1).last() == t2@[j as int]);
                reveal(Seq::filter);
            }
            if is_today_at(t2[j].modified_timestamp, now, tz_offset) {
                out.push(crate::sorting::clone_record(&t2[j]));
            }
            j = j + 1;
        }
        proof {
            assert(t2@.take(m as int) =~= t2@);
        }
        out
    } else {
        t2
    }
}

/// Filtering never changes what counts as a duplicate. A consistent cache
/// reports `dup_count` over the whole snapshot for every name, so any two
/// caches built against the same snapshot — in particular the ones
/// recomputed before and after an arbitrary filter toggle, whose
/// consistency `apply_filter` guarantees with the snapshot unchanged —
/// agree on every name.
pub proof fn lemma_duplicate_counts_filter_invariant(
    dc1: DupCounts,
    dc2: DupCounts,
    s: Seq<FileInfo>,
    full_name: Seq<char>,
)
    requires
        dup_counts_consistent(dc1, s),
        dup_counts_consistent(dc2, s),
    ensures
        dc_lookup(dc1.entries@, full_name) == dc_lookup(dc2.entries@, full_name),
{
    assert(dc_lookup(dc1.entries@, full_name) == dup_count(s, full_name));
    assert(dc_lookup(dc2.entries@, full_name) == dup_count(s, full_name));
}

/// The list icon for a file, chosen by its lowercased extension.
pub open spec fn icon_spec(l: Seq<char>) -> Seq<char> {
    if l == "txt"@ || l == "md"@ || l == "rtf"@ {
        "\u{1F4DD}"@
    } else if l == "pdf"@ {
        "\u{1F4D5}"@
    } else if l == "doc"@ || l == "docx"@ || l == "odt"@ {
        "\u{1F4D8}"@
    } else if l == "xls"@ || l == "xlsx"@ || l == "ods"@ {
        "\u{1F4D7}"@
    } else if l == "ppt"@ || l == "pptx"@ || l == "odp"@ {
        "\u{1F4D9}"@
    } else if l == "jpg"@ || l == "jpeg"@ || l == "png"@ || l == "gif"@ || l == "bmp"@ || l
        == "ico"@ || l == "svg"@ || l == "webp"@ || l == "tiff"@ || l == "tif"@ {
        "\u{1F5BC}"@
    } else if l == "psd"@ || l == "ai"@ || l == "sketch"@ {
        "\u{1F3A8}"@
    } else if l == "mp3"@ || l == "wav"@ || l == "flac"@ || l == "aac"@ || l == "ogg"@ || l
        == "wma"@ || l == "m4a"@ {
        "\u{1F3B5}"@
    } else if l == "mp4"@ || l == "avi"@ || l == "mkv"@ || l == "mov"@ || l == "wmv"@ || l
        == "flv"@ || l == "webm"@ || l == "m4v"@ {
        "\u{1F3AC}"@
    } else if l == "zip"@ || l == "rar"@ || l == "7z"@ || l == "tar"@ || l == "gz"@ || l == "bz2"@
        || l == "xz"@ {
        "\u{1F4E6}"@
    } else if l == "rs"@ || l == "py"@ || l == "js"@ || l == "ts"@ || l == "jsx"@ || l == "tsx"@
        || l == "c"@ || l == "cpp"@ || l == "h"@ || l == "hpp"@ || l == "java"@ || l == "kt"@ || l
        == "go"@ || l == "rb"@ || l == "php"@ || l == "swift"@ || l == "cs"@ || l == "vb"@ {
        "\u{1F4BB}"@
    } else if l == "html"@ || l == "htm"@ || l == "css"@ || l == "scss"@ || l == "sass"@ || l
        == "less"@ {
        "\u{1F310}"@
    } else if l == "sh"@ || l == "bash"@ || l == "ps1"@ || l == "bat"@ || l == "cmd"@ {
        "\u{26A1}"@
    } else if l == "json"@ || l == "xml"@ || l == "csv"@ || l == "sql"@ || l == "db"@ || l
        == "sqlite"@ {
        "\u{1F4CA}"@
    } else if l == "yaml"@ || l == "yml"@ || l == "toml"@ || l == "ini"@ || l == "cfg"@ || l
        == "conf"@ || l == "config"@ || l == "exe"@ || l == "msi"@ || l == "dll"@ || l == "so"@
        || l == "dylib"@ {
        "\u{2699}"@
    } else if l == "ttf"@ || l == "otf"@ || l == "woff"@ || l == "woff2"@ || l == "eot"@ {
        "\u{1F524}"@
    } else {
        "\u{1F4C4}"@
    }
}

/// The icon shown beside a file of this extension.
pub fn get_file_type_icon(extension: &str) -> (r: &'static str)
    ensures
        r@ == icon_spec(lower_of(extension@)),
{
    let l = lowercase(extension);
    if str_eq(&l, "txt") || str_eq(&l, "md") || str_eq(&l, "rtf") {
        "\u{1F4DD}"
    } else if str_eq(&l, "pdf") {
        "\u{1F4D5}"
    } else if str_eq(&l, "doc") || str_eq(&l, "docx") || str_eq(&l, "odt") {
        "\u{1F4D8}"
    } else if str_eq(&l, "xls") || str_eq(&l, "xlsx") || str_eq(&l, "ods") {
        "\u{1F4D7}"
    } else if str_eq(&l, "ppt") || str_eq(&l, "pptx") || str_eq(&l, "odp") {
        "\u{1F4D9}"
    } else if str_eq(&l, "jpg") || str_eq(&l, "jpeg") || str_eq(&l, "png") || str_eq(&l, "gif")
        || str_eq(&l, "bmp") || str_eq(&l, "ico") || str_eq(&l, "svg") || str_eq(&l, "webp")
        || str_eq(&l, "tiff") || str_eq(&l, "tif") {
        "\u{1F5BC}"
    } else if str_eq(&l, "psd") || str_eq(&l, "ai") || str_eq(&l, "sketch") {
        "\u{1F3A8}"
    } else if str_eq(&l, "mp3") || str_eq(&l, "wav") || str_eq(&l, "flac") || str_eq(&l, "aac")
        || str_eq(&l, "ogg") || str_eq(&l, "wma") || str_eq(&l, "m4a") {
        "\u{1F3B5}"
    } else if str_eq(&l, "mp4") || str_eq(&l, "avi") || str_eq(&l, "mkv") || str_eq(&l, "mov")
        || str_eq(&l, "wmv") || str_eq(&l, "flv") || str_eq(&l, "webm") || str_eq(&l, "m4v") {
        "\u{1F3AC}"
    } else if str_eq(&l, "zip") || str_eq(&l, "rar") || str_eq(&l, "7z") || str_eq(&l, "tar")
        || str_eq(&l, "gz") || str_eq(&l, "bz2") || str_eq(&l, "xz") {
        "\u{1F4E6}"
    } else if str_eq(&l, "rs") || str_eq(&l, "py") || str_eq(&l, "js") || str_eq(&l, "ts")
        || str_eq(&l, "jsx") || str_eq(&l, "tsx") || str_eq(&l, "c") || str_eq(&l, "cpp")
        || str_eq(&l, "h") || str_eq(&l, "hpp") || str_eq(&l, "java") || str_eq(&l, "kt")
        || str_eq(&l, "go") || str_eq(&l, "rb") || str_eq(&l, "php") || str_eq(&l, "swift")
        || str_eq(&l, "cs") || str_eq(&l, "vb") {
        "\u{1F4BB}"
    } else if str_eq(&l, "html") || str_eq(&l, "htm") || str_eq(&l, "css") || str_eq(&l, "scss")
        || str_eq(&l, "sass") || str_eq(&l, "less") {
        "\u{1F310}"
    } else if str_eq(&l, "sh") || str_eq(&l, "bash") || str_eq(&l, "ps1") || str_eq(&l, "bat")
        || str_eq(&l, "cmd") {
        "\u{26A1}"
    } else if str_eq(&l, "json") || str_eq(&l, "xml") || str_eq(&l, "csv") || str_eq(&l, "sql")
        || str_eq(&l, "db") || str_eq(&l, "sqlite") {
        "\u{1F4CA}"
    } else if str_eq(&l, "yaml") || str_eq(&l, "yml") || str_eq(&l, "toml") || str_eq(&l, "ini")
        || str_eq(&l, "cfg") || str_eq(&l, "conf") || str_eq(&l, "config") || str_eq(&l, "exe")
        || str_eq(&l, "msi") || str_eq(&l, "dll") || str_eq(&l, "so") || str_eq(&l, "dylib") {
        "\u{2699}"
    } else if str_eq(&l, "ttf") || str_eq(&l, "otf") || str_eq(&l, "woff") || str_eq(&l, "woff2")
        || str_eq(&l, "eot") {
        "\u{1F524}"
    } else {
        "\u{1F4C4}"
    }
}

} // verus!
