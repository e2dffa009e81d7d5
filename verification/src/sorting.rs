//! Stable sorting of file records by one column in one direction.
//!
//! The comparison lowercases text columns and compares scalar values, so it
//! is a total preorder, not antisymmetric: distinct records can have equal
//! keys. Sorting is by insertion, which keeps records with equal keys in
//! their pre-sort relative order; stability is stated through `filter`:
//! restricting input and output to any one key class yields the same
//! sequence.

use vstd::prelude::*;
use vstd::string::*;
use crate::record::FileInfo;
use crate::text::{chars_vec, lex_le, lex_le_chars, lemma_lex_le_total, lemma_lex_le_trans, lower_of, lowercase};

verus! {

#[derive(Clone, Copy, PartialEq, Eq, Structural, Debug)]
pub enum SortColumn {
    Name,
    Extension,
    Size,
    Path,
    Date,
}

#[derive(Clone, Copy, PartialEq, Eq, Structural, Debug)]
pub enum SortOrder {
    Ascending,
    Descending,
}

/// Ascending "less than or equal" between two records under one column:
/// case-insensitive lexicographic order for text columns, numeric order
/// for size and timestamp.
pub open spec fn rec_le_asc(col: SortColumn, a: FileInfo, b: FileInfo) -> bool {
    match col {
        SortColumn::Name => lex_le(lower_of(a.name@), lower_of(b.name@)),
        SortColumn::Extension => lex_le(lower_of(a.extension@), lower_of(b.extension@)),
        SortColumn::Size => a.file_size <= b.file_size,
        SortColumn::Path => lex_le(lower_of(a.relative_path@), lower_of(b.relative_path@)),
        SortColumn::Date => a.modified_timestamp <= b.modified_timestamp,
    }
}

/// The active ordering: ascending order, or its reverse.
pub open spec fn rec_le(col: SortColumn, dir: SortOrder, a: FileInfo, b: FileInfo) -> bool {
    match dir {
        SortOrder::Ascending => rec_le_asc(col, a, b),
        SortOrder::Descending => rec_le_asc(col, b, a),
    }
}

/// Two records have equal sort keys under a column. Equal keys compare
/// equal in both directions, so ties keep their pre-sort order whichever
/// direction is active.
pub open spec fn key_eq(col: SortColumn, a: FileInfo, b: FileInfo) -> bool {
    rec_le_asc(col, a, b) && rec_le_asc(col, b, a)
}

/// Any two records are ordered one way or the other.
pub proof fn lemma_rec_le_total(col: SortColumn, dir: SortOrder, a: FileInfo, b: FileInfo)
    ensures
        rec_le(col, dir, a, b) || rec_le(col, dir, b, a),
{
    match col {
        SortColumn::Name => lemma_lex_le_total(lower_of(a.name@), lower_of(b.name@)),
        SortColumn::Extension => lemma_lex_le_total(lower_of(a.extension@), lower_of(b.extension@)),
        SortColumn::Size => {},
        SortColumn::Path => lemma_lex_le_total(lower_of(a.relative_path@), lower_of(b.relative_path@)),
        SortColumn::Date => {},
    }
}

/// The ordering is transitive.
pub proof fn lemma_rec_le_trans(
    col: SortColumn,
    dir: SortOrder,
    a: FileInfo,
    b: FileInfo,
    c: FileInfo,
)
    requires
        rec_le(col, dir, a, b),
        rec_le(col, dir, b, c),
    ensures
        rec_le(col, dir, a, c),
{
    match dir {
        SortOrder::Ascending => lemma_rec_le_asc_trans(col, a, b, c),
        SortOrder::Descending => lemma_rec_le_asc_trans(col, c, b, a),
    }
}

proof fn lemma_rec_le_asc_trans(col: SortColumn, a: FileInfo, b: FileInfo, c: FileInfo)
    requires
        rec_le_asc(col, a, b),
        rec_le_asc(col, b, c),
    ensures
        rec_le_asc(col, a, c),
{
    match col {
        SortColumn::Name => lemma_lex_le_trans(
            lower_of(a.name@),
            lower_of(b.name@),
            lower_of(c.name@),
        ),
        SortColumn::Extension => lemma_lex_le_trans(
            lower_of(a.extension@),
            lower_of(b.extension@),
            lower_of(c.extension@),
        ),
        SortColumn::Size => {},
        SortColumn::Path => lemma_lex_le_trans(
            lower_of(a.relative_path@),
            lower_of(b.relative_path@),
            lower_of(c.relative_path@),
        ),
        SortColumn::Date => {},
    }
}

/// Insertion of `x` into `s` after every element with an equal key: `x`
/// moves left past exactly the elements strictly greater than it.
pub open spec fn insert_sorted(
    s: Seq<FileInfo>,
    x: FileInfo,
    col: SortColumn,
    dir: SortOrder,
) -> Seq<FileInfo>
    decreases s.len(),
{
    if s.len() == 0 {
        seq![x]
    } else if rec_le(col, dir, s.last(), x) {
        s.push(x)
    } else {
        insert_sorted(s.drop_last(), x, col, dir).push(s.last())
    }
}

/// The stable sort of `s`: each element inserted in encounter order.
pub open spec fn sort_spec(s: Seq<FileInfo>, col: SortColumn, dir: SortOrder) -> Seq<FileInfo>
    decreases s.len(),
{
    if s.len() == 0 {
        Seq::empty()
    } else {
        insert_sorted(sort_spec(s.drop_last(), col, dir), s.last(), col, dir)
    }
}

/// The sequence is ordered under the active ordering.
pub open spec fn sorted_rec(s: Seq<FileInfo>, col: SortColumn, dir: SortOrder) -> bool {
    forall|i: int, j: int| 0 <= i < j < s.len() ==> rec_le(col, dir, s[i], s[j])
}

proof fn lemma_insert_sorted_len(s: Seq<FileInfo>, x: FileInfo, col: SortColumn, dir: SortOrder)
    ensures
        insert_sorted(s, x, col, dir).len() == s.len() + 1,
    decreases s.len(),
{
    if s.len() != 0 && !rec_le(col, dir, s.last(), x) {
        lemma_insert_sorted_len(s.drop_last(), x, col, dir);
    }
}

/// Inserting into a sorted sequence keeps it sorted.
proof fn lemma_insert_sorted_sorted(s: Seq<FileInfo>, x: FileInfo, col: SortColumn, dir: SortOrder)
    requires
        sorted_rec(s, col, dir),
    ensures
        sorted_rec(insert_sorted(s, x, col, dir), col, dir),
    decreases s.len(),
{
    let out = insert_sorted(s, x, col, dir);
    if s.len() == 0 {
    } else if rec_le(col, dir, s.last(), x) {
        assert forall|i: int, j: int| 0 <= i < j < out.len() implies rec_le(col, dir, out[i], out[j]) by {
            if j == out.len() - 1 {
                if i < s.len() - 1 {
                    lemma_rec_le_trans(col, dir, s[i], s.last(), x);
                }
            }
        }
    } else {
        let dl = s.drop_last();
        let last = s.last();
        assert(sorted_rec(dl, col, dir));
        lemma_insert_sorted_sorted(dl, x, col, dir);
        lemma_insert_sorted_len(dl, x, col, dir);
        let inner = insert_sorted(dl, x, col, dir);
        // every element of `inner` is at most `last`
        assert forall|i: int| 0 <= i < inner.len() implies rec_le(col, dir, inner[i], last) by {
            lemma_insert_sorted_members(dl, x, col, dir, i);
            if inner[i] == x {
                lemma_rec_le_total(col, dir, last, x);
            } else {
                let k = choose|k: int| 0 <= k < dl.len() && dl[k] == inner[i];
                assert(rec_le(col, dir, s[k], s.last()));
            }
        }
        assert forall|i: int, j: int| 0 <= i < j < out.len() implies rec_le(col, dir, out[i], out[j]) by {
            if j < out.len() - 1 {
                assert(rec_le(col, dir, inner[i], inner[j]));
            }
        }
    }
}

/// Every element of the insertion result is `x` or an element of `s`.
proof fn lemma_insert_sorted_members(
    s: Seq<FileInfo>,
    x: FileInfo,
    col: SortColumn,
    dir: SortOrder,
    i: int,
)
    requires
        0 <= i < insert_sorted(s, x, col, dir).len(),
    ensures
        insert_sorted(s, x, col, dir)[i] == x || exists|k: int|
            0 <= k < s.len() && s[k] == insert_sorted(s, x, col, dir)[i],
    decreases s.len(),
{
    lemma_insert_sorted_len(s, x, col, dir);
    if s.len() == 0 {
    } else if rec_le(col, dir, s.last(), x) {
        if i < s.len() {
            assert(s[i] == insert_sorted(s, x, col, dir)[i]);
        }
    } else {
        let dl = s.drop_last();
        lemma_insert_sorted_len(dl, x, col, dir);
        if i < insert_sorted(dl, x, col, dir).len() {
            lemma_insert_sorted_members(dl, x, col, dir, i);
            let v = insert_sorted(dl, x, col, dir)[i];
            if v != x {
                let k = choose|k: int| 0 <= k < dl.len() && dl[k] == v;
                assert(s[k] == v);
            }
        } else {
            assert(insert_sorted(s, x, col, dir)[i] == s.last());
            assert(s[s.len() - 1] == s.last());
        }
    }
}

/// Inserting adds exactly one occurrence of `x` to the multiset of records.
proof fn lemma_insert_sorted_multiset(
    s: Seq<FileInfo>,
    x: FileInfo,
    col: SortColumn,
    dir: SortOrder,
)
    ensures
        insert_sorted(s, x, col, dir).to_multiset() == s.to_multiset().insert(x),
    decreases s.len(),
{
    broadcast use vstd::seq_lib::group_to_multiset_ensures;

    if s.len() == 0 {
        assert(seq![x] =~= Seq::<FileInfo>::empty().push(x));
        assert(Seq::<FileInfo>::empty().push(x).to_multiset() =~= Seq::<
            FileInfo,
        >::empty().to_multiset().insert(x));
    } else if rec_le(col, dir, s.last(), x) {
        assert(s.push(x).to_multiset() =~= s.to_multiset().insert(x));
    } else {
        let dl = s.drop_last();
        lemma_insert_sorted_multiset(dl, x, col, dir);
        assert(s =~= dl.push(s.last()));
        assert(insert_sorted(dl, x, col, dir).push(s.last()).to_multiset() =~= insert_sorted(
            dl,
            x,
            col,
            dir,
        ).to_multiset().insert(s.last()));
        assert(dl.push(s.last()).to_multiset() =~= dl.to_multiset().insert(s.last()));
        assert(dl.to_multiset().insert(x).insert(s.last()) =~= dl.to_multiset().insert(
            s.last(),
        ).insert(x));
    }
}

/// Filtering a pushed sequence keeps the filtered prefix and appends the
/// new element exactly when it satisfies the predicate.
pub(crate) proof fn lemma_filter_push<A>(s: Seq<A>, a: A, p: spec_fn(A) -> bool)
    ensures
        s.push(a).filter(p) == if p(a) {
            s.filter(p).push(a)
        } else {
            s.filter(p)
        },
{
    reveal(Seq::filter);
    assert(s.push(a).drop_last() =~= s);
    assert(s.push(a).last() == a);
    if p(a) {
        assert(s.push(a).filter(p) =~= s.filter(p).push(a));
    } else {
        assert(s.push(a).filter(p) =~= s.filter(p));
    }
}

/// Inserting appends `x` to its own key class and leaves every class of
/// mutually comparable elements otherwise unchanged.
proof fn lemma_insert_sorted_filter(
    s: Seq<FileInfo>,
    x: FileInfo,
    col: SortColumn,
    dir: SortOrder,
    p: spec_fn(FileInfo) -> bool,
)
    requires
        forall|a: FileInfo, b: FileInfo| p(a) && p(b) ==> rec_le(col, dir, a, b),
    ensures
        insert_sorted(s, x, col, dir).filter(p) == if p(x) {
            s.filter(p).push(x)
        } else {
            s.filter(p)
        },
    decreases s.len(),
{
    if s.len() == 0 {
        reveal(Seq::filter);
        assert(seq![x] =~= Seq::<FileInfo>::empty().push(x));
        lemma_filter_push(Seq::<FileInfo>::empty(), x, p);
        assert(Seq::<FileInfo>::empty().filter(p) =~= Seq::<FileInfo>::empty());
    } else if rec_le(col, dir, s.last(), x) {
        lemma_filter_push(s, x, p);
    } else {
        let dl = s.drop_last();
        let last = s.last();
        lemma_insert_sorted_filter(dl, x, col, dir, p);
        assert(s =~= dl.push(last));
        // `last` is strictly greater than `x`, so they are not in one class.
        if p(x) && p(last) {
            assert(rec_le(col, dir, last, x));
            assert(false);
        }
        let inner = insert_sorted(dl, x, col, dir);
        lemma_filter_push(inner, last, p);
        lemma_filter_push(dl, last, p);
    }
}

/// The sort result is ordered.
pub proof fn lemma_sort_spec_sorted(s: Seq<FileInfo>, col: SortColumn, dir: SortOrder)
    ensures
        sorted_rec(sort_spec(s, col, dir), col, dir),
    decreases s.len(),
{
    if s.len() != 0 {
        lemma_sort_spec_sorted(s.drop_last(), col, dir);
        lemma_insert_sorted_sorted(sort_spec(s.drop_last(), col, dir), s.last(), col, dir);
    }
}

/// The sort result is a permutation of the input.
pub proof fn lemma_sort_spec_multiset(s: Seq<FileInfo>, col: SortColumn, dir: SortOrder)
    ensures
        sort_spec(s, col, dir).to_multiset() == s.to_multiset(),
    decreases s.len(),
{
    broadcast use vstd::seq_lib::group_to_multiset_ensures;

    if s.len() != 0 {
        let dl = s.drop_last();
        lemma_sort_spec_multiset(dl, col, dir);
        lemma_insert_sorted_multiset(sort_spec(dl, col, dir), s.last(), col, dir);
        assert(s =~= dl.push(s.last()));
        assert(dl.push(s.last()).to_multiset() =~= dl.to_multiset().insert(s.last()));
    }
}

/// Stability: restricting the sort result to the key class of any one
/// record yields exactly the input restricted to that class — records with
/// equal keys keep their pre-sort relative order.
pub proof fn lemma_sort_spec_stable(
    s: Seq<FileInfo>,
    col: SortColumn,
    dir: SortOrder,
    pivot: FileInfo,
)
    ensures
        sort_spec(s, col, dir).filter(|y: FileInfo| key_eq(col, y, pivot)) == s.filter(
            |y: FileInfo| key_eq(col, y, pivot),
        ),
    decreases s.len(),
{
    let p = |y: FileInfo| key_eq(col, y, pivot);
    assert forall|a: FileInfo, b: FileInfo| p(a) && p(b) implies rec_le(col, dir, a, b) by {
        lemma_rec_le_asc_trans(col, a, pivot, b);
        lemma_rec_le_asc_trans(col, b, pivot, a);
    }
    reveal(Seq::filter);
    if s.len() != 0 {
        let dl = s.drop_last();
        lemma_sort_spec_stable(dl, col, dir, pivot);
        lemma_insert_sorted_filter(sort_spec(dl, col, dir), s.last(), col, dir, p);
        assert(s =~= dl.push(s.last()));
        if p(s.last()) {
            assert(s.filter(p) =~= dl.filter(p).push(s.last()));
        } else {
            assert(s.filter(p) =~= dl.filter(p));
        }
    }
}

/// Executable comparison under the active column and direction.
pub fn rec_le_exec(a: &FileInfo, b: &FileInfo, col: SortColumn, dir: SortOrder) -> (r: bool)
    ensures
        r == rec_le(col, dir, *a, *b),
{
    let (x, y) = match dir {
        SortOrder::Ascending => (a, b),
        SortOrder::Descending => (b, a),
    };
    match col {
        SortColumn::Name => {
            let lx = lowercase(x.name.as_str());
            let ly = lowercase(y.name.as_str());
            lex_le_chars(&chars_vec(lx.as_str()), &chars_vec(ly.as_str()))
        },
        SortColumn::Extension => {
            let lx = lowercase(x.extension.as_str());
            let ly = lowercase(y.extension.as_str());
            lex_le_chars(&chars_vec(lx.as_str()), &chars_vec(ly.as_str()))
        },
        SortColumn::Size => x.file_size <= y.file_size,
        SortColumn::Path => {
            let lx = lowercase(x.relative_path.as_str());
            let ly = lowercase(y.relative_path.as_str());
            lex_le_chars(&chars_vec(lx.as_str()), &chars_vec(ly.as_str()))
        },
        SortColumn::Date => x.modified_timestamp <= y.modified_timestamp,
    }
}

/// An exact copy of one record.
pub fn clone_record(r: &FileInfo) -> (r2: FileInfo)
    ensures
        r2 == *r,
{
    FileInfo {
        name: r.name.clone(),
        extension: r.extension.clone(),
        full_name: r.full_name.clone(),
        relative_path: r.relative_path.clone(),
        absolute_path: r.absolute_path.clone(),
        file_size: r.file_size,
        modified_timestamp: r.modified_timestamp,
    }
}

/// Characterizes the insertion point found by scanning from the right.
proof fn lemma_insert_sorted_at(
    s: Seq<FileInfo>,
    x: FileInfo,
    col: SortColumn,
    dir: SortOrder,
    j: int,
)
    requires
        0 <= j <= s.len(),
        forall|k: int| j <= k < s.len() ==> !rec_le(col, dir, s[k], x),
        j > 0 ==> rec_le(col, dir, s[j - 1], x),
    ensures
        insert_sorted(s, x, col, dir) == s.take(j).push(x) + s.skip(j),
    decreases s.len(),
{
    if s.len() == 0 {
        assert(insert_sorted(s, x, col, dir) =~= s.take(0).push(x) + s.skip(0));
    } else if rec_le(col, dir, s.last(), x) {
        assert(j == s.len());
        assert(s.take(j) =~= s);
        assert(insert_sorted(s, x, col, dir) =~= s.take(j).push(x) + s.skip(j));
    } else {
        let dl = s.drop_last();
        assert(j <= dl.len());
        lemma_insert_sorted_at(dl, x, col, dir, j);
        assert(dl.take(j) =~= s.take(j));
        assert((dl.take(j).push(x) + dl.skip(j)).push(s.last()) =~= s.take(j).push(x) + s.skip(j));
    }
}

/// Stable sort of the records by the given column and direction.
pub fn sort_records(files: &Vec<FileInfo>, col: SortColumn, dir: SortOrder) -> (r: Vec<FileInfo>)
    ensures
        r@ == sort_spec(files@, col, dir),
{
    let mut out: Vec<FileInfo> = Vec::new();
    let n = files.len();
    let mut i: usize = 0;
    proof {
        assert(files@.take(0) =~= Seq::<FileInfo>::empty());
    }
    while i < n
        invariant
            n == files@.len(),
            i <= n,
            out@ == sort_spec(files@.take(i as int), col, dir),
        decreases n - i,
    {
        let x = clone_record(&files[i]);
        let mut j: usize = out.len();
        let mut stop: bool = false;
        while j > 0 && !stop
            invariant
                j <= out@.len(),
                x == files@[i as int],
                stop ==> j > 0 && rec_le(col, dir, out@[j - 1], x),
                forall|k: int| j <= k < out@.len() ==> !rec_le(col, dir, out@[k], x),
            decreases j + (if stop {
                0int
            } else {
                1int
            }),
        {
            if rec_le_exec(&out[j - 1], &x, col, dir) {
                stop = true;
            } else {
                j = j - 1;
            }
        }
        proof {
            lemma_insert_sorted_at(out@, x, col, dir, j as int);
        }
        out.insert(j, x);
        proof {
            assert(out@ =~= sort_spec(files@.take(i as int), col, dir).take(j as int).push(x)
                + sort_spec(files@.take(i as int), col, dir).skip(j as int));
            assert(files@.take(i + 1).drop_last() =~= files@.take(i as int));
            assert(files@.take(i + 1).last() == files@[i as int]);
        }
        i = i + 1;
    }
    proof {
        assert(files@.take(n as int) =~= files@);
    }
    out
}

} // verus!
