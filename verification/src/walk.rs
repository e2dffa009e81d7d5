//! The directory walk as a state machine. The caller reads directories and
//! hands each listing in; the walk decides which entries become records and
//! which subdirectories are still to be read. One failed directory read
//! fails the whole walk — the snapshot is the whole subtree or nothing.
//! Per-entry metadata failures only degrade that entry's fields to zero.

use vstd::prelude::*;
use crate::record::{ext_of, make_file_info, stem_of, FileInfo};
use crate::sorting::{lemma_filter_push, sort_records, sort_spec, SortColumn, SortOrder};

verus! {

/// Why a scan failed: the root is not a directory, or a directory read
/// failed mid-walk.
#[derive(Clone, Debug)]
pub enum ScanError {
    NotADirectory,
    Io(String),
}

#[derive(Clone, Copy, PartialEq, Eq, Structural, Debug)]
pub enum EntryKind {
    File,
    Dir,
    Other,
}

/// Raw data of one directory entry, as the reader found it. A `None` size
/// or timestamp records a failed metadata call for that entry.
pub struct RawEntry {
    pub full_name: String,
    pub relative_path: String,
    pub absolute_path: String,
    pub kind: EntryKind,
    pub size: Option<u64>,
    pub modified: Option<i64>,
}

/// The record a raw file entry turns into.
pub open spec fn is_record_of(r: FileInfo, e: RawEntry) -> bool {
    &&& r.name@ == stem_of(e.full_name@)
    &&& r.extension@ == ext_of(e.full_name@)
    &&& r.full_name == e.full_name
    &&& r.relative_path == e.relative_path
    &&& r.absolute_path == e.absolute_path
    &&& r.file_size == (if e.size is Some {
        e.size->0
    } else {
        0u64
    })
    &&& r.modified_timestamp == (if e.modified is Some {
        e.modified->0
    } else {
        0i64
    })
}

/// The file entries of a listing, in listing order.
pub open spec fn file_entries(es: Seq<RawEntry>) -> Seq<RawEntry> {
    es.filter(|e: RawEntry| e.kind == EntryKind::File)
}

/// The subdirectories a listing adds to the walk: all of them when the
/// walk is recursive, none otherwise.
pub open spec fn subdir_paths(es: Seq<RawEntry>, recursive: bool) -> Seq<String> {
    if recursive {
        es.filter(|e: RawEntry| e.kind == EntryKind::Dir).map_values(|e: RawEntry| e.absolute_path)
    } else {
        Seq::empty()
    }
}

/// An in-progress directory walk.
pub struct Walk {
    pub recursive: bool,
    /// Directories still to be read, in stack order.
    pub pending: Vec<String>,
    /// Records collected so far, in encounter order.
    pub records: Vec<FileInfo>,
    /// The first directory-read failure, which aborts the walk.
    pub failed: Option<String>,
}

impl Walk {
    /// A walk of the tree rooted at `root`.
    pub fn new(root: String, recursive: bool) -> (w: Walk)
        ensures
            w.recursive == recursive,
            w.pending@ =~= seq![root],
            w.records@ =~= Seq::<FileInfo>::empty(),
            w.failed is None,
    {
        let mut pending: Vec<String> = Vec::new();
        pending.push(root);
        Walk { recursive, pending, records: Vec::new(), failed: None }
    }

    /// The next directory to read, if the walk is still running and any
    /// remains. Taking it removes it from the pending stack.
    pub fn next_dir(&mut self) -> (r: Option<String>)
        ensures
            final(self).recursive == old(self).recursive,
            final(self).records@ == old(self).records@,
            final(self).failed == old(self).failed,
            old(self).failed is Some || old(self).pending@.len() == 0 ==> r is None
                && final(self).pending@ == old(self).pending@,
            old(self).failed is None && old(self).pending@.len() > 0 ==> r == Some(
                old(self).pending@.last(),
            ) && final(self).pending@ == old(self).pending@.drop_last(),
    {
        if self.failed.is_some() {
            return None;
        }
        self.pending.pop()
    }

    /// Feeds one directory's listing into the walk. A read error fails the
    /// whole walk; otherwise every file entry becomes a record, and every
    /// subdirectory is queued when the walk is recursive.
    pub fn deliver(&mut self, listing: Result<Vec<RawEntry>, String>)
        ensures
            final(self).recursive == old(self).recursive,
            old(self).failed is Some ==> *final(self) == *old(self),
            old(self).failed is None && listing is Err ==> {
                &&& final(self).failed == Some(listing->Err_0)
                &&& final(self).records@ == old(self).records@
                &&& final(self).pending@ == old(self).pending@
            },
            old(self).failed is None && listing is Ok ==> {
                let es = (listing->Ok_0)@;
                &&& final(self).failed is None
                &&& final(self).records@.len() == old(self).records@.len() + file_entries(
                    es,
                ).len()
                &&& forall|k: int|
                    0 <= k < old(self).records@.len() ==> final(self).records@[k] == old(
                        self,
                    ).records@[k]
                &&& forall|k: int|
                    0 <= k < file_entries(es).len() ==> is_record_of(
                        #[trigger] final(self).records@[old(self).records@.len() + k],
                        file_entries(es)[k],
                    )
                &&& final(self).pending@ == old(self).pending@ + subdir_paths(
                    es,
                    old(self).recursive,
                )
            },
    {
        if self.failed.is_some() {
            return;
        }
        let entries = match listing {
            Err(e) => {
                self.failed = Some(e);
                return;
            },
            Ok(entries) => entries,
        };
        let ghost es = entries@;
        let ghost rec0 = self.records@;
        let ghost pen0 = self.pending@;
        let n = entries.len();
        let mut i: usize = 0;
        proof {
            reveal(Seq::filter);
            assert(file_entries(es.take(0)) =~= Seq::<RawEntry>::empty());
            assert(subdir_paths(es.take(0), self.recursive) =~= Seq::<String>::empty());
            assert(self.pending@ =~= pen0 + subdir_paths(es.take(0), self.recursive));
        }
        while i < n
            invariant
                n == es.len(),
                i <= n,
                entries@ == es,
                self.recursive == old(self).recursive,
                self.failed is None,
                self.records@.len() == rec0.len() + file_entries(es.take(i as int)).len(),
                forall|k: int| 0 <= k < rec0.len() ==> self.records@[k] == rec0[k],
                forall|k: int|
                    0 <= k < file_entries(es.take(i as int)).len() ==> is_record_of(
                        #[trigger] self.records@[rec0.len() + k],
                        file_entries(es.take(i as int))[k],
                    ),
                self.pending@ == pen0 + subdir_paths(es.take(i as int), self.recursive),
            decreases n - i,
        {
            let ghost prefix = es.take(i as int);
            proof {
                assert(es.take(i + 1).drop_last() =~= prefix);
                assert(es.take(i + 1).last() == es[i as int]);
                assert(es.take(i + 1) =~= prefix.push(es[i as int]));
                lemma_filter_push(prefix, es[i as int], |e: RawEntry| e.kind == EntryKind::File);
                lemma_filter_push(prefix, es[i as int], |e: RawEntry| e.kind == EntryKind::Dir);
            }
            let e = &entries[i];
            match e.kind {
                EntryKind::File => {
                    let r = make_file_info(
                        e.full_name.clone(),
                        e.relative_path.clone(),
                        e.absolute_path.clone(),
                        match e.size {
                            Some(s) => Some(s),
                            None => None,
                        },
                        match e.modified {
                            Some(t) => Some(t),
                            None => None,
                        },
                    );
                    self.records.push(r);
                    proof {
                        let fe = file_entries(es.take(i + 1));
                        assert(fe =~= file_entries(prefix).push(es[i as int]));
                        if self.recursive {
                            assert(subdir_paths(es.take(i + 1), self.recursive) =~= subdir_paths(
                                prefix,
                                self.recursive,
                            ));
                        }
                    }
                },
                EntryKind::Dir => {
                    if self.recursive {
                        self.pending.push(e.absolute_path.clone());
                    }
                    proof {
                        assert(file_entries(es.take(i + 1)) =~= file_entries(prefix));
                        if self.recursive {
                            let d = |x: RawEntry| x.kind == EntryKind::Dir;
                            assert(prefix.push(es[i as int]).filter(d) =~= prefix.filter(d).push(
                                es[i as int],
                            ));
                            assert(subdir_paths(es.take(i + 1), self.recursive) =~= subdir_paths(
                                prefix,
                                self.recursive,
                            ).push(es[i as int].absolute_path));
                            assert(self.pending@ =~= pen0 + subdir_paths(
                                es.take(i + 1),
                                self.recursive,
                            ));
                        }
                    }
                },
                EntryKind::Other => {
                    proof {
                        assert(file_entries(es.take(i + 1)) =~= file_entries(prefix));
                        if self.recursive {
                            assert(subdir_paths(es.take(i + 1), self.recursive) =~= subdir_paths(
                                prefix,
                                self.recursive,
                            ));
                        }
                    }
                },
            }
            i = i + 1;
        }
        proof {
            assert(es.take(n as int) =~= es);
        }
    }

    /// Ends the walk: the whole collection ordered ascending by
    /// case-insensitive relative path, or the error that aborted it.
    pub fn finish(self) -> (r: Result<Vec<FileInfo>, ScanError>)
        ensures
            self.failed is Some ==> (r matches Err(e) && e matches ScanError::Io(m) && m
                == self.failed->0),
            self.failed is None ==> (r matches Ok(v) && v@ == sort_spec(
                self.records@,
                SortColumn::Path,
                SortOrder::Ascending,
            )),
    {
        match self.failed {
            Some(m) => Err(ScanError::Io(m)),
            None => Ok(sort_records(&self.records, SortColumn::Path, SortOrder::Ascending)),
        }
    }
}

} // verus!
