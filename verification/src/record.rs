//! File records: one immutable snapshot of a filesystem entry at scan time.
//! The stem/extension split of a file name follows the usual rule for path
//! components: the extension is what follows the last dot, unless that dot
//! is the leading character.

use vstd::prelude::*;
use vstd::string::*;
use crate::text::{chars_vec, string_from_chars};

verus! {

/// One filesystem entry as captured by a scan. `absolute_path` is the
/// unique cache and selection key within one snapshot.
#[derive(Clone, Debug)]
pub struct FileInfo {
    /// File name without its extension.
    pub name: String,
    /// Extension as found on disk (not lowercased).
    pub extension: String,
    /// Name and extension as they appear on disk.
    pub full_name: String,
    /// Path relative to the scan root.
    pub relative_path: String,
    /// Canonicalized path, unique within one snapshot.
    pub absolute_path: String,
    pub file_size: u64,
    /// Modification time, seconds since the epoch.
    pub modified_timestamp: i64,
}

/// Position of the dot separating stem from extension: the last dot of the
/// name, except a dot in the leading position; `-1` when there is none.
pub open spec fn dot_pos(s: Seq<char>) -> int
    decreases s.len(),
{
    if s.len() <= 1 {
        -1
    } else if s[s.len() - 1] == '.' {
        s.len() - 1
    } else {
        dot_pos(s.drop_last())
    }
}

/// The stem of a file name: everything before the separating dot, or the
/// whole name when there is no extension.
pub open spec fn stem_of(s: Seq<char>) -> Seq<char> {
    if dot_pos(s) < 0 {
        s
    } else {
        s.take(dot_pos(s))
    }
}

/// The extension of a file name: everything after the separating dot, or
/// empty when there is no extension.
pub open spec fn ext_of(s: Seq<char>) -> Seq<char> {
    if dot_pos(s) < 0 {
        Seq::empty()
    } else {
        s.skip(dot_pos(s) + 1)
    }
}

proof fn lemma_dot_pos_range(s: Seq<char>)
    ensures
        dot_pos(s) == -1 || 1 <= dot_pos(s) < s.len(),
        dot_pos(s) >= 1 ==> s[dot_pos(s)] == '.',
        forall|j: int| 1 <= j && dot_pos(s) < j < s.len() ==> s[j] != '.',
    decreases s.len(),
{
    if s.len() <= 1 {
    } else if s[s.len() - 1] == '.' {
    } else {
        lemma_dot_pos_range(s.drop_last());
        assert(forall|j: int| 0 <= j < s.len() - 1 ==> s.drop_last()[j] == s[j]);
    }
}

/// Splits a file name into stem and extension.
pub fn split_full_name(full_name: &str) -> (r: (String, String))
    ensures
        r.0@ == stem_of(full_name@),
        r.1@ == ext_of(full_name@),
{
    let cs = chars_vec(full_name);
    let n = cs.len();
    let mut i: usize = n;
    let ghost s = full_name@;
    proof {
        lemma_dot_pos_range(s);
    }
    // Find the separating dot by scanning from the end, stopping before
    // the leading character.
    let mut pos: usize = 0;
    let mut found: bool = false;
    while i > 1
        invariant
            cs@ == s,
            n == s.len(),
            i <= n,
            !found ==> forall|j: int| i <= j < n && j >= 1 ==> s[j] != '.',
            found ==> 1 <= pos < n && s[pos as int] == '.' && forall|j: int|
                pos < j < n ==> s[j] != '.',
            found ==> dot_pos(s) == pos,
        decreases i,
    {
        if !found && cs[i - 1] == '.' {
            pos = i - 1;
            found = true;
            proof {
                lemma_dot_pos_range(s);
                lemma_dot_pos_agrees(s, pos as int);
            }
        }
        i = i - 1;
    }
    proof {
        if !found {
            lemma_dot_pos_range(s);
            assert(dot_pos(s) == -1);
        }
    }
    if found {
        let mut stem: Vec<char> = Vec::new();
        let mut k: usize = 0;
        while k < pos
            invariant
                cs@ == s,
                pos < n == s.len(),
                k <= pos,
                stem@ == s.take(k as int),
            decreases pos - k,
        {
            stem.push(cs[k]);
            proof {
                assert(stem@ =~= s.take(k + 1));
            }
            k = k + 1;
        }
        let mut ext: Vec<char> = Vec::new();
        let mut k2: usize = pos + 1;
        while k2 < n
            invariant
                cs@ == s,
                pos < n == s.len(),
                pos + 1 <= k2 <= n,
                ext@ == s.subrange(pos + 1, k2 as int),
            decreases n - k2,
        {
            ext.push(cs[k2]);
            proof {
                assert(ext@ =~= s.subrange(pos + 1, k2 + 1));
            }
            k2 = k2 + 1;
        }
        proof {
            assert(stem@ =~= stem_of(s));
            assert(ext@ =~= ext_of(s));
        }
        (string_from_chars(&stem), string_from_chars(&ext))
    } else {
        let stem = full_name.to_owned();
        let ext = String::new();
        proof {
            assert(ext@ =~= ext_of(s));
        }
        (stem, ext)
    }
}

/// A dot at position `p >= 1` with no later dot is the separating dot.
proof fn lemma_dot_pos_agrees(s: Seq<char>, p: int)
    requires
        1 <= p < s.len(),
        s[p] == '.',
        forall|j: int| p < j < s.len() ==> s[j] != '.',
    ensures
        dot_pos(s) == p,
    decreases s.len(),
{
    if p == s.len() - 1 {
    } else {
        assert(s[s.len() - 1] != '.');
        lemma_dot_pos_agrees(s.drop_last(), p);
    }
}

/// Builds a record from the raw data of one directory entry. A missing
/// size or timestamp degrades to zero rather than failing the walk.
pub fn make_file_info(
    full_name: String,
    relative_path: String,
    absolute_path: String,
    size: Option<u64>,
    modified: Option<i64>,
) -> (r: FileInfo)
    ensures
        r.name@ == stem_of(full_name@),
        r.extension@ == ext_of(full_name@),
        r.full_name == full_name,
        r.relative_path == relative_path,
        r.absolute_path == absolute_path,
        r.file_size == (if size is Some {
            size->0
        } else {
            0u64
        }),
        r.modified_timestamp == (if modified is Some {
            modified->0
        } else {
            0i64
        }),
{
    let (name, extension) = split_full_name(full_name.as_str());
    let file_size: u64 = match size {
        Some(s) => s,
        None => 0,
    };
    let modified_timestamp: i64 = match modified {
        Some(t) => t,
        None => 0,
    };
    FileInfo { name, extension, full_name, relative_path, absolute_path, file_size, modified_timestamp }
}

} // verus!
