//! CSV as the export and table-preview format: a writer that quotes
//! exactly the fields containing a delimiter, quote or line break, a
//! tolerant reader for the same dialect (comma-separated, LF or CRLF rows,
//! doubled quotes inside quoted fields), and the proof that reading an
//! exported document yields the exported rows back.

use vstd::prelude::*;
use vstd::string::*;
use crate::numfmt::{dec_digits, push_dec};
use crate::record::FileInfo;
use crate::text::string_from_chars;

verus! {

/// Characters that force a field into quotes.
pub open spec fn is_special(c: char) -> bool {
    c == ',' || c == '"' || c == '\n' || c == '\r'
}

/// A field must be quoted when any of its characters is special.
pub open spec fn needs_quote(f: Seq<char>) -> bool {
    exists|i: int| 0 <= i < f.len() && is_special(f[i])
}

/// The field's characters with every quote doubled.
pub open spec fn doubled(f: Seq<char>) -> Seq<char>
    decreases f.len(),
{
    if f.len() == 0 {
        Seq::empty()
    } else if f.last() == '"' {
        doubled(f.drop_last()) + seq!['"', '"']
    } else {
        doubled(f.drop_last()).push(f.last())
    }
}

/// A field as written: raw, or wrapped in quotes with inner quotes
/// doubled when it holds a special character.
pub open spec fn enc_field(f: Seq<char>) -> Seq<char> {
    if needs_quote(f) {
        seq!['"'] + doubled(f) + seq!['"']
    } else {
        f
    }
}

/// A record's fields joined with commas.
pub open spec fn enc_row(fields: Seq<Seq<char>>) -> Seq<char>
    decreases fields.len(),
{
    if fields.len() == 0 {
        Seq::empty()
    } else if fields.len() == 1 {
        enc_field(fields[0])
    } else {
        enc_field(fields[0]) + seq![','] + enc_row(fields.drop_first())
    }
}

/// The whole document: each record terminated by a line feed.
pub open spec fn enc_doc(rows: Seq<Seq<Seq<char>>>) -> Seq<char>
    decreases rows.len(),
{
    if rows.len() == 0 {
        Seq::empty()
    } else {
        enc_row(rows[0]) + seq!['\n'] + enc_doc(rows.drop_first())
    }
}

proof fn lemma_enc_row_push(fields: Seq<Seq<char>>, f: Seq<char>)
    ensures
        enc_row(fields.push(f)) == if fields.len() == 0 {
            enc_field(f)
        } else {
            enc_row(fields) + seq![','] + enc_field(f)
        },
    decreases fields.len(),
{
    if fields.len() == 0 {
        assert(fields.push(f)[0] == f);
        assert(enc_row(fields.push(f)) =~= enc_field(f));
    } else {
        assert(fields.push(f).drop_first() =~= fields.drop_first().push(f));
        lemma_enc_row_push(fields.drop_first(), f);
        if fields.len() == 1 {
            assert(enc_row(fields.push(f)) =~= enc_row(fields) + seq![','] + enc_field(f));
        } else {
            assert(enc_row(fields.push(f)) =~= enc_row(fields) + seq![','] + enc_field(f));
        }
    }
}

proof fn lemma_enc_doc_push(rows: Seq<Seq<Seq<char>>>, r: Seq<Seq<char>>)
    ensures
        enc_doc(rows.push(r)) == enc_doc(rows) + enc_row(r) + seq!['\n'],
    decreases rows.len(),
{
    if rows.len() == 0 {
        assert(rows.push(r)[0] == r);
        assert(rows.push(r).drop_first() =~= Seq::<Seq<Seq<char>>>::empty());
        assert(enc_doc(rows.push(r)) == enc_row(r) + seq!['\n'] + enc_doc(
            rows.push(r).drop_first(),
        ));
        assert(enc_doc(rows.push(r).drop_first()) =~= Seq::<char>::empty());
        assert(enc_doc(rows) =~= Seq::<char>::empty());
        assert(enc_doc(rows.push(r)) =~= enc_doc(rows) + enc_row(r) + seq!['\n']);
    } else {
        assert(rows.push(r)[0] == rows[0]);
        assert(rows.push(r).drop_first() =~= rows.drop_first().push(r));
        lemma_enc_doc_push(rows.drop_first(), r);
        assert(enc_doc(rows.push(r)) =~= enc_doc(rows) + enc_row(r) + seq!['\n']);
    }
}

/// Appends one encoded field.
fn push_field(v: &mut Vec<char>, f: &String)
    ensures
        final(v)@ == old(v)@ + enc_field(f@),
{
    let cs = crate::text::chars_vec(f.as_str());
    let n = cs.len();
    let mut quote: bool = false;
    let mut i: usize = 0;
    while i < n
        invariant
            n == cs@.len(),
            cs@ == f@,
            i <= n,
            quote == (exists|k: int| 0 <= k < i && is_special(f@[k])),
        decreases n - i,
    {
        let c = cs[i];
        if c == ',' || c == '"' || c == '\n' || c == '\r' {
            quote = true;
        }
        i = i + 1;
    }
    if !quote {
        assert(!needs_quote(f@));
        let mut k: usize = 0;
        while k < n
            invariant
                n == cs@.len(),
                cs@ == f@,
                k <= n,
                v@ == old(v)@ + f@.subrange(0, k as int),
            decreases n - k,
        {
            v.push(cs[k]);
            proof {
                assert(v@ =~= old(v)@ + f@.subrange(0, k + 1));
            }
            k = k + 1;
        }
        proof {
            assert(f@.subrange(0, n as int) =~= f@);
        }
    } else {
        v.push('"');
        let ghost mid = old(v)@.push('"');
        let mut k: usize = 0;
        proof {
            assert(doubled(f@.take(0)) =~= Seq::<char>::empty());
            assert(v@ =~= mid + doubled(f@.take(0)));
        }
        while k < n
            invariant
                n == cs@.len(),
                cs@ == f@,
                k <= n,
                v@ == mid + doubled(f@.take(k as int)),
            decreases n - k,
        {
            let c = cs[k];
            proof {
                assert(f@.take(k + 1).drop_last() =~= f@.take(k as int));
                assert(f@.take(k + 1).last() == f@[k as int]);
            }
            if c == '"' {
                v.push('"');
                v.push('"');
                proof {
                    assert(v@ =~= mid + doubled(f@.take(k + 1)));
                }
            } else {
                v.push(c);
                proof {
                    assert(v@ =~= mid + doubled(f@.take(k + 1)));
                }
            }
            k = k + 1;
        }
        v.push('"');
        proof {
            assert(f@.take(n as int) =~= f@);
            assert(v@ =~= old(v)@ + enc_field(f@));
        }
    }
}

/// Appends one encoded record and its terminator.
fn push_row(v: &mut Vec<char>, fields: &Vec<String>)
    ensures
        final(v)@ == old(v)@ + enc_row(fields@.map_values(|s: String| s@)) + seq!['\n'],
{
    let n = fields.len();
    let ghost fs = fields@.map_values(|s: String| s@);
    let mut i: usize = 0;
    proof {
        assert(fs.take(0) =~= Seq::<Seq<char>>::empty());
        assert(enc_row(fs.take(0)) =~= Seq::<char>::empty());
        assert(v@ =~= old(v)@ + enc_row(fs.take(0)));
    }
    while i < n
        invariant
            n == fields@.len(),
            fs == fields@.map_values(|s: String| s@),
            fs.len() == n,
            i <= n,
            v@ == old(v)@ + enc_row(fs.take(i as int)),
        decreases n - i,
    {
        if i > 0 {
            v.push(',');
        }
        push_field(v, &fields[i]);
        proof {
            assert(fs.take(i + 1) =~= fs.take(i as int).push(fs[i as int]));
            lemma_enc_row_push(fs.take(i as int), fs[i as int]);
            assert(fs[i as int] == fields@[i as int]@);
            assert(v@ =~= old(v)@ + enc_row(fs.take(i + 1)));
        }
        i = i + 1;
    }
    v.push('\n');
    proof {
        assert(fs.take(n as int) =~= fs);
        assert(v@ =~= old(v)@ + enc_row(fs) + seq!['\n']);
    }
}

/// The header row of an export.
pub open spec fn header_fields() -> Seq<Seq<char>> {
    seq!["File Name"@, "Extension"@, "Size (bytes)"@, "Relative Path"@, "Full Path"@]
}

/// The exported fields of one record: name, extension, decimal size,
/// relative path and absolute path.
pub open spec fn row_fields(f: FileInfo) -> Seq<Seq<char>> {
    seq![f.name@, f.extension@, dec_digits(f.file_size as nat), f.relative_path@, f.absolute_path@]
}

/// Every exported row: the header, then one row per visible record.
pub open spec fn export_table(files: Seq<FileInfo>) -> Seq<Seq<Seq<char>>> {
    seq![header_fields()] + files.map_values(|f: FileInfo| row_fields(f))
}

/// Serializes the visible records: a byte-order mark, then the header and
/// one comma-separated, line-feed-terminated record per file.
pub fn export_to_csv(files: &Vec<FileInfo>) -> (r: String)
    ensures
        r@ == seq!['\u{feff}'] + enc_doc(export_table(files@)),
{
    let mut v: Vec<char> = Vec::new();
    v.push('\u{feff}');
    let ghost table = export_table(files@);
    let mut header: Vec<String> = Vec::new();
    header.push("File Name".to_owned());
    header.push("Extension".to_owned());
    header.push("Size (bytes)".to_owned());
    header.push("Relative Path".to_owned());
    header.push("Full Path".to_owned());
    push_row(&mut v, &header);
    proof {
        assert(header@.map_values(|s: String| s@) =~= header_fields());
        assert(table.take(1) =~= seq![header_fields()]);
        assert(enc_doc(table.take(1)) =~= enc_row(header_fields()) + seq!['\n']) by {
            assert(table.take(1).drop_first() =~= Seq::<Seq<Seq<char>>>::empty());
            assert(enc_doc(table.take(1)) =~= enc_row(table.take(1)[0]) + seq!['\n'] + enc_doc(
                table.take(1).drop_first(),
            ));
        }
        assert(v@ =~= seq!['\u{feff}'] + enc_doc(table.take(1)));
    }
    let n = files.len();
    let mut i: usize = 0;
    while i < n
        invariant
            n == files@.len(),
            table == export_table(files@),
            table.len() == n + 1,
            i <= n,
            v@ == seq!['\u{feff}'] + enc_doc(table.take(i + 1)),
        decreases n - i,
    {
        let f = &files[i];
        let mut fields: Vec<String> = Vec::new();
        fields.push(f.name.clone());
        fields.push(f.extension.clone());
        let mut digits: Vec<char> = Vec::new();
        push_dec(&mut digits, f.file_size);
        fields.push(string_from_chars(&digits));
        fields.push(f.relative_path.clone());
        fields.push(f.absolute_path.clone());
        push_row(&mut v, &fields);
        proof {
            assert(fields@.map_values(|s: String| s@) =~= row_fields(files@[i as int]));
            assert(table[i + 1] == row_fields(files@[i as int]));
            assert(table.take(i + 2) =~= table.take(i + 1).push(table[i + 1]));
            lemma_enc_doc_push(table.take(i + 1), table[i + 1]);
            assert(v@ =~= seq!['\u{feff}'] + enc_doc(table.take(i + 2)));
        }
        i = i + 1;
    }
    proof {
        assert(table.take(n + 1) =~= table);
    }
    string_from_chars(&v)
}

// ----- Reading -----

/// Length of the unquoted prefix of `s`: up to the first special
/// character, or all of it.
pub open spec fn plain_end(s: Seq<char>) -> int
    decreases s.len(),
{
    if s.len() == 0 {
        0
    } else if s[0] == ',' || s[0] == '\n' || s[0] == '\r' {
        0
    } else {
        1 + plain_end(s.skip(1))
    }
}

proof fn lemma_plain_end_bounds(s: Seq<char>)
    ensures
        0 <= plain_end(s) <= s.len(),
    decreases s.len(),
{
    if s.len() > 0 && !(s[0] == ',' || s[0] == '\n' || s[0] == '\r') {
        lemma_plain_end_bounds(s.skip(1));
    }
}

/// Scan of a quoted field's remainder (after the opening quote): the
/// content, with doubled quotes collapsed, and what follows the closing
/// quote. An unterminated field runs to the end of the input.
pub open spec fn qscan(s: Seq<char>) -> (Seq<char>, Seq<char>)
    decreases s.len(),
{
    if s.len() == 0 {
        (Seq::empty(), Seq::empty())
    } else if s[0] == '"' {
        if s.len() >= 2 && s[1] == '"' {
            let (c, r) = qscan(s.skip(2));
            (seq!['"'] + c, r)
        } else {
            (Seq::empty(), s.skip(1))
        }
    } else {
        let (c, r) = qscan(s.skip(1));
        (seq![s[0]] + c, r)
    }
}

proof fn lemma_qscan_rest(s: Seq<char>)
    ensures
        qscan(s).1.len() <= s.len(),
        s.len() > 0 ==> qscan(s).1.len() < s.len(),
    decreases s.len(),
{
    if s.len() == 0 {
    } else if s[0] == '"' {
        if s.len() >= 2 && s[1] == '"' {
            lemma_qscan_rest(s.skip(2));
        }
    } else {
        lemma_qscan_rest(s.skip(1));
    }
}

/// One field and what follows it; the remainder is empty or starts with a
/// comma or line break, except after a quoted field, where stray text
/// before the next separator is left in place.
pub open spec fn parse_field(s: Seq<char>) -> (Seq<char>, Seq<char>) {
    if s.len() > 0 && s[0] == '"' {
        qscan(s.skip(1))
    } else {
        (s.take(plain_end(s)), s.skip(plain_end(s)))
    }
}

proof fn lemma_parse_field_rest(s: Seq<char>)
    ensures
        parse_field(s).1.len() <= s.len(),
        s.len() > 0 && s[0] == '"' ==> parse_field(s).1.len() < s.len(),
    decreases s.len(),
{
    if s.len() > 0 && s[0] == '"' {
        lemma_qscan_rest(s.skip(1));
    } else {
        lemma_plain_end_bounds(s);
    }
}

/// One record and the input after its terminator. A lone carriage return
/// also ends a record, matching tolerant readers.
pub open spec fn parse_row(s: Seq<char>) -> (Seq<Seq<char>>, Seq<char>)
    decreases s.len(),
    via parse_row_decreases
{
    let (f, r) = parse_field(s);
    if r.len() > 0 && r[0] == ',' {
        let (row, rest) = parse_row(r.skip(1));
        (seq![f] + row, rest)
    } else if r.len() >= 2 && r[0] == '\r' && r[1] == '\n' {
        (seq![f], r.skip(2))
    } else if r.len() > 0 && (r[0] == '\n' || r[0] == '\r') {
        (seq![f], r.skip(1))
    } else if r.len() > 0 {
        // stray text after a closing quote: drop one character and rejoin
        let (row, rest) = parse_row(r.skip(1));
        (seq![f] + row, rest)
    } else {
        (seq![f], r)
    }
}

#[via_fn]
proof fn parse_row_decreases(s: Seq<char>) {
    lemma_parse_field_rest(s);
}

proof fn lemma_parse_row_rest(s: Seq<char>)
    ensures
        s.len() > 0 ==> parse_row(s).1.len() < s.len(),
        parse_row(s).1.len() <= s.len(),
    decreases s.len(),
{
    lemma_parse_field_rest(s);
    let (f, r) = parse_field(s);
    if r.len() > 0 && r[0] == ',' {
        lemma_parse_row_rest(r.skip(1));
    } else if r.len() >= 2 && r[0] == '\r' && r[1] == '\n' {
    } else if r.len() > 0 && (r[0] == '\n' || r[0] == '\r') {
    } else if r.len() > 0 {
        lemma_parse_row_rest(r.skip(1));
    }
}

/// Every record of the document, in order.
pub open spec fn parse_doc(s: Seq<char>) -> Seq<Seq<Seq<char>>>
    decreases s.len(),
    via parse_doc_decreases
{
    if s.len() == 0 {
        Seq::empty()
    } else {
        let (row, rest) = parse_row(s);
        seq![row] + parse_doc(rest)
    }
}

#[via_fn]
proof fn parse_doc_decreases(s: Seq<char>) {
    lemma_parse_row_rest(s);
}

/// Reads one field starting at `pos`, returning it and the position of
/// what follows it.
fn parse_field_at(text: &Vec<char>, pos: usize) -> (r: (Vec<char>, usize))
    requires
        pos <= text@.len(),
    ensures
        pos <= r.1 <= text@.len(),
        parse_field(text@.skip(pos as int)) == (r.0@, text@.skip(r.1 as int)),
{
    let n = text.len();
    let ghost cur = text@.skip(pos as int);
    if pos < n && text[pos] == '"' {
        proof {
            assert(cur[0] == text@[pos as int]);
            assert(cur.skip(1) =~= text@.skip(pos + 1));
        }
        let mut content: Vec<char> = Vec::new();
        let mut i: usize = pos + 1;
        loop
            invariant
                pos + 1 <= i <= n,
                n == text@.len(),
                text@[pos as int] == '"',
                qscan(text@.skip(pos + 1)) == (
                    content@ + qscan(text@.skip(i as int)).0,
                    qscan(text@.skip(i as int)).1,
                ),
            decreases n - i,
        {
            let ghost tail = text@.skip(i as int);
            if i == n {
                proof {
                    assert(tail =~= Seq::<char>::empty());
                    assert(content@ + qscan(tail).0 =~= content@);
                    assert(qscan(tail).1 =~= text@.skip(n as int));
                }
                proof {
                    assert(text@.skip(pos as int)[0] == '"');
                    assert(text@.skip(pos as int).skip(1) =~= text@.skip(pos + 1));
                    assert(parse_field(text@.skip(pos as int)) == qscan(text@.skip(pos + 1)));
                }
                return (content, n);
            }
            proof {
                assert(tail[0] == text@[i as int]);
                assert(tail.skip(1) =~= text@.skip(i + 1));
            }
            let c = text[i];
            if c == '"' {
                if i + 1 < n && text[i + 1] == '"' {
                    proof {
                        assert(tail[1] == text@[i + 1]);
                        assert(tail.skip(2) =~= text@.skip(i + 2));
                        assert(content@ + qscan(tail).0 =~= (content@.push('"')) + qscan(
                            text@.skip(i + 2),
                        ).0);
                    }
                    content.push('"');
                    i = i + 2;
                } else {
                    proof {
                        if i + 1 < n {
                            assert(tail.len() >= 2 && tail[1] == text@[i + 1]);
                        } else {
                            assert(tail.len() == 1);
                        }
                        assert(qscan(tail).0 =~= Seq::<char>::empty());
                        assert(content@ + qscan(tail).0 =~= content@);
                        assert(qscan(tail).1 =~= text@.skip(i + 1));
                    }
                    proof {
                        assert(text@.skip(pos as int)[0] == '"');
                        assert(text@.skip(pos as int).skip(1) =~= text@.skip(pos + 1));
                        assert(parse_field(text@.skip(pos as int)) == qscan(text@.skip(pos + 1)));
                    }
                    return (content, i + 1);
                }
            } else {
                proof {
                    assert(content@ + qscan(tail).0 =~= (content@.push(c)) + qscan(
                        text@.skip(i + 1),
                    ).0);
                }
                content.push(c);
                i = i + 1;
            }
        }
    } else {
        let mut j: usize = 0;
        proof {
            assert(cur.skip(0) =~= cur);
        }
        while pos + j < n && text[pos + j] != ',' && text[pos + j] != '\n' && text[pos + j] != '\r'
            invariant
                pos + j <= n,
                n == text@.len(),
                cur == text@.skip(pos as int),
                plain_end(cur) == j + plain_end(cur.skip(j as int)),
                forall|k: int| 0 <= k < j ==> cur[k] == text@[pos + k],
            decreases n - (pos + j),
        {
            proof {
                assert(cur.skip(j as int)[0] == text@[pos + j]);
                assert(cur.skip(j as int).skip(1) =~= cur.skip(j + 1));
            }
            j = j + 1;
        }
        proof {
            if pos + j == n {
                assert(cur.skip(j as int) =~= Seq::<char>::empty());
            } else {
                assert(cur.skip(j as int)[0] == text@[pos + j]);
            }
            assert(plain_end(cur) == j);
        }
        let mut field: Vec<char> = Vec::new();
        let mut k: usize = 0;
        while k < j
            invariant
                k <= j,
                pos + j <= n,
                n == text@.len(),
                cur == text@.skip(pos as int),
                j == plain_end(cur),
                field@ == cur.take(j as int).take(k as int),
            decreases j - k,
        {
            field.push(text[pos + k]);
            proof {
                assert(cur[k as int] == text@[pos + k]);
                assert(field@ =~= cur.take(j as int).take(k + 1));
            }
            k = k + 1;
        }
        proof {
            assert(field@ =~= cur.take(j as int));
            assert(cur.skip(j as int) =~= text@.skip(pos + j));
        }
        (field, pos + j)
    }
}

/// Reads one record starting at `pos`, returning its fields and the
/// position after its terminator.
fn parse_row_at(text: &Vec<char>, pos: usize) -> (r: (Vec<String>, usize))
    requires
        pos <= text@.len(),
    ensures
        pos <= r.1 <= text@.len(),
        pos < text@.len() ==> r.1 > pos,
        parse_row(text@.skip(pos as int)) == (r.0.deep_view(), text@.skip(r.1 as int)),
{
    let n = text.len();
    let mut fields: Vec<String> = Vec::new();
    let mut p: usize = pos;
    let ghost orig = text@.skip(pos as int);
    loop
        invariant
            pos <= p <= n,
            n == text@.len(),
            orig == text@.skip(pos as int),
            parse_row(orig) == (
                fields.deep_view() + parse_row(text@.skip(p as int)).0,
                parse_row(text@.skip(p as int)).1,
            ),
        decreases n - p,
    {
        let ghost cur = text@.skip(p as int);
        let (f, p2) = parse_field_at(text, p);
        let ghost rest = text@.skip(p2 as int);
        let fs = string_from_chars(&f);
        if p2 < n && text[p2] == ',' {
            fields.push(fs);
            proof {
                assert(rest[0] == text@[p2 as int]);
                assert(rest.skip(1) =~= text@.skip(p2 + 1));
                assert(fields.deep_view() =~= fields.deep_view().take(
                    fields.deep_view().len() - 1,
                ).push(f@));
                assert(parse_row(cur).0 =~= seq![f@] + parse_row(text@.skip(p2 + 1)).0);
                assert(fields.deep_view() + parse_row(text@.skip(p2 + 1)).0 =~= (
                fields.deep_view().take(fields.deep_view().len() - 1)) + parse_row(cur).0);
            }
            p = p2 + 1;
        } else if p2 < n && text[p2] == '\r' && p2 + 1 < n && text[p2 + 1] == '\n' {
            fields.push(fs);
            proof {
                assert(rest[0] == '\r' && rest[1] == '\n');
                assert(rest.skip(2) =~= text@.skip(p2 + 2));
                assert(parse_row(cur) == (seq![f@], text@.skip(p2 + 2)));
                assert(fields.deep_view() =~= fields.deep_view().take(
                    fields.deep_view().len() - 1,
                ) + seq![f@]);
            }
            return (fields, p2 + 2);
        } else if p2 < n && (text[p2] == '\n' || text[p2] == '\r') {
            fields.push(fs);
            proof {
                assert(rest[0] == text@[p2 as int]);
                assert(rest.len() >= 2 ==> rest[1] == text@[p2 + 1]);
                assert(rest.skip(1) =~= text@.skip(p2 + 1));
                assert(parse_row(cur) == (seq![f@], text@.skip(p2 + 1)));
                assert(fields.deep_view() =~= fields.deep_view().take(
                    fields.deep_view().len() - 1,
                ) + seq![f@]);
            }
            return (fields, p2 + 1);
        } else if p2 == n {
            fields.push(fs);
            proof {
                assert(rest =~= Seq::<char>::empty());
                assert(parse_row(cur) == (seq![f@], rest));
                assert(fields.deep_view() =~= fields.deep_view().take(
                    fields.deep_view().len() - 1,
                ) + seq![f@]);
                assert(text@.skip(n as int) =~= rest);
            }
            return (fields, n);
        } else {
            // stray text after a closing quote: skip one character and
            // keep reading fields of the same record
            fields.push(fs);
            proof {
                assert(rest[0] == text@[p2 as int]);
                assert(rest.skip(1) =~= text@.skip(p2 + 1));
                assert(parse_row(cur).0 =~= seq![f@] + parse_row(text@.skip(p2 + 1)).0);
                assert(fields.deep_view() =~= fields.deep_view().take(
                    fields.deep_view().len() - 1,
                ).push(f@));
                assert(fields.deep_view() + parse_row(text@.skip(p2 + 1)).0 =~= (
                fields.deep_view().take(fields.deep_view().len() - 1)) + parse_row(cur).0);
            }
            p = p2 + 1;
        }
    }
}

/// Reads a whole document into its records.
pub fn parse_csv(text: &Vec<char>) -> (r: Vec<Vec<String>>)
    ensures
        r.deep_view() == parse_doc(text@),
{
    let n = text.len();
    let mut rows: Vec<Vec<String>> = Vec::new();
    let mut pos: usize = 0;
    proof {
        assert(text@.skip(0) =~= text@);
    }
    while pos < n
        invariant
            pos <= n,
            n == text@.len(),
            parse_doc(text@) == rows.deep_view() + parse_doc(text@.skip(pos as int)),
        decreases n - pos,
    {
        let ghost cur = text@.skip(pos as int);
        let (row, p2) = parse_row_at(text, pos);
        let ghost rest = text@.skip(p2 as int);
        rows.push(row);
        proof {
            assert(parse_doc(cur) == seq![parse_row(cur).0] + parse_doc(rest));
            assert(rows.deep_view() =~= rows.deep_view().take(rows.deep_view().len() - 1).push(
                parse_row(cur).0,
            ));
            assert(rows.deep_view() + parse_doc(rest) =~= (rows.deep_view().take(
                rows.deep_view().len() - 1,
            )) + parse_doc(cur));
        }
        pos = p2;
    }
    proof {
        assert(text@.skip(n as int) =~= Seq::<char>::empty());
    }
    rows
}

// ----- Round trip -----

/// The remainder after a field: nothing, or a separator or line break.
pub open spec fn sep_start(r: Seq<char>) -> bool {
    r.len() == 0 || r[0] == ',' || r[0] == '\n' || r[0] == '\r'
}

proof fn lemma_plain_end_concat(f: Seq<char>, r: Seq<char>)
    requires
        !needs_quote(f),
        sep_start(r),
    ensures
        plain_end(f + r) == f.len(),
    decreases f.len(),
{
    let s = f + r;
    if f.len() == 0 {
        assert(s =~= r);
    } else {
        assert(s[0] == f[0]);
        assert(!is_special(f[0]));
        assert(s.skip(1) =~= f.skip(1) + r);
        assert(!needs_quote(f.skip(1))) by {
            if needs_quote(f.skip(1)) {
                let i = choose|i: int| 0 <= i < f.skip(1).len() && is_special(f.skip(1)[i]);
                assert(is_special(f[i + 1]));
            }
        }
        lemma_plain_end_concat(f.skip(1), r);
    }
}

proof fn lemma_parse_field_concat(f: Seq<char>, r: Seq<char>)
    requires
        !needs_quote(f),
        sep_start(r),
    ensures
        parse_field(f + r) == (f, r),
{
    let s = f + r;
    if s.len() > 0 && s[0] == '"' {
        if f.len() > 0 {
            assert(s[0] == f[0]);
            assert(is_special(f[0]));
        } else {
            assert(s =~= r);
        }
        assert(false);
    }
    lemma_plain_end_concat(f, r);
    assert(s.take(f.len() as int) =~= f);
    assert(s.skip(f.len() as int) =~= r);
}

/// Doubling also reads head-first: the first character maps to its
/// doubled form, followed by the doubling of the remainder.
proof fn lemma_doubled_front(f: Seq<char>)
    requires
        f.len() > 0,
    ensures
        doubled(f) == (if f[0] == '"' {
            seq!['"', '"']
        } else {
            seq![f[0]]
        }) + doubled(f.drop_first()),
    decreases f.len(),
{
    let head: Seq<char> = if f[0] == '"' {
        seq!['"', '"']
    } else {
        seq![f[0]]
    };
    if f.len() == 1 {
        assert(doubled(f.drop_last()) =~= Seq::<char>::empty());
        assert(f.drop_first() =~= Seq::<char>::empty());
        if f[0] == '"' {
            assert(doubled(f) =~= head + doubled(f.drop_first()));
        } else {
            assert(doubled(f) =~= head + doubled(f.drop_first()));
        }
    } else {
        lemma_doubled_front(f.drop_last());
        assert(f.drop_last()[0] == f[0]);
        assert(f.drop_last().drop_first() =~= f.drop_first().drop_last());
        assert(f.drop_first().last() == f.last());
        if f.last() == '"' {
            assert(doubled(f) == doubled(f.drop_last()) + seq!['"', '"']);
            assert(doubled(f.drop_first()) == doubled(f.drop_first().drop_last()) + seq!['"', '"']);
            assert(doubled(f) =~= head + doubled(f.drop_first()));
        } else {
            assert(doubled(f) == doubled(f.drop_last()).push(f.last()));
            assert(doubled(f.drop_first()) == doubled(f.drop_first().drop_last()).push(f.last()));
            assert(doubled(f) =~= head + doubled(f.drop_first()));
        }
    }
}

/// The quoted scan undoes doubling: after the opening quote, the doubled
/// field, the closing quote and then anything that does not begin with
/// another quote reads back as the field and that remainder.
proof fn lemma_qscan_doubled(f: Seq<char>, r: Seq<char>)
    requires
        r.len() == 0 || r[0] != '"',
    ensures
        qscan(doubled(f) + seq!['"'] + r) == (f, r),
    decreases f.len(),
{
    let s = doubled(f) + seq!['"'] + r;
    if f.len() == 0 {
        assert(doubled(f) =~= Seq::<char>::empty());
        assert(s =~= seq!['"'] + r);
        assert(s[0] == '"');
        if r.len() > 0 {
            assert(s[1] == r[0]);
            assert(s[1] != '"');
        }
        assert(s.skip(1) =~= r);
        assert(qscan(s) == (Seq::<char>::empty(), r));
        assert(f =~= Seq::<char>::empty());
    } else {
        lemma_doubled_front(f);
        let rest = f.drop_first();
        if f[0] == '"' {
            assert(s =~= seq!['"', '"'] + (doubled(rest) + seq!['"'] + r));
            assert(s[0] == '"');
            assert(s[1] == '"');
            assert(s.len() >= 2);
            assert(s.skip(2) =~= doubled(rest) + seq!['"'] + r);
            lemma_qscan_doubled(rest, r);
            assert(qscan(s).0 =~= seq!['"'] + rest);
            assert(seq!['"'] + rest =~= f);
        } else {
            assert(s =~= seq![f[0]] + (doubled(rest) + seq!['"'] + r));
            assert(s[0] == f[0]);
            assert(s[0] != '"');
            assert(s.skip(1) =~= doubled(rest) + seq!['"'] + r);
            lemma_qscan_doubled(rest, r);
            assert(qscan(s).0 =~= seq![f[0]] + rest);
            assert(seq![f[0]] + rest =~= f);
        }
    }
}

/// An encoded field followed by a separator or line break reads back as
/// exactly that field: verbatim when it needed no quotes, and through the
/// quoted scan otherwise.
proof fn lemma_parse_field_enc(f: Seq<char>, r: Seq<char>)
    requires
        sep_start(r),
    ensures
        parse_field(enc_field(f) + r) == (f, r),
{
    if !needs_quote(f) {
        lemma_parse_field_concat(f, r);
    } else {
        let s = enc_field(f) + r;
        assert(enc_field(f) == seq!['"'] + doubled(f) + seq!['"']);
        assert(s.len() > 0 && s[0] == '"');
        assert(s.skip(1) =~= doubled(f) + seq!['"'] + r);
        assert(r.len() == 0 || r[0] != '"');
        lemma_qscan_doubled(f, r);
    }
}

proof fn lemma_parse_row_enc(fields: Seq<Seq<char>>, t: Seq<char>)
    requires
        fields.len() >= 1,
    ensures
        parse_row(enc_row(fields) + seq!['\n'] + t) == (fields, t),
    decreases fields.len(),
{
    let s = enc_row(fields) + seq!['\n'] + t;
    if fields.len() == 1 {
        assert(enc_row(fields) == enc_field(fields[0]));
        let r = seq!['\n'] + t;
        assert(s =~= enc_field(fields[0]) + r);
        lemma_parse_field_enc(fields[0], r);
        assert(r[0] == '\n');
        assert(r.skip(1) =~= t);
        assert(parse_row(s).0 =~= fields);
    } else {
        let rest = fields.drop_first();
        assert(enc_row(fields) == enc_field(fields[0]) + seq![','] + enc_row(rest));
        let r = seq![','] + enc_row(rest) + seq!['\n'] + t;
        assert(s =~= enc_field(fields[0]) + r);
        lemma_parse_field_enc(fields[0], r);
        assert(r[0] == ',');
        assert(r.skip(1) =~= enc_row(rest) + seq!['\n'] + t);
        lemma_parse_row_enc(rest, t);
        assert(parse_row(s).0 =~= seq![fields[0]] + rest);
        assert(seq![fields[0]] + rest =~= fields);
    }
}

/// Round trip: a document written by the encoder reads back as exactly
/// the rows that were written, for every table whose records have at
/// least one field each — quoting included.
pub proof fn lemma_csv_round_trip(rows: Seq<Seq<Seq<char>>>)
    requires
        forall|i: int| 0 <= i < rows.len() ==> (#[trigger] rows[i]).len() >= 1,
    ensures
        parse_doc(enc_doc(rows)) == rows,
    decreases rows.len(),
{
    if rows.len() == 0 {
    } else {
        let rest = rows.drop_first();
        let s = enc_doc(rows);
        assert(s == enc_row(rows[0]) + seq!['\n'] + enc_doc(rest));
        assert(s.len() > 0) by {
            assert(s.len() == enc_row(rows[0]).len() + 1 + enc_doc(rest).len());
        }
        lemma_parse_row_enc(rows[0], enc_doc(rest));
        lemma_csv_round_trip(rest);
        assert(parse_doc(s) =~= seq![rows[0]] + rest);
        assert(seq![rows[0]] + rest =~= rows);
    }
}

/// The round trip instantiated at the export format: reading an exported
/// document back — after its byte-order mark — yields the header and one
/// row per exported record, in order.
pub proof fn lemma_export_round_trip(files: Seq<FileInfo>)
    ensures
        parse_doc(enc_doc(export_table(files))) == export_table(files),
{
    let table = export_table(files);
    assert forall|i: int| 0 <= i < table.len() implies (#[trigger] table[i]).len() >= 1 by {
        if i == 0 {
            assert(table[0] == header_fields());
        } else {
            assert(table[i] == files.map_values(|f: FileInfo| row_fields(f))[i - 1]);
            assert(table[i] == row_fields(files[i - 1]));
        }
    }
    lemma_csv_round_trip(table);
}

} // verus!
