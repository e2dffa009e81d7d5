//! Text extraction for previews: decoding with encoding fallback, line
//! truncation for text and code files, the DOCX text scraper, and the
//! XLSX / CSV table extractors.

use vstd::prelude::*;
use vstd::string::*;
use vstd::utf8::{decode_utf8, valid_utf8};
use crate::numfmt::{dec_digits, push_dec};
use crate::text::{chars_vec, push_chars, string_from_chars};

verus! {

/// Lines shown for a plain-text preview.
pub const MAX_TEXT_LINES: usize = 100;

/// Lines shown for a code preview.
pub const MAX_CODE_LINES: usize = 300;

/// Rows shown for a table preview.
pub const MAX_TABLE_ROWS: usize = 100;

/// Columns shown for a table preview.
pub const MAX_TABLE_COLS: usize = 20;

/// What WINDOWS-1252 decoding yields, a function of the bytes alone.
pub uninterp spec fn w1252_of(bytes: Seq<u8>) -> Seq<char>;

/// Whether WINDOWS-1252 decoding reports no errors.
pub uninterp spec fn w1252_clean(bytes: Seq<u8>) -> bool;

/// Relies on encoding_rs::WINDOWS_1252.decode: the decoded text and the
/// error flag depend on the bytes alone.
#[verifier::external_body]
fn decode_windows_1252(bytes: &Vec<u8>) -> (r: (String, bool))
    ensures
        r.0@ == w1252_of(bytes@),
        r.1 == w1252_clean(bytes@),
{
    let (cow, _, had_errors) = encoding_rs::WINDOWS_1252.decode(bytes);
    (cow.into_owned(), !had_errors)
}

/// What WINDOWS-874 decoding yields, a function of the bytes alone.
pub uninterp spec fn w874_of(bytes: Seq<u8>) -> Seq<char>;

/// Relies on encoding_rs::WINDOWS_874.decode: the decoded text depends on
/// the bytes alone; this decoding never fails outright.
#[verifier::external_body]
fn decode_windows_874(bytes: &Vec<u8>) -> (r: String)
    ensures
        r@ == w874_of(bytes@),
{
    let (cow, _, _) = encoding_rs::WINDOWS_874.decode(bytes);
    cow.into_owned()
}

/// Relies on String::from_utf8: it succeeds exactly on valid UTF-8 and
/// yields the decoded characters.
#[verifier::external_body]
fn utf8_decode(bytes: &Vec<u8>) -> (r: Option<String>)
    ensures
        r is Some == valid_utf8(bytes@),
        r matches Some(s) ==> s@ == decode_utf8(bytes@),
{
    match String::from_utf8(bytes.clone()) {
        Ok(s) => Some(s),
        Err(_) => None,
    }
}

/// The decoding chain for text files: UTF-8 when the bytes are valid,
/// then WINDOWS-1252 when it decodes cleanly, then WINDOWS-874.
pub open spec fn decoded_text(bytes: Seq<u8>) -> Seq<char> {
    if valid_utf8(bytes) {
        decode_utf8(bytes)
    } else if w1252_clean(bytes) {
        w1252_of(bytes)
    } else {
        w874_of(bytes)
    }
}

/// Decodes file bytes with encoding fallback.
pub fn read_text_with_encoding(bytes: &Vec<u8>) -> (r: String)
    ensures
        r@ == decoded_text(bytes@),
{
    if let Some(s) = utf8_decode(bytes) {
        return s;
    }
    let (s, clean) = decode_windows_1252(bytes);
    if clean {
        return s;
    }
    decode_windows_874(bytes)
}

/// Index of the first line feed in `s`, or its length.
pub open spec fn nl_pos(s: Seq<char>) -> int
    decreases s.len(),
{
    if s.len() == 0 {
        0
    } else if s[0] == '\n' {
        0
    } else {
        1 + nl_pos(s.skip(1))
    }
}

proof fn lemma_nl_pos_bounds(s: Seq<char>)
    ensures
        0 <= nl_pos(s) <= s.len(),
    decreases s.len(),
{
    if s.len() > 0 && s[0] != '\n' {
        lemma_nl_pos_bounds(s.skip(1));
    }
}

/// One line's content: the raw line with a single trailing carriage
/// return removed.
pub open spec fn strip_cr(l: Seq<char>) -> Seq<char> {
    if l.len() > 0 && l.last() == '\r' {
        l.drop_last()
    } else {
        l
    }
}

/// The lines of a text, as `str::lines` yields them: split at line feeds,
/// one trailing carriage return stripped per line, and no final empty
/// line for a text ending in a line feed.
pub open spec fn lines_of(s: Seq<char>) -> Seq<Seq<char>>
    decreases s.len(),
    via lines_of_decreases
{
    if s.len() == 0 {
        Seq::empty()
    } else {
        let p = nl_pos(s);
        if p >= s.len() {
            seq![strip_cr(s)]
        } else {
            seq![strip_cr(s.take(p))] + lines_of(s.skip(p + 1))
        }
    }
}

#[via_fn]
proof fn lines_of_decreases(s: Seq<char>) {
    lemma_nl_pos_bounds(s);
}

/// Lines joined with single line feeds, no terminator.
pub open spec fn join_lines(ls: Seq<Seq<char>>) -> Seq<char>
    decreases ls.len(),
{
    if ls.len() == 0 {
        Seq::empty()
    } else if ls.len() == 1 {
        ls[0]
    } else {
        ls[0] + seq!['\n'] + join_lines(ls.drop_first())
    }
}

proof fn lemma_join_lines_push(ls: Seq<Seq<char>>, l: Seq<char>)
    ensures
        join_lines(ls.push(l)) == if ls.len() == 0 {
            l
        } else {
            join_lines(ls) + seq!['\n'] + l
        },
    decreases ls.len(),
{
    if ls.len() == 0 {
        assert(ls.push(l)[0] == l);
        assert(join_lines(ls.push(l)) =~= l);
    } else {
        assert(ls.push(l)[0] == ls[0]);
        assert(ls.push(l).drop_first() =~= ls.drop_first().push(l));
        lemma_join_lines_push(ls.drop_first(), l);
        assert(join_lines(ls.push(l)) =~= join_lines(ls) + seq!['\n'] + l);
    }
}

/// The preview of a text: all of it when it has at most `max` lines,
/// otherwise the first `max` lines and a note with the full count.
pub open spec fn truncated_text(s: Seq<char>, max: nat) -> Seq<char> {
    let ls = lines_of(s);
    if ls.len() <= max {
        join_lines(ls)
    } else {
        join_lines(ls.take(max as int)) + "\n\n... (showing first "@ + dec_digits(max) + " of "@
            + dec_digits(ls.len()) + " lines)"@
    }
}

/// Splits a text into its lines.
fn split_lines(text: &Vec<char>) -> (r: Vec<Vec<char>>)
    ensures
        r.deep_view() == lines_of(text@),
{
    let n = text.len();
    let mut out: Vec<Vec<char>> = Vec::new();
    let mut pos: usize = 0;
    proof {
        assert(text@.skip(0) =~= text@);
    }
    while pos < n
        invariant
            pos <= n,
            n == text@.len(),
            lines_of(text@) == out.deep_view() + lines_of(text@.skip(pos as int)),
        decreases n - pos,
    {
        let ghost cur = text@.skip(pos as int);
        // scan to the next line feed
        let mut j: usize = 0;
        proof {
            assert(cur.skip(0) =~= cur);
        }
        while pos + j < n && text[pos + j] != '\n'
            invariant
                pos + j <= n,
                n == text@.len(),
                cur == text@.skip(pos as int),
                nl_pos(cur) == j + nl_pos(cur.skip(j as int)),
                forall|k: int| 0 <= k < j ==> cur[k] == text@[pos + k],
            decreases n - (pos + j),
        {
            proof {
                assert(cur.skip(j as int)[0] == text@[pos + j]);
                assert(cur.skip(j as int).skip(1) =~= cur.skip(j + 1));
            }
            j = j + 1;
        }
        proof {
            if pos + j == n {
                assert(cur.skip(j as int) =~= Seq::<char>::empty());
            } else {
                assert(cur.skip(j as int)[0] == text@[pos + j]);
            }
            assert(nl_pos(cur) == j);
        }
        // copy the line, stripping one trailing carriage return
        let end: usize = if j > 0 && text[pos + j - 1] == '\r' {
            j - 1
        } else {
            j
        };
        let mut line: Vec<char> = Vec::new();
        let mut k: usize = 0;
        while k < end
            invariant
                k <= end,
                end <= j,
                pos + j <= n,
                n == text@.len(),
                cur == text@.skip(pos as int),
                line@ == cur.take(j as int).take(end as int).take(k as int),
            decreases end - k,
        {
            line.push(text[pos + k]);
            proof {
                assert(cur[k as int] == text@[pos + k]);
                assert(line@ =~= cur.take(j as int).take(end as int).take(k + 1));
            }
            k = k + 1;
        }
        proof {
            assert(j > 0 ==> cur[j - 1] == text@[pos + j - 1]);
            assert(line@ =~= strip_cr(cur.take(j as int))) by {
                if j > 0 && text@[pos + j - 1] == '\r' {
                    assert(cur.take(j as int).last() == cur[j - 1]);
                    assert(cur.take(j as int).drop_last() =~= cur.take(j - 1));
                    assert(line@ =~= cur.take(j as int).take(end as int));
                    assert(cur.take(j as int).take(end as int) =~= cur.take(j - 1));
                } else {
                    if j > 0 {
                        assert(cur.take(j as int).last() == cur[j - 1]);
                    }
                    assert(line@ =~= cur.take(j as int).take(end as int));
                    assert(cur.take(j as int).take(end as int) =~= cur.take(j as int));
                }
            }
        }
        let ghost out0 = out.deep_view();
        let ghost outv0 = out@;
        out.push(line);
        proof {
            assert(out@ =~= outv0.push(line));
            assert(out.deep_view() =~= out0.push(line@)) by {
                assert forall|t: int| 0 <= t < outv0.len() implies out.deep_view()[t] == out0[t] by {
                    assert(out@[t] == outv0[t]);
                }
                assert(out.deep_view()[outv0.len() as int] == line@);
            }
            let p = nl_pos(cur);
            if pos + j == n {
                assert(lines_of(cur) =~= seq![strip_cr(cur)]);
                assert(cur.take(j as int) =~= cur);
                assert(lines_of(text@) =~= out.deep_view() + lines_of(text@.skip(n as int)));
            } else {
                assert(lines_of(cur) =~= seq![strip_cr(cur.take(p))] + lines_of(cur.skip(p + 1)));
                assert(cur.skip(j + 1) =~= text@.skip(pos + j + 1));
                assert(lines_of(text@) =~= out.deep_view() + lines_of(text@.skip(pos + j + 1)));
            }
        }
        if pos + j == n {
            pos = n;
        } else {
            pos = pos + j + 1;
        }
    }
    proof {
        assert(text@.skip(n as int) =~= Seq::<char>::empty());
    }
    out
}

/// The first `max` lines of the decoded text, with a truncation note when
/// lines were dropped.
fn truncate_lines(text: &Vec<char>, max: usize) -> (r: String)
    requires
        max > 0,
    ensures
        r@ == truncated_text(text@, max as nat),
{
    let lines = split_lines(text);
    let total = lines.len();
    let shown: usize = if total < max {
        total
    } else {
        max
    };
    let mut out: Vec<char> = Vec::new();
    let ghost ls = lines.deep_view();
    let mut i: usize = 0;
    proof {
        assert(ls.take(0) =~= Seq::<Seq<char>>::empty());
        assert(out@ =~= join_lines(ls.take(0)));
    }
    while i < shown
        invariant
            shown <= total == ls.len(),
            ls == lines.deep_view(),
            total == lines@.len(),
            i <= shown,
            out@ == join_lines(ls.take(i as int)),
        decreases shown - i,
    {
        if i > 0 {
            out.push('\n');
        }
        let mut k: usize = 0;
        let line = &lines[i];
        while k < line.len()
            invariant
                ls == lines.deep_view(),
                total == lines@.len(),
                i < shown <= total,
                k <= line@.len(),
                line@ == lines@[i as int]@,
                out@ == (if i > 0 {
                    join_lines(ls.take(i as int)).push('\n')
                } else {
                    join_lines(ls.take(i as int))
                }) + ls[i as int].take(k as int),
            decreases line@.len() - k,
        {
            out.push(line[k]);
            proof {
                assert(ls[i as int] == lines@[i as int]@);
                assert(ls[i as int].take(k + 1) =~= ls[i as int].take(k as int).push(
                    ls[i as int][k as int],
                ));
                assert(out@ =~= (if i > 0 {
                    join_lines(ls.take(i as int)).push('\n')
                } else {
                    join_lines(ls.take(i as int))
                }) + ls[i as int].take(k + 1));
            }
            k = k + 1;
        }
        proof {
            assert(ls[i as int].take(ls[i as int].len() as int) =~= ls[i as int]);
            assert(ls.take(i + 1) =~= ls.take(i as int).push(ls[i as int]));
            lemma_join_lines_push(ls.take(i as int), ls[i as int]);
            assert(out@ =~= join_lines(ls.take(i + 1)));
        }
        i = i + 1;
    }
    if total > max {
        push_chars(&mut out, "\n\n... (showing first ");
        push_dec(&mut out, max as u64);
        push_chars(&mut out, " of ");
        push_dec(&mut out, total as u64);
        push_chars(&mut out, " lines)");
        proof {
            assert(out@ =~= truncated_text(text@, max as nat));
        }
    } else {
        proof {
            assert(ls.take(shown as int) =~= ls);
            assert(out@ =~= truncated_text(text@, max as nat));
        }
    }
    string_from_chars(&out)
}

/// Index of the first '>' in `s`, or its length.
pub open spec fn gt_pos(s: Seq<char>) -> int
    decreases s.len(),
{
    if s.len() == 0 {
        0
    } else if s[0] == '>' {
        0
    } else {
        1 + gt_pos(s.skip(1))
    }
}

proof fn lemma_gt_pos_bounds(s: Seq<char>)
    ensures
        0 <= gt_pos(s) <= s.len(),
    decreases s.len(),
{
    if s.len() > 0 && s[0] != '>' {
        lemma_gt_pos_bounds(s.skip(1));
    }
}

/// An opening text-run tag: it begins "w:t" but not "w:t/".
pub open spec fn is_open_wt(tag: Seq<char>) -> bool {
    &&& tag.len() >= 3
    &&& tag[0] == 'w'
    &&& tag[1] == ':'
    &&& tag[2] == 't'
    &&& !(tag.len() >= 4 && tag[3] == '/')
}

/// The closing text-run tag "/w:t".
pub open spec fn is_close_wt(tag: Seq<char>) -> bool {
    tag.len() == 4 && tag[0] == '/' && tag[1] == 'w' && tag[2] == ':' && tag[3] == 't'
}

/// The closing paragraph tag "/w:p".
pub open spec fn is_close_wp(tag: Seq<char>) -> bool {
    tag.len() == 4 && tag[0] == '/' && tag[1] == 'w' && tag[2] == ':' && tag[3] == 'p'
}

/// The scraper's walk over the XML: text inside "w:t" runs accumulates
/// into the current paragraph, a closing paragraph tag flushes it with a
/// line feed, and everything else is skipped. An unterminated tag at the
/// end of input is still classified.
pub open spec fn docx_scrape(s: Seq<char>, in_text: bool, para: Seq<char>, out: Seq<char>) -> Seq<
    char,
>
    decreases s.len(),
    via docx_scrape_decreases
{
    if s.len() == 0 {
        out + para
    } else if s[0] == '<' {
        let body = s.skip(1);
        let e = gt_pos(body);
        let tag = body.take(e);
        let rest = if e >= body.len() {
            Seq::<char>::empty()
        } else {
            body.skip(e + 1)
        };
        if is_open_wt(tag) {
            docx_scrape(rest, true, para, out)
        } else if is_close_wt(tag) {
            docx_scrape(rest, false, para, out)
        } else if is_close_wp(tag) {
            if para.len() > 0 {
                docx_scrape(rest, in_text, Seq::empty(), out + para + seq!['\n'])
            } else {
                docx_scrape(rest, in_text, para, out)
            }
        } else {
            docx_scrape(rest, in_text, para, out)
        }
    } else if in_text {
        docx_scrape(s.skip(1), in_text, para.push(s[0]), out)
    } else {
        docx_scrape(s.skip(1), in_text, para, out)
    }
}

#[via_fn]
proof fn docx_scrape_decreases(s: Seq<char>, in_text: bool, para: Seq<char>, out: Seq<char>) {
    if s.len() > 0 && s[0] == '<' {
        lemma_gt_pos_bounds(s.skip(1));
    }
}

/// The plain text a DOCX document body yields.
pub open spec fn docx_text(s: Seq<char>) -> Seq<char> {
    docx_scrape(s, false, Seq::empty(), Seq::empty())
}

/// Extracts the plain text between "w:t" tags of a DOCX document body,
/// one line per paragraph.
pub fn extract_text_from_docx_xml(xml: &str) -> (r: String)
    ensures
        r@ == docx_text(xml@),
{
    let cs = chars_vec(xml);
    let n = cs.len();
    let mut in_text: bool = false;
    let mut para: Vec<char> = Vec::new();
    let mut out: Vec<char> = Vec::new();
    let mut i: usize = 0;
    let ghost goal = docx_text(xml@);
    proof {
        assert(cs@.skip(0) =~= cs@);
    }
    while i < n
        invariant
            i <= n,
            n == cs@.len(),
            cs@ == xml@,
            goal == docx_text(xml@),
            goal == docx_scrape(cs@.skip(i as int), in_text, para@, out@),
        decreases n - i,
    {
        let ghost cur = cs@.skip(i as int);
        proof {
            assert(cur[0] == cs@[i as int]);
        }
        let c = cs[i];
        if c == '<' {
            let ghost body = cur.skip(1);
            proof {
                assert(body =~= cs@.skip(i + 1));
            }
            // scan the tag up to the closing '>'
            let mut j: usize = 0;
            proof {
                assert(body.skip(0) =~= body);
            }
            while i + 1 + j < n && cs[i + 1 + j] != '>'
                invariant
                    i + 1 + j <= n,
                    n == cs@.len(),
                    body == cs@.skip(i + 1),
                    gt_pos(body) == j + gt_pos(body.skip(j as int)),
                    forall|k: int| 0 <= k < j ==> body[k] == cs@[i + 1 + k],
                decreases n - (i + 1 + j),
            {
                proof {
                    assert(body.skip(j as int)[0] == cs@[i + 1 + j]);
                    assert(body.skip(j as int).skip(1) =~= body.skip(j + 1));
                }
                j = j + 1;
            }
            proof {
                if i + 1 + j == n {
                    assert(body.skip(j as int) =~= Seq::<char>::empty());
                } else {
                    assert(body.skip(j as int)[0] == cs@[i + 1 + j]);
                }
                assert(gt_pos(body) == j);
                assert(forall|k: int| 0 <= k < j ==> body.take(j as int)[k] == cs@[i + 1 + k]);
            }
            let ghost tag = body.take(j as int);
            // classify the tag by its leading characters
            let open_wt: bool = j >= 3 && cs[i + 1] == 'w' && cs[i + 2] == ':' && cs[i + 3] == 't'
                && !(j >= 4 && cs[i + 4] == '/');
            let close_wt: bool = j == 4 && cs[i + 1] == '/' && cs[i + 2] == 'w' && cs[i + 3] == ':'
                && cs[i + 4] == 't';
            let close_wp: bool = j == 4 && cs[i + 1] == '/' && cs[i + 2] == 'w' && cs[i + 3] == ':'
                && cs[i + 4] == 'p';
            proof {
                assert(open_wt == is_open_wt(tag));
                assert(close_wt == is_close_wt(tag));
                assert(close_wp == is_close_wp(tag));
                if i + 1 + j == n {
                    assert(Seq::<char>::empty() =~= cs@.skip(n as int));
                } else {
                    assert(body.skip(j + 1) =~= cs@.skip(i + 1 + j + 1));
                }
            }
            if open_wt {
                in_text = true;
            } else if close_wt {
                in_text = false;
            } else if close_wp {
                if para.len() > 0 {
                    let ghost para0 = para@;
                    let ghost out0 = out@;
                    let mut k: usize = 0;
                    while k < para.len()
                        invariant
                            k <= para@.len(),
                            para@ == para0,
                            out@ == out0 + para0.take(k as int),
                        decreases para@.len() - k,
                    {
                        out.push(para[k]);
                        proof {
                            assert(out@ =~= out0 + para0.take(k + 1));
                        }
                        k = k + 1;
                    }
                    out.push('\n');
                    para = Vec::new();
                    proof {
                        assert(para0.take(para0.len() as int) =~= para0);
                        assert(out@ =~= out0 + para0 + seq!['\n']);
                    }
                }
            }
            if i + 1 + j == n {
                i = n;
            } else {
                i = i + 1 + j + 1;
            }
        } else if in_text {
            para.push(c);
            proof {
                assert(cur.skip(1) =~= cs@.skip(i + 1));
                assert(para@ =~= para@.drop_last().push(cur[0]));
            }
            i = i + 1;
        } else {
            proof {
                assert(cur.skip(1) =~= cs@.skip(i + 1));
            }
            i = i + 1;
        }
    }
    let mut k: usize = 0;
    let ghost out0 = out@;
    while k < para.len()
        invariant
            k <= para@.len(),
            out@ == out0 + para@.take(k as int),
        decreases para@.len() - k,
    {
        out.push(para[k]);
        proof {
            assert(out@ =~= out0 + para@.take(k + 1));
        }
        k = k + 1;
    }
    proof {
        assert(cs@.skip(n as int) =~= Seq::<char>::empty());
        assert(para@.take(para@.len() as int) =~= para@);
        assert(out@ =~= goal);
    }
    string_from_chars(&out)
}

/// The preview text of a plain-text file: the decoded content, cut to the
/// first hundred lines with a note when more follow.
pub fn extract_txt_text(bytes: &Vec<u8>) -> (r: String)
    ensures
        r@ == truncated_text(decoded_text(bytes@), MAX_TEXT_LINES as nat),
{
    let content = read_text_with_encoding(bytes);
    truncate_lines(&chars_vec(content.as_str()), MAX_TEXT_LINES)
}

/// The preview text of a source-code file: as the plain-text preview but
/// showing three hundred lines.
pub fn extract_code_text(bytes: &Vec<u8>) -> (r: String)
    ensures
        r@ == truncated_text(decoded_text(bytes@), MAX_CODE_LINES as nat),
{
    let content = read_text_with_encoding(bytes);
    truncate_lines(&chars_vec(content.as_str()), MAX_CODE_LINES)
}

/// Why a zip entry could not be read: the archive did not open, the entry
/// is missing, or its data did not decompress.
pub enum ZipFail {
    Archive(String),
    Missing(String),
    Read(String),
}

/// Whether the archive holds a readable entry of this name.
pub uninterp spec fn zip_entry_ok(data: Seq<u8>, name: Seq<char>) -> bool;

/// The entry's decompressed bytes, a function of archive and name alone.
pub uninterp spec fn zip_entry_bytes(data: Seq<u8>, name: Seq<char>) -> Seq<u8>;

/// Relies on zip::ZipArchive::new and ZipArchive::by_name over an
/// in-memory cursor: reading an entry is a function of the archive bytes
/// and the entry name alone.
#[verifier::external_body]
fn zip_entry(data: &Vec<u8>, name: &str) -> (r: Result<Vec<u8>, ZipFail>)
    ensures
        r is Ok == zip_entry_ok(data@, name@),
        r matches Ok(v) ==> v@ == zip_entry_bytes(data@, name@),
{
    let cursor = std::io::Cursor::new(data.as_slice());
    let mut archive = match zip::ZipArchive::new(cursor) {
        Ok(a) => a,
        Err(e) => return Err(ZipFail::Archive(e.to_string())),
    };
    let mut file = match archive.by_name(name) {
        Ok(f) => f,
        Err(e) => return Err(ZipFail::Missing(e.to_string())),
    };
    let mut buf = Vec::new();
    match std::io::Read::read_to_end(&mut file, &mut buf) {
        Ok(_) => Ok(buf),
        Err(e) => Err(ZipFail::Read(e.to_string())),
    }
}

/// The preview text of a DOCX file: the document body is pulled out of
/// the archive, scraped for its text runs, and cut to the first hundred
/// lines.
pub fn extract_docx_text(data: &Vec<u8>) -> (r: Result<String, String>)
    ensures
        r matches Ok(s) ==> {
            &&& zip_entry_ok(data@, "word/document.xml"@)
            &&& valid_utf8(zip_entry_bytes(data@, "word/document.xml"@))
            &&& s@ == truncated_text(
                docx_text(decode_utf8(zip_entry_bytes(data@, "word/document.xml"@))),
                MAX_TEXT_LINES as nat,
            )
        },
        r is Err ==> !zip_entry_ok(data@, "word/document.xml"@) || !valid_utf8(
            zip_entry_bytes(data@, "word/document.xml"@),
        ),
{
    match zip_entry(data, "word/document.xml") {
        Err(ZipFail::Archive(e)) => Err(
            crate::text::join2("Failed to read DOCX archive: ", e.as_str()),
        ),
        Err(ZipFail::Missing(e)) => Err(
            crate::text::join2("Failed to find document content: ", e.as_str()),
        ),
        Err(ZipFail::Read(e)) => Err(crate::text::join2("Failed to read document: ", e.as_str())),
        Ok(bytes) => match utf8_decode(&bytes) {
            None => Err("Failed to read document: content is not valid UTF-8".to_owned()),
            Some(xml) => {
                let text = extract_text_from_docx_xml(xml.as_str());
                Ok(truncate_lines(&chars_vec(text.as_str()), MAX_TEXT_LINES))
            },
        },
    }
}

/// Whether the workbook opens and its first sheet reads.
pub uninterp spec fn xlsx_ok(data: Seq<u8>) -> bool;

/// The first sheet's name.
pub uninterp spec fn xlsx_sheet(data: Seq<u8>) -> Seq<char>;

/// The first sheet's cells, row by row, rendered as text.
pub uninterp spec fn xlsx_rows(data: Seq<u8>) -> Seq<Seq<Seq<char>>>;

/// Relies on calamine's Xlsx reader over an in-memory cursor: the sheet
/// names and cell grid are a function of the workbook bytes alone; an
/// open failure carries its message, a missing or unreadable first sheet
/// carries none.
#[verifier::external_body]
fn xlsx_first_sheet(data: &Vec<u8>) -> (r: Result<(String, Vec<Vec<String>>), Option<String>>)
    ensures
        r is Ok == xlsx_ok(data@),
        r matches Ok(t) ==> t.0@ == xlsx_sheet(data@) && t.1.deep_view() == xlsx_rows(data@),
{
    let cursor = std::io::Cursor::new(data.as_slice());
    let mut wb: calamine::Xlsx<_> = match calamine::Reader::new(cursor) {
        Ok(w) => w,
        Err(e) => return Err(Some(e.to_string())),
    };
    let name = match calamine::Reader::sheet_names(&wb).first() {
        Some(n) => n.clone(),
        None => return Err(None),
    };
    let range = match calamine::Reader::worksheet_range(&mut wb, &name) {
        Ok(r) => r,
        Err(_) => return Err(None),
    };
    let rows = range.rows().map(|row| row.iter().map(|c| c.to_string()).collect()).collect();
    Ok((name, rows))
}

/// A cell row cut to the visible number of columns.
pub open spec fn trunc_cols(row: Seq<Seq<char>>) -> Seq<Seq<char>> {
    if row.len() <= MAX_TABLE_COLS {
        row
    } else {
        row.take(MAX_TABLE_COLS as int)
    }
}

/// The truncation note appended below a cut-off table.
pub open spec fn rows_note(total: nat) -> Seq<char> {
    "... (showing first "@ + dec_digits(MAX_TABLE_ROWS as nat) + " of "@ + dec_digits(total)
        + " rows)"@
}

/// The visible part of a cell grid: the first row as headers, then up to
/// `MAX_TABLE_ROWS` data rows, each cut to the visible columns, with a
/// one-cell note row when data rows were dropped.
pub open spec fn table_preview(grid: Seq<Seq<Seq<char>>>) -> (Seq<Seq<char>>, Seq<Seq<Seq<char>>>) {
    if grid.len() == 0 {
        (Seq::empty(), Seq::empty())
    } else {
        let headers = trunc_cols(grid[0]);
        let total = (grid.len() - 1) as nat;
        let shown = if total <= MAX_TABLE_ROWS as nat {
            total
        } else {
            MAX_TABLE_ROWS as nat
        };
        let body = grid.subrange(1, 1 + shown as int).map_values(|r: Seq<Seq<char>>| trunc_cols(r));
        if total > MAX_TABLE_ROWS as nat {
            (headers, body.push(seq![rows_note(total)]))
        } else {
            (headers, body)
        }
    }
}

/// Cuts one row of strings to the visible columns.
fn trunc_cols_exec(row: &Vec<String>) -> (r: Vec<String>)
    ensures
        r.deep_view() == trunc_cols(row.deep_view()),
{
    let keep: usize = if row.len() <= MAX_TABLE_COLS {
        row.len()
    } else {
        MAX_TABLE_COLS
    };
    let mut out: Vec<String> = Vec::new();
    let mut i: usize = 0;
    while i < keep
        invariant
            keep <= row@.len(),
            i <= keep,
            out.deep_view() == row.deep_view().take(i as int),
        decreases keep - i,
    {
        let ghost d0 = out.deep_view();
        out.push(row[i].clone());
        proof {
            assert(out.deep_view() =~= d0.push(row@[i as int]@));
            assert(row.deep_view()[i as int] == row@[i as int]@);
            assert(out.deep_view() =~= row.deep_view().take(i + 1));
        }
        i = i + 1;
    }
    proof {
        if row@.len() <= MAX_TABLE_COLS {
            assert(row.deep_view().take(keep as int) =~= row.deep_view());
        }
    }
    out
}

/// Builds the truncation note row.
fn note_row(total: u64) -> (r: Vec<String>)
    ensures
        r.deep_view() =~= seq![rows_note(total as nat)],
{
    let mut note: Vec<char> = Vec::new();
    push_chars(&mut note, "... (showing first ");
    push_dec(&mut note, MAX_TABLE_ROWS as u64);
    push_chars(&mut note, " of ");
    push_dec(&mut note, total);
    push_chars(&mut note, " rows)");
    let mut out: Vec<String> = Vec::new();
    out.push(string_from_chars(&note));
    proof {
        assert(note@ =~= rows_note(total as nat));
    }
    out
}

/// Cuts a full cell grid to the visible table.
fn grid_preview(grid: &Vec<Vec<String>>) -> (r: (Vec<String>, Vec<Vec<String>>))
    ensures
        (r.0.deep_view(), r.1.deep_view()) == table_preview(grid.deep_view()),
{
    let ghost g = grid.deep_view();
    if grid.len() == 0 {
        let r: (Vec<String>, Vec<Vec<String>>) = (Vec::new(), Vec::new());
        proof {
            assert(r.0.deep_view() =~= table_preview(g).0);
            assert(r.1.deep_view() =~= table_preview(g).1);
        }
        return r;
    }
    let headers = trunc_cols_exec(&grid[0]);
    let total: usize = grid.len() - 1;
    let shown: usize = if total <= MAX_TABLE_ROWS {
        total
    } else {
        MAX_TABLE_ROWS
    };
    let mut body: Vec<Vec<String>> = Vec::new();
    let mut i: usize = 0;
    proof {
        assert(grid.deep_view()[0] == grid@[0].deep_view());
    }
    while i < shown
        invariant
            g == grid.deep_view(),
            shown <= total,
            total + 1 == grid@.len(),
            g.len() == grid@.len(),
            i <= shown,
            body.deep_view() == g.subrange(1, 1 + i as int).map_values(
                |r: Seq<Seq<char>>| trunc_cols(r),
            ),
        decreases shown - i,
    {
        let ghost d0 = body.deep_view();
        let row = trunc_cols_exec(&grid[i + 1]);
        body.push(row);
        proof {
            assert(g[1 + i as int] == grid@[1 + i as int].deep_view());
            assert(body.deep_view() =~= d0.push(trunc_cols(g[1 + i as int])));
            assert(body.deep_view() =~= g.subrange(1, 1 + (i + 1)).map_values(
                |r: Seq<Seq<char>>| trunc_cols(r),
            ));
        }
        i = i + 1;
    }
    if total > MAX_TABLE_ROWS {
        let ghost d0 = body.deep_view();
        let note = note_row(total as u64);
        body.push(note);
        proof {
            assert(body.deep_view() =~= d0.push(seq![rows_note(total as nat)]));
            assert(headers.deep_view() == table_preview(g).0);
            assert(body.deep_view() =~= table_preview(g).1);
        }
    } else {
        proof {
            assert(headers.deep_view() == table_preview(g).0);
            assert(body.deep_view() =~= table_preview(g).1);
        }
    }
    (headers, body)
}

/// The visible table of an XLSX workbook's first sheet, with the sheet's
/// name; an unopenable workbook reports its error, a workbook without a
/// readable sheet reports that.
pub fn extract_xlsx_table(data: &Vec<u8>) -> (r: Result<
    (Vec<String>, Vec<Vec<String>>, Option<String>),
    String,
>)
    ensures
        r is Ok == xlsx_ok(data@),
        r matches Ok(t) ==> {
            &&& (t.0.deep_view(), t.1.deep_view()) == table_preview(xlsx_rows(data@))
            &&& t.2 matches Some(name) && name@ == xlsx_sheet(data@)
        },
{
    match xlsx_first_sheet(data) {
        Ok((name, rows)) => {
            let (headers, body) = grid_preview(&rows);
            Ok((headers, body, Some(name)))
        },
        Err(Some(e)) => Err(crate::text::join2("Failed to open XLSX: ", e.as_str())),
        Err(None) => Err("No readable sheet found".to_owned()),
    }
}

/// The visible table of a CSV text: the first record as headers, up to
/// `MAX_TABLE_ROWS` data records, and a note row when more follow.
pub fn extract_csv_table(text: &Vec<char>) -> (r: (Vec<String>, Vec<Vec<String>>))
    ensures
        (r.0.deep_view(), r.1.deep_view()) == table_preview(crate::csvio::parse_doc(text@)),
{
    let rows = crate::csvio::parse_csv(text);
    grid_preview(&rows)
}

/// Audio stream facts worth showing, in plain values: the duration in
/// whole milliseconds rather than seconds.
#[derive(Clone, Debug)]
pub struct AudioMetadata {
    pub duration_millis: Option<u64>,
    pub sample_rate: Option<u32>,
    pub channels: Option<u8>,
    pub codec: Option<String>,
    pub bitrate: Option<u32>,
}

/// The duration of `frames` samples at `rate` per second, in whole
/// milliseconds, saturating at the largest representable value.
pub open spec fn duration_millis_spec(frames: u64, rate: u32) -> u64 {
    let v = (frames as int) * 1000 / (rate as int);
    if v > 0xffff_ffff_ffff_ffffu64 {
        0xffff_ffff_ffff_ffffu64
    } else {
        v as u64
    }
}

/// Derives the reported metadata from a probed stream's parameters: the
/// duration from frame count and sample rate when both are known, and the
/// bit rate as bits per sample times sample rate, saturating rather than
/// overflowing.
pub fn audio_metadata_from_params(
    n_frames: Option<u64>,
    sample_rate: Option<u32>,
    channels: Option<u8>,
    codec: Option<String>,
    bits_per_sample: Option<u32>,
) -> (r: AudioMetadata)
    ensures
        r.duration_millis == (match (n_frames, sample_rate) {
            (Some(f), Some(sr)) => if sr > 0 {
                Some(duration_millis_spec(f, sr))
            } else {
                None
            },
            _ => None,
        }),
        r.sample_rate == sample_rate,
        r.channels == channels,
        r.codec == codec,
        r.bitrate == (match bits_per_sample {
            Some(b) => {
                let p = (b as int) * (match sample_rate {
                    Some(sr) => sr as int,
                    None => 0,
                });
                if p > 0xffff_ffffu32 {
                    Some(0xffff_ffffu32)
                } else {
                    Some(p as u32)
                }
            },
            None => None,
        }),
{
    let duration_millis: Option<u64> = match (n_frames, sample_rate) {
        (Some(f), Some(sr)) => {
            if sr > 0 {
                let wide: u128 = (f as u128) * 1000 / (sr as u128);
                if wide > 0xffff_ffff_ffff_ffffu128 {
                    Some(0xffff_ffff_ffff_ffffu64)
                } else {
                    Some(wide as u64)
                }
            } else {
                None
            }
        },
        _ => None,
    };
    let bitrate: Option<u32> = match bits_per_sample {
        Some(b) => {
            let sr: u32 = match sample_rate {
                Some(sr) => sr,
                None => 0,
            };
            proof {
                assert((b as int) * (sr as int) <= 0xffff_ffffint * 0xffff_ffffint)
                    by (nonlinear_arith)
                    requires
                        0 <= b <= 0xffff_ffffint,
                        0 <= sr <= 0xffff_ffffint,
                ;
            }
            let p: u64 = (b as u64) * (sr as u64);
            if p > 0xffff_ffffu64 {
                Some(0xffff_ffffu32)
            } else {
                Some(p as u32)
            }
        },
        None => None,
    };
    AudioMetadata { duration_millis, sample_rate, channels, codec, bitrate }
}

} // verus!
