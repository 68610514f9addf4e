//! CSV export of a result set: the records written (header, then the rows
//! in display order, NULL shown as chosen), the CSV text the `csv` crate
//! makes of them, and the requested encoding of that text. Writing the
//! file happens elsewhere.

use super::buffer::ResultSetBuffer;
use super::cell::{Cell, CellKind};
use crate::csvimport::import::{import_delimiter, spec_import_delimiter, utf8_lead};
use crate::error::AppError;
use crate::text::{chars_of, owned, str_eq};
use vstd::prelude::*;
use vstd::utf8::{decode_utf8, valid_utf8};

verus! {

pub struct CsvOptions {
    pub separator: String,
    pub quote: String,
    pub include_header: bool,
    /// "utf-8" | "utf-8-bom" | "windows-1252"
    pub encoding: String,
    pub null_as: String,
}

impl Default for CsvOptions {
    fn default() -> (r: Self)
        ensures
            r.separator@ == ","@,
            r.quote@ == "\""@,
            r.include_header,
            r.encoding@ == "utf-8"@,
            r.null_as@ == Seq::<char>::empty(),
    {
        CsvOptions {
            separator: owned(","),
            quote: owned("\""),
            include_header: true,
            encoding: owned("utf-8"),
            null_as: String::new(),
        }
    }
}

/// A `csv::Writer` over an in-memory buffer.
#[verifier::external_body]
pub struct CsvRecordWriter {
    inner: csv::Writer<Vec<u8>>,
}

/// The records a CSV writer has accepted, in order.
pub uninterp spec fn csv_writer_records(w: CsvRecordWriter) -> Seq<Seq<Seq<char>>>;

/// The (delimiter, quote) bytes a CSV writer was built with.
pub uninterp spec fn csv_writer_format(w: CsvRecordWriter) -> (u8, u8);

/// Whether a write into the writer has failed (the writer then holds part
/// of the refused record).
pub uninterp spec fn csv_writer_failed(w: CsvRecordWriter) -> bool;

/// The CSV text (as bytes) the `csv` crate writes for `records` with this
/// delimiter and quote: fields quoted where needed, quotes doubled, each
/// record ended by `\n`.
pub uninterp spec fn csv_bytes(records: Seq<Seq<Seq<char>>>, delimiter: u8, quote: u8) -> Seq<u8>;

/// `csv::WriterBuilder::new().delimiter(d).quote(q).from_writer(Vec::new())`:
/// a writer with no records yet.
#[verifier::external_body]
fn csv_writer(delimiter: u8, quote: u8) -> (r: CsvRecordWriter)
    ensures
        csv_writer_records(r) == Seq::<Seq<Seq<char>>>::empty(),
        csv_writer_format(r) == (delimiter, quote),
        !csv_writer_failed(r),
{
    CsvRecordWriter { inner: csv::WriterBuilder::new().delimiter(delimiter).quote(quote).from_writer(Vec::new()) }
}

/// `csv::Writer::write_record`. Writing into a `Vec` cannot fail, so a
/// writer with no failed write refuses a record exactly when its field
/// count differs from the first record's; an accepted record is added, a
/// refused one leaves the writer failed.
#[verifier::external_body]
fn csv_write_record(w: &mut CsvRecordWriter, record: &Vec<String>) -> (r: bool)
    ensures
        csv_writer_format(*final(w)) == csv_writer_format(*old(w)),
        !csv_writer_failed(*old(w)) ==> r == (csv_writer_records(*old(w)).len() == 0 || record@.len() == csv_writer_records(*old(w))[0].len()),
        r && !csv_writer_failed(*old(w)) ==> !csv_writer_failed(*final(w)) && csv_writer_records(*final(w)) == csv_writer_records(*old(w)).push(record@.map_values(|f: String| f@)),
        !r || csv_writer_failed(*old(w)) ==> csv_writer_failed(*final(w)),
{
    w.inner.write_record(record).is_ok()
}

/// `csv::Writer::into_inner`: flushing into a `Vec` cannot fail; with no
/// failed write the bytes are those written for the accepted records.
#[verifier::external_body]
fn csv_into_bytes(w: CsvRecordWriter) -> (r: Option<Vec<u8>>)
    ensures
        r != Option::<Vec<u8>>::None,
        r matches Some(b) ==> !csv_writer_failed(w) ==> b@ == csv_bytes(csv_writer_records(w), csv_writer_format(w).0, csv_writer_format(w).1),
{
    w.inner.into_inner().ok()
}

/// What `encoding_rs::WINDOWS_1252.encode(text)` yields: Windows-1252
/// bytes, unmappable characters as decimal character references.
pub uninterp spec fn windows_1252_encoded(text: Seq<char>) -> Seq<u8>;

/// `encoding_rs::WINDOWS_1252.encode`. The crate panics only when its
/// buffer-size computation overflows, which the bound rules out.
#[verifier::external_body]
fn encode_windows_1252(text: &str) -> (r: Vec<u8>)
    requires
        text@.len() <= usize::MAX / 16,
    ensures
        r@ == windows_1252_encoded(text@),
{
    encoding_rs::WINDOWS_1252.encode(text).0.into_owned()
}

/// The delimiter and quote bytes: the first byte of each option, `,` and
/// `"` when empty.
pub open spec fn first_byte_or(s: Seq<char>, default: u8) -> u8 {
    if s.len() == 0 {
        default
    } else {
        utf8_lead(s[0])
    }
}

fn first_byte_of(s: &str, default: u8) -> (r: u8)
    ensures
        r == first_byte_or(s@, default),
{
    let v = chars_of(s);
    if v.len() == 0 {
        default
    } else {
        let b = import_delimiter(s);
        assert(b == spec_import_delimiter(s@));
        b
    }
}

/// The text of a cell in the export: NULL as chosen, else its display.
pub open spec fn export_value(c: Cell, null_as: Seq<char>) -> Seq<char> {
    if c.kind == CellKind::Null {
        null_as
    } else {
        c.display@
    }
}

/// The records written: the column names (when a header is wanted), then
/// each row in display order.
pub open spec fn spec_csv_records(buf: ResultSetBuffer, opts: CsvOptions) -> Seq<Seq<Seq<char>>> {
    let header = if opts.include_header {
        seq![buf.columns@.map_values(|c: super::buffer::ColMeta| c.name@)]
    } else {
        seq![]
    };
    header + Seq::new(
        buf.display_len(),
        |d: int| buf.rows@[buf.spec_physical_row(d)->0]@.map_values(|c: Cell| export_value(c, opts.null_as@)),
    )
}

/// Every record has as many fields as the first.
pub open spec fn equal_lengths(records: Seq<Seq<Seq<char>>>) -> bool {
    forall|i: int| 0 <= i < records.len() ==> (#[trigger] records[i]).len() == records[0].len()
}

/// A result set whose rows each hold one cell per column exports as
/// records of equal length, so its export fails only when the text is
/// beyond what the encoder can size.
pub proof fn lemma_rectangular_records(buf: ResultSetBuffer, opts: CsvOptions)
    requires
        buf.wf(),
        forall|i: int| 0 <= i < buf.rows@.len() ==> (#[trigger] buf.rows@[i])@.len() == buf.columns@.len(),
    ensures
        equal_lengths(spec_csv_records(buf, opts)),
{
    let recs = spec_csv_records(buf, opts);
    let n = buf.columns@.len();
    assert forall|i: int| 0 <= i < recs.len() implies (#[trigger] recs[i]).len() == n by {
        let h: int = if opts.include_header { 1 } else { 0 };
        if i >= h {
            let d = i - h;
            let p = buf.spec_physical_row(d)->0;
            assert(0 <= p < buf.rows@.len());
        }
    }
}

/// The CSV text of an export fits what the Windows-1252 encoder can size
/// (other encodings have no bound).
pub open spec fn export_fits(buf: ResultSetBuffer, opts: CsvOptions) -> bool {
    let u = csv_bytes(spec_csv_records(buf, opts), first_byte_or(opts.separator@, 44), first_byte_or(opts.quote@, 34));
    opts.encoding@ == "windows-1252"@ ==> (if valid_utf8(u) { decode_utf8(u).len() } else { 0 }) <= usize::MAX / 16
}

/// The file contents for an encoding: UTF-8 as is, with a byte-order mark
/// for `utf-8-bom`, or re-encoded for `windows-1252`.
pub open spec fn spec_encoded(encoding: Seq<char>, utf8: Seq<u8>) -> Seq<u8> {
    if encoding == "utf-8-bom"@ {
        seq![0xEFu8, 0xBBu8, 0xBFu8] + utf8
    } else if encoding == "windows-1252"@ {
        windows_1252_encoded(if valid_utf8(utf8) { decode_utf8(utf8) } else { Seq::empty() })
    } else {
        utf8
    }
}

fn export_row(row: &Vec<Cell>, null_as: &str) -> (r: Vec<String>)
    ensures
        r@.map_values(|f: String| f@) == row@.map_values(|c: Cell| export_value(c, null_as@)),
{
    let mut out: Vec<String> = Vec::new();
    let mut i: usize = 0;
    while i < row.len()
        invariant
            i <= row@.len(),
            out@.map_values(|f: String| f@) == row@.take(i as int).map_values(|c: Cell| export_value(c, null_as@)),
        decreases row@.len() - i,
    {
        let c = &row[i];
        let v = match c.kind {
            CellKind::Null => owned(null_as),
            _ => owned(c.display.as_str()),
        };
        let ghost before = out@.map_values(|f: String| f@);
        out.push(v);
        assert(out@.map_values(|f: String| f@) =~= before.push(export_value(*c, null_as@)));
        assert(row@.take(i + 1).map_values(|c: Cell| export_value(c, null_as@)) =~= row@.take(i as int).map_values(
            |c: Cell| export_value(c, null_as@),
        ).push(export_value(*c, null_as@)));
        i += 1;
    }
    assert(row@.take(row@.len() as int) =~= row@);
    out
}

/// The exported file's bytes and the number of rows written. Fails exactly
/// when a record's length differs from the first record's (the `csv` writer
/// refuses it) or the text is beyond what the encoder can size.
pub fn export_csv_bytes(buf: &ResultSetBuffer, opts: &CsvOptions) -> (r: Result<(Vec<u8>, u64), AppError>)
    requires
        buf.wf(),
        buf.display_len() <= u32::MAX,
    ensures
        match r {
            Ok((bytes, n)) => n == buf.display_len() && bytes@ == spec_encoded(
                opts.encoding@,
                csv_bytes(
                    spec_csv_records(*buf, *opts),
                    first_byte_or(opts.separator@, 44),
                    first_byte_or(opts.quote@, 34),
                ),
            ),
            Err(e) => e is Internal,
        },
        r is Ok <==> equal_lengths(spec_csv_records(*buf, *opts)) && export_fits(*buf, *opts),
{
    let sep = first_byte_of(opts.separator.as_str(), 44);
    let quote = first_byte_of(opts.quote.as_str(), 34);
    let mut w = csv_writer(sep, quote);
    let ghost want = spec_csv_records(*buf, *opts);
    let ghost hlen: int = if opts.include_header { 1 } else { 0 };
    if opts.include_header {
        let mut names: Vec<String> = Vec::new();
        let mut i: usize = 0;
        while i < buf.columns.len()
            invariant
                i <= buf.columns@.len(),
                names@.map_values(|f: String| f@) == buf.columns@.take(i as int).map_values(|c: super::buffer::ColMeta| c.name@),
            decreases buf.columns@.len() - i,
        {
            let ghost before = names@.map_values(|f: String| f@);
            names.push(owned(buf.columns[i].name.as_str()));
            assert(names@.map_values(|f: String| f@) =~= before.push(buf.columns@[i as int].name@));
            assert(buf.columns@.take(i + 1).map_values(|c: super::buffer::ColMeta| c.name@) =~= buf.columns@.take(i as int).map_values(
                |c: super::buffer::ColMeta| c.name@,
            ).push(buf.columns@[i as int].name@));
            i += 1;
        }
        assert(buf.columns@.take(buf.columns@.len() as int) =~= buf.columns@);
        if !csv_write_record(&mut w, &names) {
            return Err(AppError::Internal(owned("the CSV writer refused the header")));
        }
    }
    assert(csv_writer_records(w) =~= want.take(hlen));
    assert(equal_lengths(want.take(hlen)));
    let display_len: u32 = match &buf.sort_perm {
        Some(p) => p.len() as u32,
        None => buf.rows.len() as u32,
    };
    let mut written: u64 = 0;
    let mut d: u32 = 0;
    while d < display_len
        invariant
            buf.wf(),
            display_len == buf.display_len(),
            d <= display_len,
            written == d,
            want == spec_csv_records(*buf, *opts),
            hlen == (if opts.include_header { 1int } else { 0int }),
            want.len() == hlen + buf.display_len(),
            csv_writer_records(w) == want.take(hlen + d),
            csv_writer_format(w) == (sep, quote),
            !csv_writer_failed(w),
            equal_lengths(want.take(hlen + d)),
        decreases display_len - d,
    {
        match buf.physical_row(d) {
            Some(p) => {
                let rec = export_row(&buf.rows[p], opts.null_as.as_str());
                let ghost before = want.take(hlen + d);
                assert(want[hlen + d] == rec@.map_values(|f: String| f@));
                if !csv_write_record(&mut w, &rec) {
                    proof {
                        assert(before.len() > 0 && rec@.len() != before[0].len());
                        assert(before[0] == want[0]);
                        assert(want[hlen + d].len() == rec@.len());
                        assert(want[hlen + d].len() != want[0].len());
                    }
                    return Err(AppError::Internal(owned("the CSV writer refused a row")));
                }
                assert(want.take(hlen + d + 1) =~= before.push(want[hlen + d]));
                proof {
                    let after = want.take(hlen + d + 1);
                    assert forall|i: int| 0 <= i < after.len() implies (#[trigger] after[i]).len() == after[0].len() by {
                        if before.len() > 0 {
                            assert(after[0] == before[0]);
                            if i < before.len() {
                                assert(after[i] == before[i]);
                            }
                        }
                    }
                }
            },
            None => {
                assert(false);
            },
        }
        written = written + 1;
        d += 1;
    }
    assert(want.take(hlen + d) =~= want);
    assert(equal_lengths(want));
    proof {
        reveal_strlit("utf-8-bom");
        reveal_strlit("windows-1252");
    }
    let utf8 = match csv_into_bytes(w) {
        Some(b) => b,
        None => {
            return Err(AppError::Internal(owned("the CSV writer could not finish")));
        },
    };
    let ghost u = csv_bytes(spec_csv_records(*buf, *opts), first_byte_or(opts.separator@, 44), first_byte_or(opts.quote@, 34));
    assert(csv_writer_records(w) == want);
    assert(utf8@ == u);
    let bytes: Vec<u8> = if str_eq(opts.encoding.as_str(), "utf-8-bom") {
        let mut v: Vec<u8> = Vec::new();
        v.push(0xEF);
        v.push(0xBB);
        v.push(0xBF);
        let mut i: usize = 0;
        while i < utf8.len()
            invariant
                i <= utf8@.len(),
                v@ == seq![0xEFu8, 0xBBu8, 0xBFu8] + utf8@.take(i as int),
            decreases utf8@.len() - i,
        {
            v.push(utf8[i]);
            assert(utf8@.take(i + 1) =~= utf8@.take(i as int).push(utf8@[i as int]));
            i += 1;
        }
        assert(utf8@.take(utf8@.len() as int) =~= utf8@);
        proof {
            reveal_strlit("utf-8-bom");
            reveal_strlit("windows-1252");
            assert("utf-8-bom"@.len() != "windows-1252"@.len());
        }
        assert(opts.encoding@ != "windows-1252"@);
        assert(export_fits(*buf, *opts));
        v
    } else if str_eq(opts.encoding.as_str(), "windows-1252") {
        let text = match crate::csvimport::inspect::utf8_text(utf8.as_slice()) {
            Some(t) => t,
            None => String::new(),
        };
        let n = chars_of(text.as_str()).len();
        proof {
            if !valid_utf8(u) {
                assert(text@ == Seq::<char>::empty());
            }
            assert(n == (if valid_utf8(u) { decode_utf8(u).len() } else { 0 }));
        }
        if n > usize::MAX / 16 {
            return Err(AppError::Internal(owned("the export is too large to encode")));
        }
        assert(export_fits(*buf, *opts));
        encode_windows_1252(text.as_str())
    } else {
        assert(export_fits(*buf, *opts));
        utf8
    };
    assert(equal_lengths(spec_csv_records(*buf, *opts)));
    assert(export_fits(*buf, *opts));
    Ok((bytes, written))
}

} // verus!
