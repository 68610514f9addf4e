//! Inspection of one CSV file: decoding, delimiter, header row, column
//! names and types, and a preview.

use super::infer::{
    classify, kind_holds, lemma_classified_kind_holds, lemma_merge_holds_both, merge, sanitize_ident, sniff_delimiter, spec_classify, spec_merge,
    spec_sanitize_ident, spec_sniff_delimiter, spec_sql_type_for, sql_type_for, ColKind,
};
use crate::error::{is_runtime_error, AppError};
use crate::text::{all_ws, is_blank, chars_of, dec_digits, extend_chars, extend_str, owned, string_of, trim, u64_dec};
use vstd::prelude::*;
use vstd::utf8::{decode_utf8, valid_utf8};

verus! {

pub const SAMPLE_ROWS: usize = 1000;

pub const PREVIEW_ROWS: usize = 5;

#[derive(Debug, Clone)]
pub struct CsvColumn {
    pub name: String,
    pub sql_type: String,
}

#[derive(Debug)]
pub struct CsvFileInfo {
    pub path: String,
    pub file_name: String,
    pub suggested_table: String,
    pub delimiter: String,
    pub has_header: bool,
    pub columns: Vec<CsvColumn>,
    pub sample_rows: Vec<Vec<String>>,
    pub size_bytes: u64,
}

#[derive(Debug, Clone)]
pub struct ImportSpec {
    pub path: String,
    pub table: String,
    pub delimiter: String,
    pub has_header: bool,
    pub columns: Vec<CsvColumn>,
}

pub ghost struct CsvColumnSpec {
    pub name: Seq<char>,
    pub sql_type: Seq<char>,
}

pub ghost struct CsvFileInfoSpec {
    pub path: Seq<char>,
    pub file_name: Seq<char>,
    pub suggested_table: Seq<char>,
    pub delimiter: Seq<char>,
    pub has_header: bool,
    pub columns: Seq<CsvColumnSpec>,
    pub sample_rows: Seq<Seq<Seq<char>>>,
    pub size_bytes: nat,
}

impl View for CsvColumn {
    type V = CsvColumnSpec;

    open spec fn view(&self) -> CsvColumnSpec {
        CsvColumnSpec { name: self.name@, sql_type: self.sql_type@ }
    }
}

pub open spec fn table_view(rows: Seq<Vec<String>>) -> Seq<Seq<Seq<char>>> {
    rows.map_values(|r: Vec<String>| r@.map_values(|c: String| c@))
}

impl View for CsvFileInfo {
    type V = CsvFileInfoSpec;

    open spec fn view(&self) -> CsvFileInfoSpec {
        CsvFileInfoSpec {
            path: self.path@,
            file_name: self.file_name@,
            suggested_table: self.suggested_table@,
            delimiter: self.delimiter@,
            has_header: self.has_header,
            columns: self.columns@.map_values(|c: CsvColumn| c@),
            sample_rows: table_view(self.sample_rows@),
            size_bytes: self.size_bytes as nat,
        }
    }
}

// ----- outside computations -----

/// What `encoding_rs::WINDOWS_1252.decode(b)` yields as text.
pub uninterp spec fn windows_1252_decoded(b: Seq<u8>) -> Seq<char>;

/// `encoding_rs::WINDOWS_1252.decode`: Windows-1252 decoding (with the
/// crate's BOM sniffing); a function of the bytes alone. The crate panics
/// only when its buffer-size computation overflows, which the bound rules out.
#[verifier::external_body]
fn decode_windows_1252(b: &[u8]) -> (r: String)
    requires
        b@.len() <= usize::MAX / 4,
    ensures
        r@ == windows_1252_decoded(b@),
{
    encoding_rs::WINDOWS_1252.decode(b).0.into_owned()
}

/// `std::str::from_utf8`: succeeds exactly on valid UTF-8, giving its text.
#[verifier::external_body]
pub(crate) fn utf8_text(b: &[u8]) -> (r: Option<String>)
    ensures
        r is Some <==> valid_utf8(b@),
        r matches Some(t) ==> t@ == decode_utf8(b@),
{
    std::str::from_utf8(b).ok().map(|s| s.to_string())
}

#[verifier::external_type_specification]
#[verifier::external_body]
pub struct ExCsvError(csv::Error);

/// What the `csv` crate reads from `text`: at most `limit` records, with the
/// given delimiter, the first line taken as a header (and skipped) when
/// `has_headers`, and records of differing lengths allowed; `None` when
/// reading any of them fails.
pub uninterp spec fn csv_records(text: Seq<char>, delimiter: u8, has_headers: bool, limit: nat) -> Option<Seq<Seq<Seq<char>>>>;

/// Reads records with `csv::ReaderBuilder` (flexible) from `text`.
#[verifier::external_body]
fn read_records(text: &str, delimiter: u8, has_headers: bool, limit: usize) -> (r: Result<Vec<Vec<String>>, csv::Error>)
    ensures
        match r {
            Ok(rows) => csv_records(text@, delimiter, has_headers, limit as nat) == Some(table_view(rows@)),
            Err(_) => csv_records(text@, delimiter, has_headers, limit as nat) is None,
        },
{
    let mut reader = csv::ReaderBuilder::new().delimiter(delimiter).has_headers(has_headers)
        .flexible(true).from_reader(text.as_bytes());
    let mut rows = Vec::new();
    for rec in reader.records().take(limit) {
        rows.push(rec?.iter().map(|s| s.to_string()).collect());
    }
    Ok(rows)
}

/// The `Display` text of a CSV read error.
#[verifier::external_body]
fn csv_error_text(e: &csv::Error) -> (r: String) {
    format!("{e}")
}

/// `str::to_lowercase` (full Unicode lower-casing).
pub uninterp spec fn lowercase(s: Seq<char>) -> Seq<char>;

#[verifier::external_body]
fn to_lowercase(s: &str) -> (r: String)
    ensures
        r@ == lowercase(s@),
{
    s.to_lowercase()
}

/// `Path::new(p).file_name()` as text (lossy), empty when there is none.
pub uninterp spec fn path_file_name(p: Seq<char>) -> Seq<char>;

/// `Path::new(p).file_stem()` as text (lossy), empty when there is none.
pub uninterp spec fn path_file_stem(p: Seq<char>) -> Seq<char>;

#[verifier::external_body]
fn file_name_of(p: &str) -> (r: String)
    ensures
        r@ == path_file_name(p@),
{
    std::path::Path::new(p).file_name().map(|s| s.to_string_lossy().into_owned()).unwrap_or_default()
}

#[verifier::external_body]
fn file_stem_of(p: &str) -> (r: String)
    ensures
        r@ == path_file_stem(p@),
{
    std::path::Path::new(p).file_stem().map(|s| s.to_string_lossy().into_owned()).unwrap_or_default()
}

// ----- decoding -----

pub open spec fn has_utf8_bom(b: Seq<u8>) -> bool {
    b.len() >= 3 && b[0] == 0xEF && b[1] == 0xBB && b[2] == 0xBF
}

/// File contents as text: a UTF-8 BOM is dropped; bytes that are not UTF-8
/// are taken as Windows-1252 (what vendor exports usually are).
pub open spec fn spec_read_decoded(bytes: Seq<u8>) -> Seq<char> {
    let b = if has_utf8_bom(bytes) {
        bytes.skip(3)
    } else {
        bytes
    };
    if valid_utf8(b) {
        decode_utf8(b)
    } else {
        windows_1252_decoded(b)
    }
}

pub fn read_decoded(bytes: &[u8]) -> (r: String)
    requires
        bytes@.len() <= usize::MAX / 4,
    ensures
        r@ == spec_read_decoded(bytes@),
{
    let bom = bytes.len() >= 3 && bytes[0] == 0xEF && bytes[1] == 0xBB && bytes[2] == 0xBF;
    let mut b: Vec<u8> = Vec::new();
    let mut i: usize = if bom {
        3
    } else {
        0
    };
    let start = i;
    while i < bytes.len()
        invariant
            start <= i <= bytes@.len(),
            b@ == bytes@.subrange(start as int, i as int),
        decreases bytes@.len() - i,
    {
        assert(bytes@.subrange(start as int, i + 1) =~= bytes@.subrange(start as int, i as int).push(bytes@[i as int]));
        b.push(bytes[i]);
        i += 1;
    }
    assert(bom ==> b@ =~= bytes@.skip(3));
    assert(!bom ==> b@ =~= bytes@);
    match utf8_text(b.as_slice()) {
        Some(t) => t,
        None => decode_windows_1252(b.as_slice()),
    }
}

// ----- inference over the sampled records -----

pub open spec fn cell_at(r: Seq<Seq<char>>, i: int) -> Seq<char> {
    if 0 <= i < r.len() {
        r[i]
    } else {
        seq![]
    }
}

/// Length of the longest record.
pub open spec fn max_width(rows: Seq<Seq<Seq<char>>>) -> nat
    decreases rows.len(),
{
    if rows.len() == 0 {
        0
    } else {
        let m = max_width(rows.drop_last());
        if rows.last().len() > m {
            rows.last().len()
        } else {
            m
        }
    }
}

pub open spec fn first_all_text(rows: Seq<Seq<Seq<char>>>) -> bool {
    forall|j: int| 0 <= j < rows[0].len() ==> spec_classify(#[trigger] rows[0][j]) == ColKind::Text
}

/// Some value after the first record is a number or a date.
pub open spec fn typed_after_first(rows: Seq<Seq<Seq<char>>>) -> bool {
    exists|i: int, j: int|
        1 <= i < rows.len() && 0 <= j < rows[i].len() && spec_classify(#[trigger] rows[i][j])
            != ColKind::Text && spec_classify(rows[i][j]) != ColKind::Empty
}

/// The first record's values are distinct, ignoring surrounding whitespace
/// and case.
pub open spec fn first_distinct(rows: Seq<Seq<Seq<char>>>) -> bool {
    forall|a: int, b: int|
        0 <= a < b < rows[0].len() ==> lowercase(trim(#[trigger] rows[0][a])) != lowercase(
            trim(#[trigger] rows[0][b]),
        )
}

/// Header heuristic: every first-record value is text, there is more than
/// one record, and either a later value is a number or date or the first
/// record's values are all distinct.
pub open spec fn detect_header(rows: Seq<Seq<Seq<char>>>) -> bool {
    first_all_text(rows) && (typed_after_first(rows) || first_distinct(rows)) && rows.len() > 1
}

/// The kind of column `i` over `data`.
pub open spec fn column_kind(data: Seq<Seq<Seq<char>>>, i: int) -> ColKind
    decreases data.len(),
{
    if data.len() == 0 {
        ColKind::Empty
    } else {
        spec_merge(column_kind(data.drop_last(), i), spec_classify(cell_at(data.last(), i)))
    }
}

/// The kind inferred for a column holds every value of that column: no
/// value of the sample is out of the range or form of the column's SQL
/// type.
pub proof fn lemma_column_kind_holds_values(data: Seq<Seq<Seq<char>>>, i: int)
    ensures
        forall|r: int| 0 <= r < data.len() ==> kind_holds(column_kind(data, i), cell_at(#[trigger] data[r], i)),
    decreases data.len(),
{
    if data.len() > 0 {
        let front = data.drop_last();
        lemma_column_kind_holds_values(front, i);
        let k = column_kind(front, i);
        let c = spec_classify(cell_at(data.last(), i));
        assert forall|r: int| 0 <= r < data.len() implies kind_holds(column_kind(data, i), cell_at(#[trigger] data[r], i)) by {
            if r < data.len() - 1 {
                assert(data[r] == front[r]);
                lemma_merge_holds_both(k, c, cell_at(data[r], i));
            } else {
                lemma_classified_kind_holds(cell_at(data.last(), i));
                lemma_merge_holds_both(k, c, cell_at(data[r], i));
            }
        }
    }
}

/// The longest value (in characters) of column `i` over `data`, at least 1.
pub open spec fn column_max_len(data: Seq<Seq<Seq<char>>>, i: int) -> nat
    decreases data.len(),
{
    if data.len() == 0 {
        1
    } else {
        let m = column_max_len(data.drop_last(), i);
        let l = cell_at(data.last(), i).len();
        if l > m {
            l
        } else {
            m
        }
    }
}

/// Column `i`'s name before de-duplication: the sanitized header value, or
/// `column{i+1}`.
pub open spec fn base_name(rows: Seq<Seq<Seq<char>>>, has_header: bool, i: int) -> Seq<char> {
    spec_sanitize_ident(
        if has_header {
            cell_at(rows[0], i)
        } else {
            seq![]
        },
        "column"@ + dec_digits((i + 1) as nat),
    )
}

/// The names as compared: lower-cased.
pub open spec fn lower_all(names: Seq<Seq<char>>) -> Seq<Seq<char>> {
    names.map_values(|n: Seq<char>| lowercase(n))
}

/// `name` with `_n` appended.
pub open spec fn suffixed(name: Seq<char>, n: nat) -> Seq<char> {
    name + seq!['_'] + dec_digits(n)
}

/// The first `name_n`, for `n` from `n` up to `limit`, whose lower-cased
/// form is not `taken`.
pub open spec fn free_suffix(name: Seq<char>, taken: Seq<Seq<char>>, n: nat, limit: nat) -> Option<Seq<char>>
    decreases limit + 1 - n,
{
    if n > limit {
        None
    } else if !taken.contains(lowercase(suffixed(name, n))) {
        Some(suffixed(name, n))
    } else {
        free_suffix(name, taken, n + 1, limit)
    }
}

/// The first `k` names made distinct, ignoring case: a name that equals
/// (ignoring case) one already given keeps its text with `_n` appended, for
/// the smallest `n` from 2 whose result equals no header name and no name
/// already given. `None` when none of the first `names.len() + k - 1`
/// choices of `n` is free.
pub open spec fn dedup_prefix(names: Seq<Seq<char>>, k: nat) -> Option<Seq<Seq<char>>>
    decreases k,
{
    if k == 0 {
        Some(Seq::<Seq<char>>::empty())
    } else {
        match dedup_prefix(names, (k - 1) as nat) {
            None => None,
            Some(done) => {
                let name = names[k - 1];
                if !lower_all(done).contains(lowercase(name)) {
                    Some(done.push(name))
                } else {
                    match free_suffix(name, lower_all(names) + lower_all(done), 2, names.len() + k + 1) {
                        Some(c) => Some(done.push(c)),
                        None => None,
                    }
                }
            },
        }
    }
}

pub open spec fn deduped_names(names: Seq<Seq<char>>) -> Option<Seq<Seq<char>>> {
    dedup_prefix(names, names.len())
}

proof fn lemma_free_suffix(name: Seq<char>, taken: Seq<Seq<char>>, n: nat, limit: nat)
    ensures
        free_suffix(name, taken, n, limit) matches Some(c) ==> !taken.contains(lowercase(c)),
    decreases limit + 1 - n,
{
    if n <= limit && taken.contains(lowercase(suffixed(name, n))) {
        lemma_free_suffix(name, taken, n + 1, limit);
    }
}

/// De-duplicated column names are pairwise distinct ignoring case.
pub proof fn lemma_deduped_names_distinct(names: Seq<Seq<char>>, k: nat)
    requires
        k <= names.len(),
    ensures
        dedup_prefix(names, k) matches Some(d) ==> d.len() == k && forall|i: int, j: int|
            0 <= i < j < k ==> lowercase(#[trigger] d[i]) != lowercase(#[trigger] d[j]),
    decreases k,
{
    if k > 0 {
        lemma_deduped_names_distinct(names, (k - 1) as nat);
        if let Some(done) = dedup_prefix(names, (k - 1) as nat) {
            let name = names[k - 1];
            let taken = lower_all(names) + lower_all(done);
            lemma_free_suffix(name, taken, 2, names.len() + k + 1);
            if let Some(d) = dedup_prefix(names, k) {
                let x = d[k - 1];
                assert(d == done.push(x));
                assert(!lower_all(done).contains(lowercase(x))) by {
                    if lower_all(done).contains(lowercase(name)) {
                        if lower_all(done).contains(lowercase(x)) {
                            let m = choose|m: int| 0 <= m < lower_all(done).len() && lower_all(done)[m] == lowercase(x);
                            assert(taken[names.len() + m] == lowercase(x));
                        }
                    }
                }
                assert forall|i: int, j: int| 0 <= i < j < k implies lowercase(#[trigger] d[i]) != lowercase(#[trigger] d[j]) by {
                    if j < k - 1 {
                        assert(d[i] == done[i] && d[j] == done[j]);
                    } else {
                        assert(d[i] == done[i]);
                        assert(lower_all(done)[i] == lowercase(d[i]));
                    }
                }
            }
        }
    }
}

/// Names that are already distinct ignoring case stay as they are.
pub proof fn lemma_distinct_names_kept(names: Seq<Seq<char>>, k: nat)
    requires
        k <= names.len(),
        forall|i: int, j: int| 0 <= i < j < names.len() ==> lowercase(#[trigger] names[i]) != lowercase(#[trigger] names[j]),
    ensures
        dedup_prefix(names, k) == Some(names.take(k as int)),
    decreases k,
{
    if k > 0 {
        lemma_distinct_names_kept(names, (k - 1) as nat);
        let done = names.take(k - 1);
        assert(!lower_all(done).contains(lowercase(names[k - 1]))) by {
            if lower_all(done).contains(lowercase(names[k - 1])) {
                let m = choose|m: int| 0 <= m < lower_all(done).len() && lower_all(done)[m] == lowercase(names[k - 1]);
                assert(done[m] == names[m]);
            }
        }
        assert(done.push(names[k - 1]) =~= names.take(k as int));
    }
}

/// The header names (or `column{i+1}`) of every column.
pub open spec fn base_names_spec(rows: Seq<Seq<Seq<char>>>, has_header: bool) -> Seq<Seq<char>> {
    Seq::new(max_width(rows), |i: int| base_name(rows, has_header, i))
}

/// The inferred columns: distinct names and the SQL type of each column's
/// data; `None` when the names cannot be told apart.
pub open spec fn infer_columns(rows: Seq<Seq<Seq<char>>>, has_header: bool) -> Option<Seq<CsvColumnSpec>> {
    let data = if has_header {
        rows.skip(1)
    } else {
        rows
    };
    match deduped_names(base_names_spec(rows, has_header)) {
        Some(names) => Some(
            Seq::new(
                max_width(rows),
                |i: int|
                    CsvColumnSpec {
                        name: names[i],
                        sql_type: spec_sql_type_for(column_kind(data, i), column_max_len(data, i)),
                    },
            ),
        ),
        None => None,
    }
}

/// Why a file could not be inspected.
pub enum InspectFailure {
    Empty,
    Unreadable,
    NoColumns,
    /// The column names could not be made distinct.
    NameClash,
}

/// What the inspection makes of the records read from a file.
pub open spec fn spec_inspect_records(
    path: Seq<char>,
    size_bytes: u64,
    delimiter: u8,
    header_override: Option<bool>,
    rows: Seq<Seq<Seq<char>>>,
) -> Result<CsvFileInfoSpec, InspectFailure> {
    if max_width(rows) == 0 {
        Err(InspectFailure::NoColumns)
    } else {
        let has_header = match header_override {
            Some(h) => h,
            None => detect_header(rows),
        };
        let data = if has_header {
            rows.skip(1)
        } else {
            rows
        };
        match infer_columns(rows, has_header) {
            None => Err(InspectFailure::NameClash),
            Some(columns) => Ok(
                CsvFileInfoSpec {
                    path: path,
                    file_name: path_file_name(path),
                    suggested_table: spec_sanitize_ident(path_file_stem(path), "imported"@),
                    delimiter: seq![delimiter as char],
                    has_header: has_header,
                    columns: columns,
                    sample_rows: if data.len() > PREVIEW_ROWS {
                        data.take(PREVIEW_ROWS as int)
                    } else {
                        data
                    },
                    size_bytes: size_bytes as nat,
                },
            ),
        }
    }
}

pub open spec fn spec_inspect(
    path: Seq<char>,
    bytes: Seq<u8>,
    size_bytes: u64,
    delimiter_override: Option<u8>,
    header_override: Option<bool>,
) -> Result<CsvFileInfoSpec, InspectFailure> {
    let text = spec_read_decoded(bytes);
    let delimiter = match delimiter_override {
        Some(d) => d,
        None => spec_sniff_delimiter(text),
    };
    if all_ws(text) {
        Err(InspectFailure::Empty)
    } else {
        match csv_records(text, delimiter, false, (SAMPLE_ROWS + 1) as nat) {
            None => Err(InspectFailure::Unreadable),
            Some(rows) => spec_inspect_records(path, size_bytes, delimiter, header_override, rows),
        }
    }
}

/// An inspected file's columns have names that are pairwise distinct
/// ignoring case, one per field of its widest sampled record; a given
/// delimiter and header choice are used as given, and the preview holds the
/// first data records (after the header row when there is one).
pub proof fn lemma_inspection_columns(
    path: Seq<char>,
    bytes: Seq<u8>,
    size_bytes: u64,
    delimiter_override: Option<u8>,
    header_override: Option<bool>,
)
    ensures
        spec_inspect(path, bytes, size_bytes, delimiter_override, header_override) matches Ok(info) ==> {
            let text = spec_read_decoded(bytes);
            let d = match delimiter_override {
                Some(d) => d,
                None => spec_sniff_delimiter(text),
            };
            let rows = csv_records(text, d, false, (SAMPLE_ROWS + 1) as nat)->0;
            let data = if info.has_header { rows.skip(1) } else { rows };
            &&& csv_records(text, d, false, (SAMPLE_ROWS + 1) as nat) is Some
            &&& info.delimiter == seq![d as char]
            &&& (header_override matches Some(h) ==> info.has_header == h)
            &&& info.columns.len() == max_width(rows)
            &&& forall|i: int, j: int| 0 <= i < j < info.columns.len()
                ==> lowercase(#[trigger] info.columns[i].name) != lowercase(#[trigger] info.columns[j].name)
            &&& info.sample_rows == (if data.len() > PREVIEW_ROWS { data.take(PREVIEW_ROWS as int) } else { data })
        },
{
    let text = spec_read_decoded(bytes);
    let d = match delimiter_override {
        Some(d) => d,
        None => spec_sniff_delimiter(text),
    };
    if let Some(rows) = csv_records(text, d, false, (SAMPLE_ROWS + 1) as nat) {
        if max_width(rows) > 0 {
            let has_header = match header_override {
                Some(h) => h,
                None => detect_header(rows),
            };
            let bv = base_names_spec(rows, has_header);
            lemma_deduped_names_distinct(bv, bv.len());
            if let Ok(info) = spec_inspect(path, bytes, size_bytes, delimiter_override, header_override) {
                let names = deduped_names(bv)->0;
                assert forall|i: int, j: int| 0 <= i < j < info.columns.len()
                    implies lowercase(#[trigger] info.columns[i].name) != lowercase(#[trigger] info.columns[j].name) by {
                    assert(info.columns[i].name == names[i]);
                    assert(info.columns[j].name == names[j]);
                }
            }
        }
    }
}

proof fn lemma_table_cell(rows: Seq<Vec<String>>, i: int, j: int)
    requires
        0 <= i < rows.len(),
    ensures
        table_view(rows).len() == rows.len(),
        table_view(rows)[i].len() == rows[i]@.len(),
        0 <= j < rows[i]@.len() ==> table_view(rows)[i][j] == rows[i]@[j]@,
{
}

fn max_width_of(rows: &Vec<Vec<String>>) -> (r: usize)
    ensures
        r == max_width(table_view(rows@)),
{
    let ghost tv = table_view(rows@);
    let mut m: usize = 0;
    let mut i: usize = 0;
    while i < rows.len()
        invariant
            i <= rows@.len(),
            tv == table_view(rows@),
            m == max_width(tv.take(i as int)),
        decreases rows@.len() - i,
    {
        assert(tv.take(i + 1).drop_last() =~= tv.take(i as int));
        assert(tv.take(i + 1).last().len() == rows@[i as int]@.len());
        if rows[i].len() > m {
            m = rows[i].len();
        }
        i += 1;
    }
    assert(tv.take(rows@.len() as int) =~= tv);
    m
}

fn first_row_all_text(rows: &Vec<Vec<String>>) -> (r: bool)
    requires
        rows@.len() > 0,
    ensures
        r == first_all_text(table_view(rows@)),
{
    let ghost tv = table_view(rows@);
    let row = &rows[0];
    proof {
        lemma_table_cell(rows@, 0, 0);
    }
    let mut j: usize = 0;
    while j < row.len()
        invariant
            j <= row@.len(),
            rows@.len() > 0,
            row == rows@[0],
            tv == table_view(rows@),
            tv[0].len() == row@.len(),
            forall|k: int| 0 <= k < j ==> spec_classify(#[trigger] tv[0][k]) == ColKind::Text,
        decreases row@.len() - j,
    {
        proof {
            lemma_table_cell(rows@, 0, j as int);
        }
        let k = classify(row[j].as_str());
        if k != ColKind::Text {
            return false;
        }
        j += 1;
    }
    true
}

fn typed_after_first_of(rows: &Vec<Vec<String>>) -> (r: bool)
    ensures
        r == typed_after_first(table_view(rows@)),
{
    let ghost tv = table_view(rows@);
    let mut i: usize = 1;
    while i < rows.len()
        invariant
            1 <= i,
            i <= rows@.len() || rows@.len() == 0,
            tv == table_view(rows@),
            forall|a: int, b: int|
                1 <= a < i && a < tv.len() && 0 <= b < tv[a].len() ==> spec_classify(#[trigger] tv[a][b]) == ColKind::Text
                    || spec_classify(tv[a][b]) == ColKind::Empty,
        decreases rows@.len() - i,
    {
        let row = &rows[i];
        let mut j: usize = 0;
        while j < row.len()
            invariant
                j <= row@.len(),
                1 <= i < rows@.len(),
                row == rows@[i as int],
                tv == table_view(rows@),
                forall|b: int| 0 <= b < j ==> spec_classify(#[trigger] tv[i as int][b]) == ColKind::Text
                    || spec_classify(tv[i as int][b]) == ColKind::Empty,
            decreases row@.len() - j,
        {
            proof {
                lemma_table_cell(rows@, i as int, j as int);
            }
            let k = classify(row[j].as_str());
            if k != ColKind::Text && k != ColKind::Empty {
                assert(1 <= i < tv.len() && 0 <= j < tv[i as int].len());
                assert(spec_classify(tv[i as int][j as int]) != ColKind::Text);
                return true;
            }
            j += 1;
        }
        i += 1;
    }
    false
}

fn first_row_distinct(rows: &Vec<Vec<String>>) -> (r: bool)
    requires
        rows@.len() > 0,
    ensures
        r == first_distinct(table_view(rows@)),
{
    let ghost tv = table_view(rows@);
    let row = &rows[0];
    proof {
        lemma_table_cell(rows@, 0, 0);
    }
    let mut keys: Vec<String> = Vec::new();
    let mut j: usize = 0;
    while j < row.len()
        invariant
            j <= row@.len(),
            rows@.len() > 0,
            row == rows@[0],
            tv == table_view(rows@),
            tv[0].len() == row@.len(),
            keys@.len() == j,
            forall|k: int| 0 <= k < j ==> (#[trigger] keys@[k])@ == lowercase(trim(tv[0][k])),
            forall|a: int, b: int| 0 <= a < b < j ==> lowercase(trim(#[trigger] tv[0][a])) != lowercase(trim(#[trigger] tv[0][b])),
        decreases row@.len() - j,
    {
        let cs = chars_of(row[j].as_str());
        let (lo, hi) = crate::text::trim_bounds(&cs, 0, cs.len());
        assert(cs@.subrange(0, cs@.len() as int) =~= cs@);
        let mut t: Vec<char> = Vec::new();
        let mut k = lo;
        while k < hi
            invariant
                lo <= k <= hi <= cs@.len(),
                t@ == cs@.subrange(lo as int, k as int),
            decreases hi - k,
        {
            assert(cs@.subrange(lo as int, k + 1) =~= cs@.subrange(lo as int, k as int).push(cs@[k as int]));
            t.push(cs[k]);
            k += 1;
        }
        let ts = string_of(t.as_slice());
        let key = to_lowercase(ts.as_str());
        proof {
            lemma_table_cell(rows@, 0, j as int);
        }
        let kc = chars_of(key.as_str());
        let mut a: usize = 0;
        while a < keys.len()
            invariant
                a <= keys@.len() == j,
                j < row@.len(),
                rows@.len() > 0,
                tv == table_view(rows@),
                tv[0].len() == row@.len(),
                kc@ == key@,
                key@ == lowercase(trim(tv[0][j as int])),
                forall|x: int| 0 <= x < j ==> (#[trigger] keys@[x])@ == lowercase(trim(tv[0][x])),
                forall|x: int| 0 <= x < a ==> lowercase(trim(#[trigger] tv[0][x])) != lowercase(trim(tv[0][j as int])),
            decreases keys@.len() - a,
        {
            let other = chars_of(keys[a].as_str());
            if crate::text::chars_eq(other.as_slice(), kc.as_slice()) {
                return false;
            }
            a += 1;
        }
        keys.push(key);
        j += 1;
    }
    true
}

/// Kind and longest length of column `i` over `rows[from..]`.
fn infer_column(rows: &Vec<Vec<String>>, from: usize, i: usize) -> (r: (ColKind, usize))
    requires
        from <= rows@.len(),
    ensures
        r.0 == column_kind(table_view(rows@).skip(from as int), i as int),
        r.1 == column_max_len(table_view(rows@).skip(from as int), i as int),
{
    let ghost tv = table_view(rows@);
    let ghost data = tv.skip(from as int);
    let mut kind = ColKind::Empty;
    let mut max_len: usize = 1;
    let mut r = from;
    while r < rows.len()
        invariant
            from <= r <= rows@.len(),
            tv == table_view(rows@),
            data == tv.skip(from as int),
            kind == column_kind(data.take(r - from), i as int),
            max_len == column_max_len(data.take(r - from), i as int),
        decreases rows@.len() - r,
    {
        assert(data.take(r + 1 - from).drop_last() =~= data.take(r - from));
        assert(data.take(r + 1 - from).last() == tv[r as int]);
        let row = &rows[r];
        let (k, l) = if i < row.len() {
            let cs = chars_of(row[i].as_str());
            assert(cell_at(tv[r as int], i as int) == row@[i as int]@);
            (classify(row[i].as_str()), cs.len())
        } else {
            assert(cell_at(tv[r as int], i as int) =~= Seq::<char>::empty());
            (classify(""), 0)
        };
        proof {
            if !(i < row@.len()) {
                reveal_strlit("");
                assert(""@ =~= Seq::<char>::empty());
            }
        }
        kind = merge(kind, k);
        if l > max_len {
            max_len = l;
        }
        r += 1;
    }
    assert(data.take(rows@.len() - from) =~= data);
    (kind, max_len)
}

/// Copies of the strings of a record.
fn copy_row(row: &Vec<String>) -> (r: Vec<String>)
    ensures
        r@.map_values(|c: String| c@) == row@.map_values(|c: String| c@),
{
    let mut out: Vec<String> = Vec::new();
    let mut j: usize = 0;
    while j < row.len()
        invariant
            j <= row@.len(),
            out@.map_values(|c: String| c@) == row@.take(j as int).map_values(|c: String| c@),
        decreases row@.len() - j,
    {
        out.push(owned(row[j].as_str()));
        assert(row@.take(j + 1).map_values(|c: String| c@) =~= row@.take(j as int).map_values(|c: String| c@).push(row@[j as int]@));
        assert(out@.map_values(|c: String| c@) =~= row@.take(j + 1).map_values(|c: String| c@));
        j += 1;
    }
    assert(row@.take(row@.len() as int) =~= row@);
    out
}


/// The names of columns `0..width` before de-duplication.
fn base_names(rows: &Vec<Vec<String>>, has_header: bool, width: usize) -> (r: Vec<String>)
    requires
        rows@.len() > 0,
    ensures
        r@.len() == width,
        forall|i: int| 0 <= i < width ==> (#[trigger] r@[i])@ == base_name(table_view(rows@), has_header, i),
{
    let ghost tv = table_view(rows@);
    proof {
        lemma_table_cell(rows@, 0, 0);
    }
    let mut out: Vec<String> = Vec::new();
    let mut i: usize = 0;
    while i < width
        invariant
            i <= width,
            rows@.len() > 0,
            tv == table_view(rows@),
            tv[0].len() == rows@[0]@.len(),
            out@.len() == i,
            forall|k: int| 0 <= k < i ==> (#[trigger] out@[k])@ == base_name(tv, has_header, k),
        decreases width - i,
    {
        let mut fb: Vec<char> = Vec::new();
        extend_str(&mut fb, "column");
        let digits = u64_dec((i as u64) + 1);
        extend_chars(&mut fb, digits.as_slice());
        let fallback = string_of(fb.as_slice());
        proof {
            reveal_strlit("column");
            lemma_table_cell(rows@, 0, i as int);
        }
        assert(fallback@ == "column"@ + dec_digits((i + 1) as nat));
        let name = if has_header && i < rows[0].len() {
            sanitize_ident(rows[0][i].as_str(), fallback.as_str())
        } else {
            proof {
                reveal_strlit("");
            }
            assert(has_header ==> cell_at(tv[0], i as int) =~= ""@);
            assert(!has_header ==> seq![] =~= ""@);
            sanitize_ident("", fallback.as_str())
        };
        out.push(name);
        i += 1;
    }
    out
}

pub open spec fn key_views(keys: Seq<Vec<char>>) -> Seq<Seq<char>> {
    keys.map_values(|k: Vec<char>| k@)
}

pub open spec fn name_views(names: Seq<String>) -> Seq<Seq<char>> {
    names.map_values(|n: String| n@)
}

fn key_in(keys: &Vec<Vec<char>>, k: &Vec<char>) -> (r: bool)
    ensures
        r == key_views(keys@).contains(k@),
{
    let mut i: usize = 0;
    while i < keys.len()
        invariant
            i <= keys@.len(),
            forall|x: int| 0 <= x < i ==> key_views(keys@)[x] != k@,
        decreases keys@.len() - i,
    {
        if crate::text::chars_eq(keys[i].as_slice(), k.as_slice()) {
            assert(key_views(keys@)[i as int] == k@);
            return true;
        }
        i += 1;
    }
    false
}

proof fn lemma_contains_concat(a: Seq<Seq<char>>, b: Seq<Seq<char>>, x: Seq<char>)
    ensures
        (a + b).contains(x) == (a.contains(x) || b.contains(x)),
{
    if (a + b).contains(x) {
        let m = choose|m: int| 0 <= m < (a + b).len() && (a + b)[m] == x;
        if m < a.len() {
            assert(a[m] == x);
        } else {
            assert(b[m - a.len()] == x);
        }
    }
    if a.contains(x) {
        let m = choose|m: int| 0 <= m < a.len() && a[m] == x;
        assert((a + b)[m] == x);
    }
    if b.contains(x) {
        let m = choose|m: int| 0 <= m < b.len() && b[m] == x;
        assert((a + b)[a.len() + m] == x);
    }
}

/// The first free `name_n` (see [`free_suffix`]), with its lower-cased form.
fn free_name(name: &str, keys: &Vec<Vec<char>>, done_keys: &Vec<Vec<char>>, limit: u128) -> (r: Option<(String, Vec<char>)>)
    requires
        2 <= limit < 0x1_0000_0000_0000_0000_0000u128,
    ensures
        match free_suffix(name@, key_views(keys@) + key_views(done_keys@), 2, limit as nat) {
            Some(c) => r matches Some(p) && p.0@ == c && p.1@ == lowercase(c),
            None => r is None,
        },
{
    let ghost taken = key_views(keys@) + key_views(done_keys@);
    let mut n: u128 = 2;
    while n <= limit
        invariant
            2 <= n <= limit + 1,
            limit < 0x1_0000_0000_0000_0000_0000u128,
            taken == key_views(keys@) + key_views(done_keys@),
            free_suffix(name@, taken, 2, limit as nat) == free_suffix(name@, taken, n as nat, limit as nat),
        decreases limit + 1 - n,
    {
        let mut v = chars_of(name);
        v.push('_');
        let digits = crate::text::u128_dec(n);
        extend_chars(&mut v, digits.as_slice());
        assert(v@ =~= suffixed(name@, n as nat));
        let cand = string_of(v.as_slice());
        let low = to_lowercase(cand.as_str());
        let ck = chars_of(low.as_str());
        proof {
            lemma_contains_concat(key_views(keys@), key_views(done_keys@), ck@);
        }
        if !key_in(keys, &ck) && !key_in(done_keys, &ck) {
            return Some((cand, ck));
        }
        n += 1;
    }
    None
}

proof fn lemma_dedup_none_stays(names: Seq<Seq<char>>, k: nat, m: nat)
    requires
        k <= m,
        dedup_prefix(names, k) is None,
    ensures
        dedup_prefix(names, m) is None,
    decreases m - k,
{
    if k < m {
        lemma_dedup_none_stays(names, k, (m - 1) as nat);
    }
}

/// The names made distinct ignoring case; see [`dedup_prefix`].
fn dedupe_names(names: &Vec<String>) -> (r: Option<Vec<String>>)
    ensures
        match deduped_names(name_views(names@)) {
            Some(d) => r matches Some(v) && name_views(v@) == d,
            None => r is None,
        },
{
    let ghost nv = name_views(names@);
    let mut keys: Vec<Vec<char>> = Vec::new();
    let mut k: usize = 0;
    while k < names.len()
        invariant
            k <= names@.len(),
            nv == name_views(names@),
            keys@.len() == k,
            key_views(keys@) == lower_all(nv.take(k as int)),
        decreases names@.len() - k,
    {
        let low = to_lowercase(names[k].as_str());
        let ghost before = keys@;
        keys.push(chars_of(low.as_str()));
        assert(nv[k as int] == names@[k as int]@);
        assert(keys@ == before.push(keys@[k as int]));
        assert forall|j: int| 0 <= j < k + 1 implies #[trigger] key_views(keys@)[j] == lower_all(nv.take(k + 1))[j] by {
            if j < k {
                assert(key_views(keys@)[j] == key_views(before)[j]);
            }
        }
        assert(key_views(keys@) =~= lower_all(nv.take(k + 1)));
        k += 1;
    }
    assert(nv.take(names@.len() as int) =~= nv);
    let nlen = names.len();
    let mut out: Vec<String> = Vec::new();
    let mut out_keys: Vec<Vec<char>> = Vec::new();
    let mut i: usize = 0;
    while i < nlen
        invariant
            i <= nlen == names@.len(),
            nv == name_views(names@),
            key_views(keys@) == lower_all(nv),
            dedup_prefix(nv, i as nat) == Some(name_views(out@)),
            out_keys@.len() == out@.len(),
            key_views(out_keys@) == lower_all(name_views(out@)),
        decreases nlen - i,
    {
        let ghost done = name_views(out@);
        assert(key_views(keys@)[i as int] == lowercase(nv[i as int]));
        let ki = chars_of(to_lowercase(names[i].as_str()).as_str());
        assert(nv[i as int] == names@[i as int]@);
        assert(ki@ == lowercase(nv[i as int]));
        let ghost kbefore = out_keys@;
        let ghost obefore = out@;
        if !key_in(&out_keys, &ki) {
            out.push(owned(names[i].as_str()));
            out_keys.push(ki);
            assert(name_views(out@) =~= done.push(nv[i as int]));
            assert forall|j: int| 0 <= j < out@.len() implies #[trigger] key_views(out_keys@)[j] == lower_all(name_views(out@))[j] by {
                if j < obefore.len() {
                    assert(key_views(out_keys@)[j] == key_views(kbefore)[j]);
                    assert(name_views(out@)[j] == name_views(obefore)[j]);
                }
            }
            assert(key_views(out_keys@) =~= lower_all(name_views(out@)));
        } else {
            let limit: u128 = nlen as u128 + i as u128 + 2;
            match free_name(names[i].as_str(), &keys, &out_keys, limit) {
                None => {
                    proof {
                        lemma_dedup_none_stays(nv, (i + 1) as nat, nv.len());
                    }
                    return None;
                },
                Some((cand, ck)) => {
                    let ghost cv = cand@;
                    out.push(cand);
                    out_keys.push(ck);
                    assert(name_views(out@) =~= done.push(cv));
                    assert forall|j: int| 0 <= j < out@.len() implies #[trigger] key_views(out_keys@)[j] == lower_all(name_views(out@))[j] by {
                        if j < obefore.len() {
                            assert(key_views(out_keys@)[j] == key_views(kbefore)[j]);
                            assert(name_views(out@)[j] == name_views(obefore)[j]);
                        }
                    }
                    assert(key_views(out_keys@) =~= lower_all(name_views(out@)));
                },
            }
        }
        i += 1;
    }
    Some(out)
}

/// Copies of `rows[from..from + n]`.
fn copy_rows(rows: &Vec<Vec<String>>, from: usize, n: usize) -> (r: Vec<Vec<String>>)
    requires
        from + n <= rows@.len(),
    ensures
        table_view(r@) == table_view(rows@).subrange(from as int, from + n),
{
    let ghost tv = table_view(rows@);
    let len = rows.len();
    let mut out: Vec<Vec<String>> = Vec::new();
    let mut k: usize = 0;
    while k < n
        invariant
            k <= n,
            len == rows@.len(),
            from + n <= rows@.len(),
            tv == table_view(rows@),
            table_view(out@) == tv.subrange(from as int, from + k),
        decreases n - k,
    {
        assert(from + k < rows@.len());
        let idx = from + k;
        let row = copy_row(&rows[idx]);
        let ghost before = out@;
        out.push(row);
        assert(out@ =~= before.push(row));
        assert(tv[idx as int] == rows@[idx as int]@.map_values(|c: String| c@));
        assert(table_view(out@) =~= table_view(before).push(tv[idx as int]));
        assert(table_view(out@) =~= tv.subrange(from as int, from + k + 1));
        k += 1;
    }
    out
}

/// What an inspection failure is reported as.
pub open spec fn inspect_error(e: AppError, path: Seq<char>, f: InspectFailure) -> bool {
    match f {
        InspectFailure::Empty => is_runtime_error(e, path + ": file is empty"@, None),
        InspectFailure::NoColumns => is_runtime_error(e, path + ": no columns found"@, None),
        InspectFailure::NameClash => is_runtime_error(e, path + ": cannot give the columns distinct names"@, None),
        InspectFailure::Unreadable => match e {
            AppError::Runtime { message, detail } => detail is None && message@.len() >= path.len() + 2
                && message@.take(path.len() + 2int) == path + ": "@,
            _ => false,
        },
    }
}

fn path_message(path: &str, tail: &str) -> (r: String)
    ensures
        r@ == path@ + tail@,
{
    let mut v = chars_of(path);
    extend_str(&mut v, tail);
    string_of(v.as_slice())
}

/// Inspects a CSV file given its contents: samples up to a thousand records
/// (after an optional header), guesses the delimiter and header row unless
/// they are given, and infers a name and SQL type for every column.
pub fn inspect_file_with(
    path: &str,
    bytes: &[u8],
    size_bytes: u64,
    delimiter_override: Option<u8>,
    header_override: Option<bool>,
) -> (r: Result<CsvFileInfo, AppError>)
    requires
        bytes@.len() <= usize::MAX / 4,
    ensures
        match spec_inspect(path@, bytes@, size_bytes, delimiter_override, header_override) {
            Ok(info) => r matches Ok(got) && got@ == info,
            Err(f) => r matches Err(e) && inspect_error(e, path@, f),
        },
{
    let text = read_decoded(bytes);
    if is_blank(text.as_str()) {
        return Err(AppError::runtime(path_message(path, ": file is empty"), None));
    }
    let delimiter = match delimiter_override {
        Some(d) => d,
        None => sniff_delimiter(text.as_str()),
    };
    let rows = match read_records(text.as_str(), delimiter, false, SAMPLE_ROWS + 1) {
        Ok(rows) => rows,
        Err(e) => {
            let detail = csv_error_text(&e);
            let mut v = chars_of(path);
            extend_str(&mut v, ": ");
            extend_str(&mut v, detail.as_str());
            let message = string_of(v.as_slice());
            proof {
                reveal_strlit(": ");
            }
            assert(message@ == path@ + ": "@ + detail@);
            assert(message@.take(path@.len() + 2int) =~= path@ + ": "@);
            return Err(AppError::runtime(message, None));
        },
    };
    inspect_records(path, size_bytes, delimiter, header_override, &rows)
}

/// What the inspection makes of the records read from a file: the header
/// row (given, or guessed), distinct column names, each column's SQL type,
/// and the first rows of data as a preview.
pub fn inspect_records(
    path: &str,
    size_bytes: u64,
    delimiter: u8,
    header_override: Option<bool>,
    rows: &Vec<Vec<String>>,
) -> (r: Result<CsvFileInfo, AppError>)
    ensures
        match spec_inspect_records(path@, size_bytes, delimiter, header_override, table_view(rows@)) {
            Ok(info) => r matches Ok(got) && got@ == info,
            Err(f) => r matches Err(e) && inspect_error(e, path@, f),
        },
{
    let ghost tv = table_view(rows@);
    let width = max_width_of(rows);
    if width == 0 {
        return Err(AppError::runtime(path_message(path, ": no columns found"), None));
    }
    assert(tv.len() == rows@.len());
    assert(rows@.len() > 0);
    let has_header = match header_override {
        Some(h) => h,
        None => first_row_all_text(&rows) && (typed_after_first_of(&rows) || first_row_distinct(&rows))
            && rows.len() > 1,
    };
    let from: usize = if has_header {
        1
    } else {
        0
    };
    let ghost data = if has_header {
        tv.skip(1)
    } else {
        tv
    };
    assert(data =~= tv.skip(from as int));
    let base = base_names(&rows, has_header, width);
    let ghost bv = base_names_spec(tv, has_header);
    assert(name_views(base@) =~= bv);
    let names = match dedupe_names(&base) {
        Some(names) => names,
        None => {
            return Err(AppError::runtime(path_message(path, ": cannot give the columns distinct names"), None));
        },
    };
    let ghost dn = deduped_names(bv)->0;
    proof {
        lemma_deduped_names_distinct(bv, bv.len());
    }
    let ghost want = infer_columns(tv, has_header)->0;
    let mut columns: Vec<CsvColumn> = Vec::new();
    let mut i: usize = 0;
    while i < width
        invariant
            i <= width == max_width(tv) == names@.len(),
            from <= rows@.len(),
            tv == table_view(rows@),
            data == tv.skip(from as int),
            infer_columns(tv, has_header) == Some(want),
            want.len() == width,
            deduped_names(bv) == Some(dn),
            name_views(names@) == dn,
            bv == base_names_spec(tv, has_header),
            data == (if has_header { tv.skip(1) } else { tv }),
            columns@.len() == i,
            forall|x: int| 0 <= x < i ==> (#[trigger] columns@[x])@ == want[x],
        decreases width - i,
    {
        assert(names@[i as int]@ == dn[i as int]);
        let (kind, max_len) = infer_column(&rows, from, i);
        let sql_type = sql_type_for(kind, max_len);
        let name = owned(names[i].as_str());
        columns.push(CsvColumn { name, sql_type });
        i += 1;
    }
    let data_len = rows.len() - from;
    let n = if data_len > PREVIEW_ROWS {
        PREVIEW_ROWS
    } else {
        data_len
    };
    let sample_rows = copy_rows(&rows, from, n);
    let ghost sample = if data.len() > PREVIEW_ROWS {
        data.take(PREVIEW_ROWS as int)
    } else {
        data
    };
    assert(table_view(sample_rows@) =~= sample);
    let mut delim = String::new();
    crate::text::push_char(&mut delim, delimiter as char);
    let stem = file_stem_of(path);
    let info = CsvFileInfo {
        path: owned(path),
        file_name: file_name_of(path),
        suggested_table: sanitize_ident(stem.as_str(), "imported"),
        delimiter: delim,
        has_header,
        columns,
        sample_rows,
        size_bytes,
    };
    assert(info@.columns =~= want);
    assert(info@.delimiter =~= seq![delimiter as char]);
    Ok(info)
}

/// Inspects a CSV file with the delimiter and header row guessed.
pub fn inspect_file(path: &str, bytes: &[u8], size_bytes: u64) -> (r: Result<CsvFileInfo, AppError>)
    requires
        bytes@.len() <= usize::MAX / 4,
    ensures
        match spec_inspect(path@, bytes@, size_bytes, None, None) {
            Ok(info) => r matches Ok(got) && got@ == info,
            Err(f) => r matches Err(e) && inspect_error(e, path@, f),
        },
{
    inspect_file_with(path, bytes, size_bytes, None, None)
}

/// The delimiter override of a re-inspection: the first byte of the
/// chosen delimiter text, none when it is empty.
pub fn delimiter_override(d: &str) -> (r: Option<u8>)
    ensures
        match r {
            Some(b) => d@.len() > 0 && b == crate::csvimport::import::utf8_lead(d@[0]),
            None => d@.len() == 0,
        },
{
    let v = chars_of(d);
    if v.len() == 0 {
        None
    } else {
        let b = crate::csvimport::import::import_delimiter(d);
        Some(b)
    }
}

} // verus!
