//! Loading inspected CSV files into tables: the table definition, the
//! literal rows and the batched multi-row `INSERT`s. Reading the files and
//! running the statements happen elsewhere.

use super::infer::{
    kind_of_sql_type, literal, literal_error_message, literal_want, spec_kind_of_sql_type, spec_literal, ColKind,
    LITERAL_HINT,
};
use super::inspect::{table_view, CsvColumn, CsvColumnSpec};
use crate::error::{is_runtime_error, AppError};
use crate::sql::meta::{quote_ident, spec_quote_ident};
use crate::text::{
    chars_of, dec_digits, extend_chars, extend_str, join_with, owned, push_joined, string_of, trim, trim_bounds, u64_dec,
};
use vstd::prelude::*;

verus! {

/// Rows per `INSERT` statement.
pub const INSERT_BATCH: usize = 500;

/// The columns a file is loaded into: as inspected, or every one as
/// `NVARCHAR(MAX)` when everything is imported as text.
pub fn import_columns(columns: &Vec<CsvColumn>, all_text: bool) -> (r: Vec<CsvColumn>)
    ensures
        r@.len() == columns@.len(),
        forall|i: int| #![trigger r@[i]] 0 <= i < r@.len() ==> r@[i].name@ == columns@[i].name@ && r@[i].sql_type@ == if all_text {
            "NVARCHAR(MAX)"@
        } else {
            columns@[i].sql_type@
        },
{
    let mut out: Vec<CsvColumn> = Vec::new();
    let mut i: usize = 0;
    while i < columns.len()
        invariant
            i <= columns@.len(),
            out@.len() == i,
            forall|k: int| #![trigger out@[k]] 0 <= k < i ==> out@[k].name@ == columns@[k].name@ && out@[k].sql_type@ == if all_text {
                "NVARCHAR(MAX)"@
            } else {
                columns@[k].sql_type@
            },
        decreases columns@.len() - i,
    {
        let t = if all_text {
            owned("NVARCHAR(MAX)")
        } else {
            owned(columns[i].sql_type.as_str())
        };
        out.push(CsvColumn { name: owned(columns[i].name.as_str()), sql_type: t });
        i += 1;
    }
    out
}

/// The value kind of each column, read back from its SQL type.
pub fn column_kinds(columns: &Vec<CsvColumn>) -> (r: Vec<ColKind>)
    ensures
        r@.len() == columns@.len(),
        forall|i: int| 0 <= i < r@.len() ==> #[trigger] r@[i] == spec_kind_of_sql_type(columns@[i].sql_type@),
{
    let mut out: Vec<ColKind> = Vec::new();
    let mut i: usize = 0;
    while i < columns.len()
        invariant
            i <= columns@.len(),
            out@.len() == i,
            forall|k: int| 0 <= k < i ==> #[trigger] out@[k] == spec_kind_of_sql_type(columns@[k].sql_type@),
        decreases columns@.len() - i,
    {
        out.push(kind_of_sql_type(columns[i].sql_type.as_str()));
        i += 1;
    }
    out
}

pub open spec fn spec_qualified(schema: Seq<char>, table: Seq<char>) -> Seq<char> {
    spec_quote_ident(schema) + seq!['.'] + spec_quote_ident(table)
}

/// `[schema].[table]`.
pub fn qualified_table(schema: &str, table: &str) -> (r: String)
    ensures
        r@ == spec_qualified(schema@, table@),
{
    let mut v = chars_of(quote_ident(schema).as_str());
    v.push('.');
    extend_str(&mut v, quote_ident(table).as_str());
    string_of(v.as_slice())
}

/// `USE [database]`.
pub fn use_sql(database: &str) -> (r: String)
    ensures
        r@ == "USE "@ + spec_quote_ident(database@),
{
    crate::text::concat("USE ", quote_ident(database).as_str())
}

/// `DROP TABLE IF EXISTS <table>`.
pub fn drop_table_sql(fq: &str) -> (r: String)
    ensures
        r@ == "DROP TABLE IF EXISTS "@ + fq@,
{
    crate::text::concat("DROP TABLE IF EXISTS ", fq)
}

pub open spec fn spec_column_def(c: CsvColumnSpec) -> Seq<char> {
    spec_quote_ident(c.name) + seq![' '] + c.sql_type + " NULL"@
}

pub open spec fn spec_create_table_sql(fq: Seq<char>, columns: Seq<CsvColumnSpec>) -> Seq<char> {
    "CREATE TABLE "@ + fq + " (\n  "@ + join_with(columns.map_values(|c: CsvColumnSpec| spec_column_def(c)), ",\n  "@)
        + "\n)"@
}

/// The table a file is loaded into: every column nullable.
pub fn create_table_sql(fq: &str, columns: &Vec<CsvColumn>) -> (r: String)
    ensures
        r@ == spec_create_table_sql(fq@, columns@.map_values(|c: CsvColumn| c@)),
{
    let ghost cv = columns@.map_values(|c: CsvColumn| c@);
    let mut defs: Vec<String> = Vec::new();
    let mut i: usize = 0;
    while i < columns.len()
        invariant
            i <= columns@.len(),
            cv == columns@.map_values(|c: CsvColumn| c@),
            defs@.map_values(|d: String| d@) == cv.take(i as int).map_values(|c: CsvColumnSpec| spec_column_def(c)),
        decreases columns@.len() - i,
    {
        let mut v = chars_of(quote_ident(columns[i].name.as_str()).as_str());
        v.push(' ');
        extend_str(&mut v, columns[i].sql_type.as_str());
        extend_str(&mut v, " NULL");
        let ghost before = defs@.map_values(|d: String| d@);
        assert(cv[i as int] == columns@[i as int]@);
        assert(v@ =~= spec_column_def(cv[i as int]));
        defs.push(string_of(v.as_slice()));
        assert(defs@.map_values(|d: String| d@) =~= before.push(spec_column_def(cv[i as int])));
        assert(cv.take(i + 1).map_values(|c: CsvColumnSpec| spec_column_def(c)) =~= cv.take(i as int).map_values(
            |c: CsvColumnSpec| spec_column_def(c),
        ).push(spec_column_def(cv[i as int])));
        i += 1;
    }
    assert(cv.take(columns@.len() as int) =~= cv);
    let mut v: Vec<char> = Vec::new();
    extend_str(&mut v, "CREATE TABLE ");
    extend_str(&mut v, fq);
    extend_str(&mut v, " (\n  ");
    push_joined(&mut v, &defs, ",\n  ");
    extend_str(&mut v, "\n)");
    string_of(v.as_slice())
}

/// The error when the table cannot be created (`cause` is the server's
/// message).
pub fn create_table_error(fq: &str, table: &str, cause: &str) -> (r: AppError)
    ensures
        is_runtime_error(
            r,
            "cannot create table "@ + fq@ + " for "@ + table@ + ": "@ + cause@,
            Some("Does the table already exist? Enable 'Replace existing tables' to overwrite."@),
        ),
{
    let mut v: Vec<char> = Vec::new();
    extend_str(&mut v, "cannot create table ");
    extend_str(&mut v, fq);
    extend_str(&mut v, " for ");
    extend_str(&mut v, table);
    extend_str(&mut v, ": ");
    extend_str(&mut v, cause);
    AppError::runtime(
        string_of(v.as_slice()),
        Some(owned("Does the table already exist? Enable 'Replace existing tables' to overwrite.")),
    )
}

/// The first UTF-8 byte of a character.
pub open spec fn utf8_lead(c: char) -> u8 {
    let n = c as u32;
    if n < 0x80 {
        n as u8
    } else if n < 0x800 {
        (0xC0 + n / 64) as u8
    } else if n < 0x10000 {
        (0xE0 + n / 4096) as u8
    } else {
        (0xF0 + n / 262144) as u8
    }
}

/// The delimiter byte of an import: the first byte of its text, `,` when
/// the text is empty.
pub open spec fn spec_import_delimiter(d: Seq<char>) -> u8 {
    if d.len() == 0 {
        44
    } else {
        utf8_lead(d[0])
    }
}

pub fn import_delimiter(d: &str) -> (r: u8)
    ensures
        r == spec_import_delimiter(d@),
{
    let v = chars_of(d);
    if v.len() == 0 {
        return 44;
    }
    let n = v[0] as u32;
    if n < 0x80 {
        n as u8
    } else if n < 0x800 {
        (0xC0 + n / 64) as u8
    } else if n < 0x10000 {
        (0xE0 + n / 4096) as u8
    } else {
        (0xF0 + n / 262144) as u8
    }
}

/// `(v1, v2, ...)`: one row of literals.
pub fn row_tuple(values: &Vec<String>) -> (r: String)
    ensures
        r@ == seq!['('] + join_with(values@.map_values(|v: String| v@), ", "@) + seq![')'],
{
    let mut v: Vec<char> = Vec::new();
    v.push('(');
    push_joined(&mut v, values, ", ");
    v.push(')');
    string_of(v.as_slice())
}

/// The bracketed column names, comma-separated.
pub fn column_list(columns: &Vec<CsvColumn>) -> (r: String)
    ensures
        r@ == join_with(columns@.map_values(|c: CsvColumn| spec_quote_ident(c.name@)), ", "@),
{
    let mut names: Vec<String> = Vec::new();
    let mut i: usize = 0;
    while i < columns.len()
        invariant
            i <= columns@.len(),
            names@.map_values(|n: String| n@) == columns@.take(i as int).map_values(|c: CsvColumn| spec_quote_ident(c.name@)),
        decreases columns@.len() - i,
    {
        let ghost before = names@.map_values(|n: String| n@);
        names.push(quote_ident(columns[i].name.as_str()));
        assert(names@.map_values(|n: String| n@) =~= before.push(spec_quote_ident(columns@[i as int].name@)));
        assert(columns@.take(i + 1).map_values(|c: CsvColumn| spec_quote_ident(c.name@)) =~= columns@.take(i as int).map_values(
            |c: CsvColumn| spec_quote_ident(c.name@),
        ).push(spec_quote_ident(columns@[i as int].name@)));
        i += 1;
    }
    assert(columns@.take(columns@.len() as int) =~= columns@);
    let mut v: Vec<char> = Vec::new();
    push_joined(&mut v, &names, ", ");
    string_of(v.as_slice())
}

pub open spec fn spec_insert_sql(fq: Seq<char>, col_list: Seq<char>, rows: Seq<Seq<char>>) -> Seq<char> {
    "INSERT INTO "@ + fq + " ("@ + col_list + ") VALUES "@ + join_with(rows, ","@)
}

/// Collects row tuples into multi-row `INSERT`s of at most `INSERT_BATCH`
/// rows, counting the rows handed out.
pub struct InsertBatcher {
    fq: String,
    col_list: String,
    pending: Vec<String>,
    rows_done: u64,
}

impl InsertBatcher {
    pub closed spec fn spec_fq(&self) -> Seq<char> {
        self.fq@
    }

    pub closed spec fn spec_col_list(&self) -> Seq<char> {
        self.col_list@
    }

    /// The rows not yet handed out.
    pub closed spec fn spec_pending(&self) -> Seq<Seq<char>> {
        self.pending@.map_values(|p: String| p@)
    }

    /// The rows handed out so far.
    pub closed spec fn spec_rows_done(&self) -> nat {
        self.rows_done as nat
    }

    /// Fewer than a batch is ever pending.
    pub closed spec fn wf(&self) -> bool {
        self.pending@.len() < INSERT_BATCH
    }

    pub fn new(fq: String, col_list: String) -> (r: Self)
        ensures
            r.wf(),
            r.spec_fq() == fq@,
            r.spec_col_list() == col_list@,
            r.spec_pending().len() == 0,
            r.spec_rows_done() == 0,
    {
        InsertBatcher { fq, col_list, pending: Vec::new(), rows_done: 0 }
    }

    fn flush(&mut self) -> (r: String)
        requires
            old(self).rows_done + old(self).pending@.len() <= u64::MAX,
            old(self).pending@.len() <= INSERT_BATCH,
        ensures
            r@ == spec_insert_sql(old(self).fq@, old(self).col_list@, old(self).spec_pending()),
            final(self).pending@.len() == 0,
            final(self).rows_done == old(self).rows_done + old(self).pending@.len(),
            final(self).fq == old(self).fq,
            final(self).col_list == old(self).col_list,
    {
        let mut v: Vec<char> = Vec::new();
        extend_str(&mut v, "INSERT INTO ");
        extend_str(&mut v, self.fq.as_str());
        extend_str(&mut v, " (");
        extend_str(&mut v, self.col_list.as_str());
        extend_str(&mut v, ") VALUES ");
        push_joined(&mut v, &self.pending, ",");
        self.rows_done = self.rows_done + self.pending.len() as u64;
        self.pending = Vec::new();
        string_of(v.as_slice())
    }

    /// Adds a row; hands out an `INSERT` once a batch is full.
    pub fn push(&mut self, tuple: String) -> (r: Option<String>)
        requires
            old(self).wf(),
            old(self).spec_rows_done() + INSERT_BATCH <= u64::MAX,
        ensures
            final(self).wf(),
            final(self).spec_fq() == old(self).spec_fq(),
            final(self).spec_col_list() == old(self).spec_col_list(),
            match r {
                Some(sql) => old(self).spec_pending().len() + 1 == INSERT_BATCH && sql@ == spec_insert_sql(
                    old(self).spec_fq(),
                    old(self).spec_col_list(),
                    old(self).spec_pending().push(tuple@),
                ) && final(self).spec_pending().len() == 0 && final(self).spec_rows_done() == old(self).spec_rows_done()
                    + INSERT_BATCH,
                None => old(self).spec_pending().len() + 1 < INSERT_BATCH && final(self).spec_pending()
                    == old(self).spec_pending().push(tuple@) && final(self).spec_rows_done() == old(self).spec_rows_done(),
            },
    {
        let ghost before = self.spec_pending();
        self.pending.push(tuple);
        assert(self.spec_pending() =~= before.push(tuple@));
        if self.pending.len() >= INSERT_BATCH {
            Some(self.flush())
        } else {
            None
        }
    }

    /// Hands out the last, partial batch, if any rows are pending.
    pub fn finish(&mut self) -> (r: Option<String>)
        requires
            old(self).wf(),
            old(self).spec_rows_done() + INSERT_BATCH <= u64::MAX,
        ensures
            final(self).wf(),
            final(self).spec_pending().len() == 0,
            final(self).spec_rows_done() == old(self).spec_rows_done() + old(self).spec_pending().len(),
            match r {
                Some(sql) => old(self).spec_pending().len() > 0 && sql@ == spec_insert_sql(
                    old(self).spec_fq(),
                    old(self).spec_col_list(),
                    old(self).spec_pending(),
                ),
                None => old(self).spec_pending().len() == 0,
            },
    {
        if self.pending.len() > 0 {
            Some(self.flush())
        } else {
            None
        }
    }

    /// Rows handed out so far.
    pub fn rows_done(&self) -> (r: u64)
        ensures
            r == self.spec_rows_done(),
    {
        self.rows_done
    }
}

/// The summary line of one imported file.
pub fn import_summary(fq: &str, rows_done: u64) -> (r: String)
    ensures
        r@ == fq@ + ": "@ + dec_digits(rows_done as nat) + " rows"@,
{
    let mut v = chars_of(fq);
    extend_str(&mut v, ": ");
    let d = u64_dec(rows_done);
    extend_chars(&mut v, d.as_slice());
    extend_str(&mut v, " rows");
    string_of(v.as_slice())
}


/// What the `csv` crate reads from `text` (records of any length, the
/// first line skipped as a header when `has_headers`): the records before
/// the first one that fails to read, and that failure's message, if any.
pub uninterp spec fn csv_read_prefix(text: Seq<char>, delimiter: u8, has_headers: bool) -> (Seq<Seq<Seq<char>>>, Option<Seq<char>>);

pub open spec fn text_view(o: Option<String>) -> Option<Seq<char>> {
    match o {
        Some(t) => Some(t@),
        None => None,
    }
}

/// Reads records with `csv::ReaderBuilder` (flexible) from `text` until the
/// first failure; the failure's text comes along.
#[verifier::external_body]
fn read_all_records(text: &str, delimiter: u8, has_headers: bool) -> (r: (Vec<Vec<String>>, Option<String>))
    ensures
        csv_read_prefix(text@, delimiter, has_headers) == (table_view(r.0@), text_view(r.1)),
{
    let mut reader = csv::ReaderBuilder::new().delimiter(delimiter).has_headers(has_headers)
        .flexible(true).from_reader(text.as_bytes());
    let mut rows = Vec::new();
    for rec in reader.records() {
        match rec {
            Ok(rec) => rows.push(rec.iter().map(|f| f.to_string()).collect()),
            Err(e) => return (rows, Some(e.to_string())),
        }
    }
    (rows, None)
}

/// How a value goes into the `INSERT`: its SQL literal, or, in a FLOAT
/// column, the trimmed value, whose literal is its floating-point
/// rendering (made where floating point is at hand).
pub enum ImportValue {
    Literal(String),
    Float(String),
}

pub ghost enum ImportValueSpec {
    Literal(Seq<char>),
    Float(Seq<char>),
}

impl View for ImportValue {
    type V = ImportValueSpec;

    open spec fn view(&self) -> ImportValueSpec {
        match self {
            ImportValue::Literal(s) => ImportValueSpec::Literal(s@),
            ImportValue::Float(s) => ImportValueSpec::Float(s@),
        }
    }
}

pub open spec fn values_view(v: Seq<ImportValue>) -> Seq<ImportValueSpec> {
    v.map_values(|x: ImportValue| x@)
}

/// The cell of a record in column `j`; empty when the record is shorter.
pub open spec fn cell_or_blank(row: Seq<Seq<char>>, j: int) -> Seq<char> {
    if 0 <= j < row.len() {
        row[j]
    } else {
        Seq::empty()
    }
}

/// How a value goes into a column of `kind`; `None` when it does not fit.
pub open spec fn spec_import_value(v: Seq<char>, kind: ColKind) -> Option<ImportValueSpec> {
    if kind == ColKind::Float {
        if trim(v).len() == 0 {
            Some(ImportValueSpec::Literal("NULL"@))
        } else {
            Some(ImportValueSpec::Float(trim(v)))
        }
    } else {
        match spec_literal(v, kind) {
            Some(l) => Some(ImportValueSpec::Literal(l)),
            None => None,
        }
    }
}

/// Every value of a record fits its column.
pub open spec fn row_fits(row: Seq<Seq<char>>, kinds: Seq<ColKind>) -> bool {
    forall|j: int| 0 <= j < kinds.len() ==> (#[trigger] spec_import_value(cell_or_blank(row, j), kinds[j])) is Some
}

/// `out` holds how each value of a record goes into its column.
pub open spec fn row_values(out: Seq<ImportValueSpec>, row: Seq<Seq<char>>, kinds: Seq<ColKind>) -> bool {
    &&& out.len() == kinds.len()
    &&& forall|j: int| 0 <= j < kinds.len() ==> Some(#[trigger] out[j]) == spec_import_value(cell_or_blank(row, j), kinds[j])
}

/// Each of `outs` holds how the values of the record at its position go
/// into the columns.
pub open spec fn rows_ok(outs: Seq<Seq<ImportValueSpec>>, rows: Seq<Seq<Seq<char>>>, kinds: Seq<ColKind>) -> bool {
    forall|x: int| 0 <= x < outs.len() ==> row_fits(rows[x], kinds) && row_values(#[trigger] outs[x], rows[x], kinds)
}

proof fn lemma_rows_ok_push(outs: Seq<Seq<ImportValueSpec>>, v: Seq<ImportValueSpec>, rows: Seq<Seq<Seq<char>>>, kinds: Seq<ColKind>)
    requires
        rows_ok(outs, rows, kinds),
        row_fits(rows[outs.len() as int], kinds),
        row_values(v, rows[outs.len() as int], kinds),
    ensures
        rows_ok(outs.push(v), rows, kinds),
{
    let o = outs.push(v);
    assert forall|x: int| 0 <= x < o.len() implies row_fits(rows[x], kinds) && row_values(#[trigger] o[x], rows[x], kinds) by {
        if x < outs.len() {
            assert(o[x] == outs[x]);
        }
    }
}

pub open spec fn rows_view(v: Seq<Vec<ImportValue>>) -> Seq<Seq<ImportValueSpec>> {
    v.map_values(|r: Vec<ImportValue>| values_view(r@))
}

pub open spec fn kinds_of(columns: Seq<CsvColumn>) -> Seq<ColKind> {
    columns.map_values(|c: CsvColumn| spec_kind_of_sql_type(c.sql_type@))
}

/// The first column whose value from `row` does not fit, from `j` on
/// (`kinds.len()` when all fit).
pub open spec fn first_unfit(row: Seq<Seq<char>>, kinds: Seq<ColKind>, j: int) -> int
    decreases kinds.len() - j,
{
    if j >= kinds.len() {
        kinds.len() as int
    } else if spec_import_value(cell_or_blank(row, j), kinds[j]) is None {
        j
    } else {
        first_unfit(row, kinds, j + 1)
    }
}

/// `e` reports the first value of record `row_no` (counted from 1) that
/// does not fit its column.
pub open spec fn value_error(e: AppError, row: Seq<Seq<char>>, kinds: Seq<ColKind>, columns: Seq<CsvColumn>, file: Seq<char>, row_no: nat) -> bool {
    let j = first_unfit(row, kinds, 0);
    &&& 0 <= j < kinds.len()
    &&& is_runtime_error(
        e,
        literal_error_message(file, row_no, columns[j].name@, trim(cell_or_blank(row, j)), literal_want(kinds[j])),
        Some(LITERAL_HINT@),
    )
}

proof fn lemma_first_unfit_skip(row: Seq<Seq<char>>, kinds: Seq<ColKind>, a: int, j: int)
    requires
        0 <= a <= j <= kinds.len(),
        forall|x: int| a <= x < j ==> (#[trigger] spec_import_value(cell_or_blank(row, x), kinds[x])) is Some,
    ensures
        first_unfit(row, kinds, a) == first_unfit(row, kinds, j),
    decreases j - a,
{
    if a < j {
        lemma_first_unfit_skip(row, kinds, a + 1, j);
    }
}

fn import_row(
    row: &Vec<String>,
    kinds: &Vec<ColKind>,
    columns: &Vec<CsvColumn>,
    file: &str,
    row_no: usize,
) -> (r: Result<Vec<ImportValue>, AppError>)
    requires
        kinds@.len() == columns@.len(),
    ensures
        match r {
            Ok(out) => row_fits(row@.map_values(|c: String| c@), kinds@) && row_values(values_view(out@), row@.map_values(|c: String| c@), kinds@),
            Err(e) => !row_fits(row@.map_values(|c: String| c@), kinds@) && value_error(e, row@.map_values(|c: String| c@), kinds@, columns@, file@, row_no as nat),
        },
{
    let ghost rv = row@.map_values(|c: String| c@);
    let mut out: Vec<ImportValue> = Vec::new();
    let mut j: usize = 0;
    while j < kinds.len()
        invariant
            j <= kinds@.len() == columns@.len(),
            rv == row@.map_values(|c: String| c@),
            out@.len() == j,
            forall|x: int| 0 <= x < j ==> (#[trigger] spec_import_value(cell_or_blank(rv, x), kinds@[x])) is Some
                && Some(values_view(out@)[x]) == spec_import_value(cell_or_blank(rv, x), kinds@[x]),
        decreases kinds@.len() - j,
    {
        let v: &str = if j < row.len() {
            row[j].as_str()
        } else {
            ""
        };
        proof {
            reveal_strlit("");
        }
        assert(v@ == cell_or_blank(rv, j as int));
        let kind = kinds[j];
        let value = if kind == ColKind::Float {
            let c = chars_of(v);
            let (lo, hi) = trim_bounds(c.as_slice(), 0, c.len());
            assert(c@.subrange(0, c@.len() as int) =~= c@);
            if lo == hi {
                proof {
                    reveal_strlit("NULL");
                }
                ImportValue::Literal(owned("NULL"))
            } else {
                ImportValue::Float(string_of(&c.as_slice()[lo..hi]))
            }
        } else {
            match literal(v, kind, file, row_no, columns[j].name.as_str()) {
                Ok(l) => ImportValue::Literal(l),
                Err(e) => {
                    assert(spec_import_value(cell_or_blank(rv, j as int), kinds@[j as int]) is None);
                    proof {
                        lemma_first_unfit_skip(rv, kinds@, 0, j as int);
                    }
                    assert(first_unfit(rv, kinds@, 0) == j);
                    return Err(e);
                },
            }
        };
        let ghost before = out@;
        out.push(value);
        assert(values_view(out@) =~= values_view(before).push(value@));
        j += 1;
    }
    assert(values_view(out@).len() == kinds@.len());
    Ok(out)
}

/// How every record of a CSV text goes into the columns, read in order:
/// the rows before the first record that fails to read or holds a value
/// that does not fit its column, and the error that stopped it (a value's
/// error before a read error). Missing cells count as empty.
pub fn import_rows(
    text: &str,
    delimiter: u8,
    has_header: bool,
    file: &str,
    columns: &Vec<CsvColumn>,
) -> (r: (Vec<Vec<ImportValue>>, Option<AppError>))
    ensures
        ({
            let (rows, failed) = csv_read_prefix(text@, delimiter, has_header);
            let kinds = kinds_of(columns@);
            let n = r.0@.len();
            &&& n <= rows.len()
            &&& rows_ok(rows_view(r.0@), rows, kinds)
            &&& if n < rows.len() {
                &&& !row_fits(rows[n as int], kinds)
                &&& r.1 matches Some(e) && value_error(e, rows[n as int], kinds, columns@, file@, n + 1)
            } else {
                match failed {
                    Some(m) => r.1 matches Some(e) && is_runtime_error(e, file@ + ": "@ + m, None),
                    None => r.1 is None,
                }
            }
        }),
{
    let (rows, failure) = read_all_records(text, delimiter, has_header);
    let ghost tv = table_view(rows@);
    assert(csv_read_prefix(text@, delimiter, has_header).0 == tv);
    assert(csv_read_prefix(text@, delimiter, has_header).1 == text_view(failure));
    let kinds = column_kinds(columns);
    assert(kinds@ =~= kinds_of(columns@));
    let mut out: Vec<Vec<ImportValue>> = Vec::new();
    let mut i: usize = 0;
    while i < rows.len()
        invariant
            i <= rows@.len(),
            tv == table_view(rows@),
            kinds@ == kinds_of(columns@),
            kinds@.len() == columns@.len(),
            out@.len() == i,
            rows_ok(rows_view(out@), tv, kinds@),
            csv_read_prefix(text@, delimiter, has_header).0 == tv,
            csv_read_prefix(text@, delimiter, has_header).1 == text_view(failure),
        decreases rows@.len() - i,
    {
        assert(rows@[i as int]@.map_values(|c: String| c@) == tv[i as int]);
        let res = import_row(&rows[i], &kinds, columns, file, i + 1);
        if res.is_err() {
            let e = match res {
                Err(e) => e,
                Ok(_) => {
                    proof {
                        assert(false);
                    }
                    return (out, None);
                },
            };
            assert(!row_fits(tv[i as int], kinds@));
            assert(out@.len() == i);
            assert(i < csv_read_prefix(text@, delimiter, has_header).0.len());
            assert(!row_fits(csv_read_prefix(text@, delimiter, has_header).0[i as int], kinds_of(columns@)));
            return (out, Some(e));
        }
        let vals = match res {
            Ok(v) => v,
            Err(_) => {
                proof {
                    assert(false);
                }
                return (out, None);
            },
        };
        let ghost before = rows_view(out@);
        let ghost vv = values_view(vals@);
        assert(row_fits(tv[i as int], kinds@));
        assert(row_values(vv, tv[i as int], kinds@));
        out.push(vals);
        assert(rows_view(out@) =~= before.push(vv));
        proof {
            lemma_rows_ok_push(before, vv, tv, kinds@);
        }
        i += 1;
    }
    match failure {
        Some(t) => {
            let mut m = chars_of(file);
            extend_str(&mut m, ": ");
            extend_str(&mut m, t.as_str());
            proof {
                reveal_strlit(": ");
            }
            assert(m@ =~= file@ + ": "@ + t@);
            (out, Some(AppError::runtime(string_of(m.as_slice()), None)))
        },
        None => (out, None),
    }
}

} // verus!
