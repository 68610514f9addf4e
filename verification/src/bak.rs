//! `.bak` restore and backup: staging a file in the container, reading its
//! backup sets and logical files, and the `RESTORE`/`BACKUP` statements.
//! The copying and the queries run elsewhere; this module names the files,
//! writes the statements and reads the answers (each cell as its display
//! text).

use crate::csvimport::infer::{int_text_value, is_ident_char, parse_i32};
use crate::csvimport::inspect::table_view;
use crate::error::{is_runtime_error, AppError};
use crate::instances::model::{is_lower_hex, new_uuid_simple};
use crate::runtime::apple::before_char;
use crate::sql::meta::{quote_ident, spec_quote_ident};
use crate::text::{
    chars_of, dec_int, double_char, extend_chars, extend_str, i64_dec, join_with, owned, push_doubled, push_joined,
    str_eq, string_of,
};
use vstd::prelude::*;

verus! {

pub const BACKUP_DIR: &'static str = "/var/opt/mssql/backup";

/// Where restored database files go inside the container.
pub const DATA_DIR: &'static str = "/var/opt/mssql/data";

pub struct BakFile {
    pub logical_name: String,
    pub physical_name: String,
    pub file_type: String,
    /// Suggested in-container restore target.
    pub suggested_target: String,
}

pub struct BackupSet {
    pub file_number: i32,
    pub database_name: String,
    pub backup_type: String,
    pub finish_date: String,
    pub software_version_major: i32,
    pub files: Vec<BakFile>,
    pub has_filestream: bool,
}

pub struct StagedBak {
    pub staged_path: String,
    pub server_version_major: i32,
    pub sets: Vec<BackupSet>,
}

pub struct RestorePlan {
    pub staged_path: String,
    pub file_number: i32,
    pub database_name: String,
    pub moves: Vec<MoveSpec>,
    pub replace: bool,
}

pub struct MoveSpec {
    pub logical_name: String,
    pub target: String,
}

/// `N'...'` with `'` doubled.
pub open spec fn spec_quote_str(s: Seq<char>) -> Seq<char> {
    "N'"@ + double_char(s, '\'') + "'"@
}

/// Distinct texts quote to distinct literals: an `N'...'` literal always
/// stands for exactly the text it was made from.
pub proof fn lemma_quote_str_injective(a: Seq<char>, b: Seq<char>)
    requires
        spec_quote_str(a) == spec_quote_str(b),
    ensures
        a == b,
{
    reveal_strlit("N'");
    reveal_strlit("'");
    let q = spec_quote_str(a);
    assert(double_char(a, '\'') =~= q.subrange(2, q.len() - 1));
    assert(double_char(b, '\'') =~= q.subrange(2, q.len() - 1));
    crate::text::lemma_double_char_injective(a, b, '\'');
}

fn push_quoted_str(out: &mut Vec<char>, s: &str)
    ensures
        final(out)@ == old(out)@ + spec_quote_str(s@),
{
    extend_str(out, "N'");
    push_doubled(out, s, '\'');
    extend_str(out, "'");
}

/// A Unicode SQL string literal.
pub fn quote_str(s: &str) -> (r: String)
    ensures
        r@ == spec_quote_str(s@),
{
    let mut v: Vec<char> = Vec::new();
    push_quoted_str(&mut v, s);
    string_of(v.as_slice())
}

/// A name made safe for a file name: every character other than ASCII
/// letters, digits and `_` becomes `_`.
pub open spec fn spec_fs_fragment(name: Seq<char>) -> Seq<char> {
    name.map_values(|c: char| if is_ident_char(c) { c } else { '_' })
}

fn push_fs_fragment(out: &mut Vec<char>, name: &str)
    ensures
        final(out)@ == old(out)@ + spec_fs_fragment(name@),
{
    let v = chars_of(name);
    let mut i: usize = 0;
    while i < v.len()
        invariant
            i <= v@.len(),
            v@ == name@,
            out@ == old(out)@ + spec_fs_fragment(v@.take(i as int)),
        decreases v@.len() - i,
    {
        let c = v[i];
        let keep = ('a' <= c && c <= 'z') || ('A' <= c && c <= 'Z') || ('0' <= c && c <= '9') || c == '_';
        if keep {
            out.push(c);
        } else {
            out.push('_');
        }
        assert(spec_fs_fragment(v@.take(i + 1)) =~= spec_fs_fragment(v@.take(i as int)).push(
            if is_ident_char(c) { c } else { '_' },
        ));
        i += 1;
    }
    assert(v@.take(v@.len() as int) =~= v@);
}

pub fn fs_fragment(name: &str) -> (r: String)
    ensures
        r@ == spec_fs_fragment(name@),
{
    let mut v: Vec<char> = Vec::new();
    push_fs_fragment(&mut v, name);
    string_of(v.as_slice())
}

/// A fresh random file name under the backup directory:
/// `<dir>/<prefix><32 hex digits>.bak`.
pub open spec fn is_fresh_bak_path(p: Seq<char>, prefix: Seq<char>) -> bool {
    let head = BACKUP_DIR@ + seq!['/'] + prefix;
    &&& p.len() == head.len() + 36
    &&& p.take(head.len() as int) == head
    &&& forall|i: int| head.len() <= i < head.len() + 32 ==> is_lower_hex(#[trigger] p[i])
    &&& p.skip(head.len() + 32int) == ".bak"@
}

fn fresh_bak_path(prefix: &str) -> (r: String)
    ensures
        is_fresh_bak_path(r@, prefix@),
{
    let u = chars_of(new_uuid_simple().as_str());
    let mut v: Vec<char> = Vec::new();
    extend_str(&mut v, BACKUP_DIR);
    v.push('/');
    extend_str(&mut v, prefix);
    let ghost head = v@;
    extend_chars(&mut v, u.as_slice());
    extend_str(&mut v, ".bak");
    proof {
        reveal_strlit(".bak");
        assert(head =~= BACKUP_DIR@ + seq!['/'] + prefix@);
        assert(u@.len() == 32);
        assert(v@.len() == head.len() + 36);
        assert(v@.take(head.len() as int) =~= head);
        assert(v@.skip(head.len() + 32int) =~= ".bak"@);
        assert forall|i: int| head.len() <= i < head.len() + 32 implies is_lower_hex(#[trigger] v@[i]) by {
            assert(v@[i] == u@[i - head.len()]);
        }
    }
    string_of(v.as_slice())
}

/// Where an uploaded `.bak` is staged inside the container.
pub fn new_staged_path() -> (r: String)
    ensures
        is_fresh_bak_path(r@, "staged-"@),
{
    fresh_bak_path("staged-")
}

/// Where a backup is written inside the container before it is copied out.
pub fn new_export_path() -> (r: String)
    ensures
        is_fresh_bak_path(r@, "export-"@),
{
    fresh_bak_path("export-")
}

/// A job id: the prefix, `-`, and 32 random hex digits.
pub fn new_job_id(prefix: &str) -> (r: String)
    ensures
        r@.len() == prefix@.len() + 33,
        r@.take(prefix@.len() + 1int) == prefix@ + seq!['-'],
        forall|i: int| prefix@.len() + 1 <= i < r@.len() ==> is_lower_hex(#[trigger] r@[i]),
{
    let u = chars_of(new_uuid_simple().as_str());
    let mut v = chars_of(prefix);
    v.push('-');
    let ghost head = v@;
    extend_chars(&mut v, u.as_slice());
    assert(v@.take(prefix@.len() + 1int) =~= head);
    assert forall|i: int| prefix@.len() + 1 <= i < v@.len() implies is_lower_hex(#[trigger] v@[i]) by {
        assert(v@[i] == u@[i - head.len()]);
    }
    string_of(v.as_slice())
}

/// The major version from `SERVERPROPERTY('ProductVersion')` (`16.0.4135.4`
/// gives 16); 0 when it does not parse.
pub open spec fn spec_version_major(version: Seq<char>) -> i32 {
    match int_text_value(before_char(version, '.')) {
        Some(v) => if i32::MIN <= v <= i32::MAX {
            v as i32
        } else {
            0
        },
        None => 0,
    }
}

pub fn server_version_major(version: &str) -> (r: i32)
    ensures
        r == spec_version_major(version@),
{
    let head = crate::runtime::apple::before_char_of(version, '.');
    match parse_i32(head.as_str()) {
        Some(v) => v,
        None => 0,
    }
}

pub open spec fn spec_header_sql(staged_path: Seq<char>) -> Seq<char> {
    "RESTORE HEADERONLY FROM DISK = "@ + spec_quote_str(staged_path)
}

/// The query listing the backup sets in a staged file.
pub fn header_sql(staged_path: &str) -> (r: String)
    ensures
        r@ == spec_header_sql(staged_path@),
{
    let mut v: Vec<char> = Vec::new();
    extend_str(&mut v, "RESTORE HEADERONLY FROM DISK = ");
    push_quoted_str(&mut v, staged_path);
    string_of(v.as_slice())
}

pub open spec fn spec_filelist_sql(staged_path: Seq<char>, file_number: i32) -> Seq<char> {
    "RESTORE FILELISTONLY FROM DISK = "@ + spec_quote_str(staged_path) + " WITH FILE = "@ + dec_int(file_number as int)
}

/// The query listing the logical files of one backup set.
pub fn filelist_sql(staged_path: &str, file_number: i32) -> (r: String)
    ensures
        r@ == spec_filelist_sql(staged_path@, file_number),
{
    let mut v: Vec<char> = Vec::new();
    extend_str(&mut v, "RESTORE FILELISTONLY FROM DISK = ");
    push_quoted_str(&mut v, staged_path);
    extend_str(&mut v, " WITH FILE = ");
    let d = i64_dec(file_number as i64);
    extend_chars(&mut v, d.as_slice());
    string_of(v.as_slice())
}

/// The error when the staged file lists no backup set.
pub fn not_a_backup_error() -> (r: AppError)
    ensures
        is_runtime_error(
            r,
            "This file doesn't look like a SQL Server backup (RESTORE HEADERONLY returned nothing)"@,
            None,
        ),
{
    AppError::runtime(owned("This file doesn't look like a SQL Server backup (RESTORE HEADERONLY returned nothing)"), None)
}

/// Position of the first column with this name.
pub open spec fn column_pos(cols: Seq<Seq<char>>, name: Seq<char>) -> Option<int> {
    if exists|i: int| 0 <= i < cols.len() && cols[i] == name {
        Some(choose|i: int| 0 <= i < cols.len() && cols[i] == name && forall|j: int| 0 <= j < i ==> cols[j] != name)
    } else {
        None
    }
}

pub fn column_index(cols: &Vec<String>, name: &str) -> (r: Option<usize>)
    ensures
        match r {
            Some(i) => i < cols@.len() && cols@[i as int]@ == name@ && forall|j: int|
                0 <= j < i ==> (#[trigger] cols@[j])@ != name@,
            None => forall|j: int| 0 <= j < cols@.len() ==> (#[trigger] cols@[j])@ != name@,
        },
{
    let mut i: usize = 0;
    while i < cols.len()
        invariant
            i <= cols@.len(),
            forall|j: int| 0 <= j < i ==> (#[trigger] cols@[j])@ != name@,
        decreases cols@.len() - i,
    {
        if str_eq(cols[i].as_str(), name) {
            return Some(i);
        }
        i += 1;
    }
    None
}

/// The cell of a row at an optional column position, empty when absent.
pub open spec fn cell_or_empty(row: Seq<Seq<char>>, i: Option<int>) -> Seq<char> {
    match i {
        Some(k) => if 0 <= k < row.len() {
            row[k]
        } else {
            Seq::empty()
        },
        None => Seq::empty(),
    }
}

fn cell_text(row: &Vec<String>, i: Option<usize>) -> (r: String)
    ensures
        r@ == cell_or_empty(row@.map_values(|c: String| c@), match i {
            Some(k) => Some(k as int),
            None => None,
        }),
{
    match i {
        Some(k) => if k < row.len() {
            owned(row[k].as_str())
        } else {
            String::new()
        },
        None => String::new(),
    }
}

/// The label of a `BackupType` code.
pub open spec fn spec_backup_type_label(code: Seq<char>) -> Seq<char> {
    if code == "1"@ {
        "Full"@
    } else if code == "5"@ {
        "Differential"@
    } else if code == "2"@ {
        "Log"@
    } else {
        "Type "@ + code
    }
}

pub fn backup_type_label(code: &str) -> (r: String)
    ensures
        r@ == spec_backup_type_label(code@),
{
    if str_eq(code, "1") {
        owned("Full")
    } else if str_eq(code, "5") {
        owned("Differential")
    } else if str_eq(code, "2") {
        owned("Log")
    } else {
        crate::text::concat("Type ", code)
    }
}

/// An `i32` cell, or a default when it does not parse.
pub open spec fn i32_or(c: Seq<char>, default: i32) -> i32 {
    match int_text_value(c) {
        Some(v) => if i32::MIN <= v <= i32::MAX {
            v as i32
        } else {
            default
        },
        None => default,
    }
}

fn parse_i32_or(c: &str, default: i32) -> (r: i32)
    ensures
        r == i32_or(c@, default),
{
    match parse_i32(c) {
        Some(v) => v,
        None => default,
    }
}

/// Where a logical file is suggested to be restored to:
/// `<data dir>/<db>_<logical>.<ext>`, the log as `.ldf`, the first data file
/// as `.mdf` and every other file as `.ndf`.
pub open spec fn spec_file_ext(file_type: Seq<char>, n: int) -> Seq<char> {
    if file_type == "L"@ {
        "ldf"@
    } else if file_type == "D"@ && n == 0 {
        "mdf"@
    } else {
        "ndf"@
    }
}

pub open spec fn spec_suggested_target(database: Seq<char>, logical: Seq<char>, file_type: Seq<char>, n: int) -> Seq<char> {
    DATA_DIR@ + seq!['/'] + spec_fs_fragment(database) + seq!['_'] + spec_fs_fragment(logical) + seq!['.'] + spec_file_ext(
        file_type,
        n,
    )
}

pub ghost struct BakFileSpec {
    pub logical_name: Seq<char>,
    pub physical_name: Seq<char>,
    pub file_type: Seq<char>,
    pub suggested_target: Seq<char>,
}

impl View for BakFile {
    type V = BakFileSpec;

    open spec fn view(&self) -> BakFileSpec {
        BakFileSpec {
            logical_name: self.logical_name@,
            physical_name: self.physical_name@,
            file_type: self.file_type@,
            suggested_target: self.suggested_target@,
        }
    }
}

/// The file at position `n` of a file list, read through the column
/// positions of `LogicalName`, `PhysicalName` and `Type`.
pub open spec fn spec_bak_file(
    database: Seq<char>,
    row: Seq<Seq<char>>,
    n: int,
    ln: Option<int>,
    pn: Option<int>,
    ft: Option<int>,
) -> BakFileSpec {
    BakFileSpec {
        logical_name: cell_or_empty(row, ln),
        physical_name: cell_or_empty(row, pn),
        file_type: cell_or_empty(row, ft),
        suggested_target: spec_suggested_target(database, cell_or_empty(row, ln), cell_or_empty(row, ft), n),
    }
}

pub open spec fn opt_int(i: Option<usize>) -> Option<int> {
    match i {
        Some(k) => Some(k as int),
        None => None,
    }
}

/// The position of a backup set within the file, from its `HEADERONLY`
/// row: the `Position` column, 1 when it is missing or does not parse.
pub fn set_file_number(cols: &Vec<String>, row: &Vec<String>) -> (r: i32)
    ensures
        r == i32_or(cell_or_empty(row@.map_values(|c: String| c@), column_pos(cols@.map_values(|c: String| c@), "Position"@)), 1),
{
    let ghost cv = cols@.map_values(|c: String| c@);
    let pos_i = column_index(cols, "Position");
    proof {
        lemma_column_pos(cv, cols@, "Position"@, opt_int(pos_i));
    }
    parse_i32_or(cell_text(row, pos_i).as_str(), 1)
}

/// What staging a backup does once its header rows are read.
pub enum StageStep {
    /// No header rows: the file is no backup. Remove the staged copy with
    /// these arguments (as root) and fail with `error`.
    Discard { remove_args: Vec<String>, error: AppError },
    /// Read the logical files of the set in header row `row` with `sql`.
    FileList { row: usize, sql: String },
    /// Every set's files were read.
    Done,
}

/// The next step of reading a staged backup, `sets_read` sets in; see
/// [`StageStep`].
pub fn stage_step(staged_path: &str, cols: &Vec<String>, rows: &Vec<Vec<String>>, sets_read: usize) -> (r: StageStep)
    requires
        sets_read <= rows@.len(),
    ensures
        match r {
            StageStep::Discard { remove_args, error } => {
                &&& rows@.len() == 0
                &&& remove_args@.map_values(|a: String| a@) == seq!["rm"@, "-f"@, staged_path@]
                &&& is_runtime_error(
                    error,
                    "This file doesn't look like a SQL Server backup (RESTORE HEADERONLY returned nothing)"@,
                    None,
                )
            },
            StageStep::FileList { row, sql } => {
                &&& 0 < rows@.len()
                &&& sets_read < rows@.len()
                &&& row == sets_read
                &&& sql@ == spec_filelist_sql(
                    staged_path@,
                    i32_or(
                        cell_or_empty(
                            rows@[sets_read as int]@.map_values(|c: String| c@),
                            column_pos(cols@.map_values(|c: String| c@), "Position"@),
                        ),
                        1,
                    ),
                )
            },
            StageStep::Done => 0 < rows@.len() && sets_read == rows@.len(),
        },
{
    if rows.len() == 0 {
        let mut remove_args: Vec<String> = Vec::new();
        remove_args.push(owned("rm"));
        remove_args.push(owned("-f"));
        remove_args.push(owned(staged_path));
        assert(remove_args@.map_values(|a: String| a@) =~= seq!["rm"@, "-f"@, staged_path@]);
        return StageStep::Discard { remove_args, error: not_a_backup_error() };
    }
    if sets_read < rows.len() {
        let n = set_file_number(cols, &rows[sets_read]);
        return StageStep::FileList { row: sets_read, sql: filelist_sql(staged_path, n) };
    }
    StageStep::Done
}

/// A backup set read from its `HEADERONLY` row (through `cols`) and its
/// `FILELISTONLY` answer (`fl_cols`, `fl_rows`). Missing columns read as
/// empty; the position defaults to 1 and the version to 0 when they do not
/// parse. A set with a file of type `S` holds FILESTREAM data.
pub fn backup_set(cols: &Vec<String>, row: &Vec<String>, fl_cols: &Vec<String>, fl_rows: &Vec<Vec<String>>) -> (r: BackupSet)
    ensures
        ({
            let cv = cols@.map_values(|c: String| c@);
            let rv = row@.map_values(|c: String| c@);
            let fv = fl_cols@.map_values(|c: String| c@);
            let get = |name: Seq<char>| cell_or_empty(rv, column_pos(cv, name));
            let db = get("DatabaseName"@);
            &&& r.file_number == i32_or(get("Position"@), 1)
            &&& r.database_name@ == db
            &&& r.backup_type@ == spec_backup_type_label(get("BackupType"@))
            &&& r.finish_date@ == get("BackupFinishDate"@)
            &&& r.software_version_major == i32_or(get("SoftwareVersionMajor"@), 0)
            &&& r.files@.len() == fl_rows@.len()
            &&& forall|n: int| #![trigger r.files@[n]] 0 <= n < fl_rows@.len() ==> r.files@[n]@ == spec_bak_file(
                db,
                table_view(fl_rows@)[n],
                n,
                column_pos(fv, "LogicalName"@),
                column_pos(fv, "PhysicalName"@),
                column_pos(fv, "Type"@),
            )
            &&& r.has_filestream == exists|n: int| 0 <= n < fl_rows@.len() && cell_or_empty(
                #[trigger] table_view(fl_rows@)[n],
                column_pos(fv, "Type"@),
            ) == "S"@
        }),
{
    let ghost cv = cols@.map_values(|c: String| c@);
    let ghost fv = fl_cols@.map_values(|c: String| c@);
    let pos_i = column_index(cols, "Position");
    let db_i = column_index(cols, "DatabaseName");
    let type_i = column_index(cols, "BackupType");
    let date_i = column_index(cols, "BackupFinishDate");
    let ver_i = column_index(cols, "SoftwareVersionMajor");
    proof {
        lemma_column_pos(cv, cols@, "Position"@, opt_int(pos_i));
        lemma_column_pos(cv, cols@, "DatabaseName"@, opt_int(db_i));
        lemma_column_pos(cv, cols@, "BackupType"@, opt_int(type_i));
        lemma_column_pos(cv, cols@, "BackupFinishDate"@, opt_int(date_i));
        lemma_column_pos(cv, cols@, "SoftwareVersionMajor"@, opt_int(ver_i));
    }
    let file_number = parse_i32_or(cell_text(row, pos_i).as_str(), 1);
    let database_name = cell_text(row, db_i);
    let backup_type = backup_type_label(cell_text(row, type_i).as_str());
    let finish_date = cell_text(row, date_i);
    let software_version_major = parse_i32_or(cell_text(row, ver_i).as_str(), 0);
    let ln_i = column_index(fl_cols, "LogicalName");
    let pn_i = column_index(fl_cols, "PhysicalName");
    let ft_i = column_index(fl_cols, "Type");
    proof {
        lemma_column_pos(fv, fl_cols@, "LogicalName"@, opt_int(ln_i));
        lemma_column_pos(fv, fl_cols@, "PhysicalName"@, opt_int(pn_i));
        lemma_column_pos(fv, fl_cols@, "Type"@, opt_int(ft_i));
    }
    let ghost tv = table_view(fl_rows@);
    let mut files: Vec<BakFile> = Vec::new();
    let mut has_filestream = false;
    let mut n: usize = 0;
    while n < fl_rows.len()
        invariant
            n <= fl_rows@.len(),
            tv == table_view(fl_rows@),
            files@.len() == n,
            forall|k: int| #![trigger files@[k]] 0 <= k < n ==> files@[k]@ == spec_bak_file(
                database_name@,
                tv[k],
                k,
                opt_int(ln_i),
                opt_int(pn_i),
                opt_int(ft_i),
            ),
            has_filestream == exists|k: int| 0 <= k < n && cell_or_empty(#[trigger] tv[k], opt_int(ft_i)) == "S"@,
        decreases fl_rows@.len() - n,
    {
        let frow = &fl_rows[n];
        assert(tv[n as int] == frow@.map_values(|c: String| c@));
        let file_type = cell_text(frow, ft_i);
        if str_eq(file_type.as_str(), "S") {
            has_filestream = true;
        }
        let logical = cell_text(frow, ln_i);
        let ext = if str_eq(file_type.as_str(), "L") {
            "ldf"
        } else if str_eq(file_type.as_str(), "D") && n == 0 {
            "mdf"
        } else {
            "ndf"
        };
        let mut t: Vec<char> = Vec::new();
        extend_str(&mut t, DATA_DIR);
        t.push('/');
        push_fs_fragment(&mut t, database_name.as_str());
        t.push('_');
        push_fs_fragment(&mut t, logical.as_str());
        t.push('.');
        extend_str(&mut t, ext);
        assert(t@ =~= spec_suggested_target(database_name@, logical@, file_type@, n as int));
        files.push(
            BakFile {
                suggested_target: string_of(t.as_slice()),
                logical_name: logical,
                physical_name: cell_text(frow, pn_i),
                file_type,
            },
        );
        proof {
            if has_filestream {
                if cell_or_empty(tv[n as int], opt_int(ft_i)) == "S"@ {
                    assert(0 <= n < n + 1 && cell_or_empty(tv[n as int], opt_int(ft_i)) == "S"@);
                }
            }
        }
        n += 1;
    }
    BackupSet { file_number, database_name, backup_type, finish_date, software_version_major, files, has_filestream }
}

proof fn lemma_column_pos(cv: Seq<Seq<char>>, cols: Seq<String>, name: Seq<char>, r: Option<int>)
    requires
        cv == cols.map_values(|c: String| c@),
        match r {
            Some(i) => 0 <= i < cols.len() && cols[i]@ == name && forall|j: int| 0 <= j < i ==> (#[trigger] cols[j])@ != name,
            None => forall|j: int| 0 <= j < cols.len() ==> (#[trigger] cols[j])@ != name,
        },
    ensures
        column_pos(cv, name) == r,
{
    match r {
        Some(i) => {
            assert(cv[i] == name);
            let c = choose|c: int| 0 <= c < cv.len() && cv[c] == name && forall|j: int| 0 <= j < c ==> cv[j] != name;
            if c < i {
                assert(cols[c]@ != name);
            }
            if i < c {
                assert(cv[i] != name);
            }
        },
        None => {
            assert forall|j: int| 0 <= j < cv.len() implies cv[j] != name by {
                assert(cols[j]@ != name);
            }
        },
    }
}

pub open spec fn spec_move_clause(m: MoveSpec) -> Seq<char> {
    "MOVE "@ + spec_quote_str(m.logical_name@) + " TO "@ + spec_quote_str(m.target@)
}

pub open spec fn spec_restore_sql(plan: RestorePlan) -> Seq<char> {
    "RESTORE DATABASE "@ + spec_quote_ident(plan.database_name@) + " FROM DISK = "@ + spec_quote_str(plan.staged_path@)
        + " WITH FILE = "@ + dec_int(plan.file_number as int) + ", "@ + join_with(
        plan.moves@.map_values(|m: MoveSpec| spec_move_clause(m)),
        ", "@,
    ) + ", "@ + (if plan.replace {
        "REPLACE, "@
    } else {
        Seq::<char>::empty()
    }) + "RECOVERY, STATS = 5"@
}

/// The restore statement: every logical file moved to its target,
/// replacing an existing database when asked, with progress every 5%.
pub fn restore_sql(plan: &RestorePlan) -> (r: String)
    ensures
        r@ == spec_restore_sql(*plan),
{
    let mut moves: Vec<String> = Vec::new();
    let mut i: usize = 0;
    while i < plan.moves.len()
        invariant
            i <= plan.moves@.len(),
            moves@.map_values(|m: String| m@) == plan.moves@.take(i as int).map_values(|m: MoveSpec| spec_move_clause(m)),
        decreases plan.moves@.len() - i,
    {
        let m = &plan.moves[i];
        let mut v: Vec<char> = Vec::new();
        extend_str(&mut v, "MOVE ");
        push_quoted_str(&mut v, m.logical_name.as_str());
        extend_str(&mut v, " TO ");
        push_quoted_str(&mut v, m.target.as_str());
        let ghost before = moves@.map_values(|m: String| m@);
        moves.push(string_of(v.as_slice()));
        assert(moves@.map_values(|m: String| m@) =~= before.push(spec_move_clause(*m)));
        assert(plan.moves@.take(i + 1).map_values(|m: MoveSpec| spec_move_clause(m)) =~= plan.moves@.take(i as int).map_values(
            |m: MoveSpec| spec_move_clause(m),
        ).push(spec_move_clause(*m)));
        i += 1;
    }
    assert(plan.moves@.take(plan.moves@.len() as int) =~= plan.moves@);
    let mut v: Vec<char> = Vec::new();
    extend_str(&mut v, "RESTORE DATABASE ");
    extend_str(&mut v, quote_ident(plan.database_name.as_str()).as_str());
    extend_str(&mut v, " FROM DISK = ");
    push_quoted_str(&mut v, plan.staged_path.as_str());
    extend_str(&mut v, " WITH FILE = ");
    let d = i64_dec(plan.file_number as i64);
    extend_chars(&mut v, d.as_slice());
    extend_str(&mut v, ", ");
    push_joined(&mut v, &moves, ", ");
    extend_str(&mut v, ", ");
    if plan.replace {
        extend_str(&mut v, "REPLACE, ");
    }
    extend_str(&mut v, "RECOVERY, STATS = 5");
    string_of(v.as_slice())
}

pub open spec fn spec_server_error_line(number: u32, message: Seq<char>) -> Seq<char> {
    "Error "@ + dec_int(number as int) + ": "@ + message
}

/// How a server error during a restore or backup is reported.
pub fn server_error_line(number: u32, message: &str) -> (r: String)
    ensures
        r@ == spec_server_error_line(number, message@),
{
    let mut v: Vec<char> = Vec::new();
    extend_str(&mut v, "Error ");
    let d = i64_dec(number as i64);
    extend_chars(&mut v, d.as_slice());
    extend_str(&mut v, ": ");
    extend_str(&mut v, message);
    string_of(v.as_slice())
}

/// The outcome of a restore or backup statement: failed, with every server
/// error on its own line, when the server reported any.
pub fn server_errors_result(errors: &Vec<String>) -> (r: Result<(), AppError>)
    ensures
        if errors@.len() == 0 {
            r is Ok
        } else {
            r matches Err(e) && is_runtime_error(e, join_with(errors@.map_values(|x: String| x@), "\n"@), None)
        },
{
    if errors.len() == 0 {
        Ok(())
    } else {
        let mut v: Vec<char> = Vec::new();
        push_joined(&mut v, errors, "\n");
        Err(AppError::runtime(string_of(v.as_slice()), None))
    }
}

pub open spec fn spec_database_state_sql(name: Seq<char>) -> Seq<char> {
    "SELECT state_desc FROM sys.databases WHERE name = "@ + spec_quote_str(name)
}

/// The query for a database's state.
pub fn database_state_sql(name: &str) -> (r: String)
    ensures
        r@ == spec_database_state_sql(name@),
{
    let mut v: Vec<char> = Vec::new();
    extend_str(&mut v, "SELECT state_desc FROM sys.databases WHERE name = ");
    push_quoted_str(&mut v, name);
    string_of(v.as_slice())
}

/// Whether the state query says the database is online.
pub fn is_online(rows: &Vec<Vec<String>>) -> (r: bool)
    ensures
        r == (rows@.len() > 0 && rows@[0]@.len() > 0 && rows@[0]@[0]@ == "ONLINE"@),
{
    rows.len() > 0 && rows[0].len() > 0 && str_eq(rows[0][0].as_str(), "ONLINE")
}

/// State polls after a restore before giving up (two seconds apart).
pub const ONLINE_POLLS: u32 = 150;

/// How far a running restore or backup has got, polled on a second
/// connection.
pub const PROGRESS_SQL: &'static str = "SELECT CAST(percent_complete AS float) FROM sys.dm_exec_requests WHERE command IN ('RESTORE DATABASE','RESTORE HEADERONLY','BACKUP DATABASE')";

/// The error when a restored database never came online.
pub fn not_online_error() -> (r: AppError)
    ensures
        is_runtime_error(r, "database did not come ONLINE after restore"@, None),
{
    AppError::runtime(owned("database did not come ONLINE after restore"), None)
}

pub open spec fn spec_backup_sql(database: Seq<char>, file: Seq<char>) -> Seq<char> {
    "BACKUP DATABASE "@ + spec_quote_ident(database) + " TO DISK = "@ + spec_quote_str(file)
        + " WITH INIT, COMPRESSION, STATS = 10"@
}

/// The backup statement: a fresh compressed backup with progress every 10%.
pub fn backup_sql(database: &str, file: &str) -> (r: String)
    ensures
        r@ == spec_backup_sql(database@, file@),
{
    let mut v: Vec<char> = Vec::new();
    extend_str(&mut v, "BACKUP DATABASE ");
    extend_str(&mut v, quote_ident(database).as_str());
    extend_str(&mut v, " TO DISK = ");
    push_quoted_str(&mut v, file);
    extend_str(&mut v, " WITH INIT, COMPRESSION, STATS = 10");
    string_of(v.as_slice())
}

/// The backup directory with its trailing separator.
pub open spec fn backup_dir_prefix() -> Seq<char> {
    BACKUP_DIR@ + seq!['/']
}

/// Only files inside the backup directory may be removed: the path must
/// start with the directory and a `/`, and hold no `..`.
pub open spec fn is_discardable(p: Seq<char>) -> bool {
    p.len() >= backup_dir_prefix().len() && p.take(backup_dir_prefix().len() as int) == backup_dir_prefix()
        && !crate::text::contains_str(p, ".."@)
}

/// Checks a staged path before it is removed.
pub fn check_staged_path(p: &str) -> (r: Result<(), AppError>)
    ensures
        if is_discardable(p@) {
            r is Ok
        } else {
            r matches Err(e) && crate::error::is_internal_error(e, "invalid staged path"@)
        },
{
    let v = chars_of(p);
    let mut d = chars_of(BACKUP_DIR);
    d.push('/');
    let mut ok = v.len() >= d.len();
    if ok {
        let mut i: usize = 0;
        while i < d.len()
            invariant
                i <= d@.len() <= v@.len(),
                d@ == backup_dir_prefix(),
                v@ == p@,
                ok == (forall|k: int| 0 <= k < i ==> v@[k] == d@[k]),
            decreases d@.len() - i,
        {
            if v[i] != d[i] {
                ok = false;
            }
            i += 1;
        }
        assert(ok == (v@.take(d@.len() as int) =~= d@)) by {
            if !ok {
                if v@.take(d@.len() as int) == d@ {
                    assert forall|k: int| 0 <= k < d@.len() implies v@[k] == d@[k] by {
                        assert(v@.take(d@.len() as int)[k] == v@[k]);
                    }
                }
            }
        }
    }
    if ok && !crate::text::str_contains(p, "..") {
        Ok(())
    } else {
        Err(AppError::Internal(owned("invalid staged path")))
    }
}

} // verus!
