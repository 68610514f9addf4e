//! Catalog queries for the object tree, definitions, scripting and the
//! completion schema. All queries are fully qualified against `[db].sys.*`
//! so pooled utility connections never need `USE`. The queries run
//! elsewhere; this module writes them and reads their rows (each cell as
//! its display text).

use crate::csvimport::infer::{int_text_value, is_ident_char, parse_i64};
use super::batch::{depth, Lex};
use crate::csvimport::inspect::table_view;
use crate::error::{is_internal_error, AppError};
use crate::text::{
    chars_of, dec_int, double_char, extend_chars, extend_str, i64_dec, join_with, owned, push_doubled, push_joined,
    push_trim_end, rtrim, str_eq, string_of, trim,
};
use vstd::prelude::*;

verus! {

pub struct ObjInfo {
    pub schema: String,
    pub name: String,
    pub object_id: i64,
}

pub struct ColInfo {
    pub name: String,
    pub data_type: String,
    pub nullable: bool,
    pub is_pk: bool,
}

pub struct ScriptedObject {
    pub object_type: String,
    pub schema: String,
    pub name: String,
    pub body: String,
}

/// `[name]` with `]` doubled.
pub open spec fn spec_quote_ident(name: Seq<char>) -> Seq<char> {
    seq!['['] + double_char(name, ']') + seq![']']
}

fn push_quoted_ident(out: &mut Vec<char>, name: &str)
    ensures
        final(out)@ == old(out)@ + spec_quote_ident(name@),
{
    out.push('[');
    push_doubled(out, name, ']');
    out.push(']');
    assert(out@ =~= old(out)@ + spec_quote_ident(name@));
}

/// Distinct names quote to distinct identifiers: a bracket-quoted
/// identifier always names exactly the object it was made from.
pub proof fn lemma_quote_ident_injective(a: Seq<char>, b: Seq<char>)
    requires
        spec_quote_ident(a) == spec_quote_ident(b),
    ensures
        a == b,
{
    let q = spec_quote_ident(a);
    assert(double_char(a, ']') =~= q.subrange(1, q.len() - 1));
    assert(double_char(b, ']') =~= q.subrange(1, q.len() - 1));
    crate::text::lemma_double_char_injective(a, b, ']');
}

/// Reads doubled `c`s back as one: `None` when some `c` stands alone.
pub open spec fn undouble_char(s: Seq<char>, c: char) -> Option<Seq<char>>
    decreases s.len(),
{
    if s.len() == 0 {
        Some(Seq::<char>::empty())
    } else if s.last() != c {
        match undouble_char(s.drop_last(), c) {
            Some(t) => Some(t.push(s.last())),
            None => None,
        }
    } else if s.len() >= 2 && s[s.len() - 2] == c {
        match undouble_char(s.take(s.len() - 2), c) {
            Some(t) => Some(t.push(c)),
            None => None,
        }
    } else {
        None
    }
}

/// The name a bracket-quoted identifier stands for, if it is one.
pub open spec fn read_quoted_ident(q: Seq<char>) -> Option<Seq<char>> {
    if q.len() >= 2 && q[0] == '[' && q.last() == ']' {
        undouble_char(q.subrange(1, q.len() - 1), ']')
    } else {
        None
    }
}

proof fn lemma_undouble_double(s: Seq<char>, c: char)
    ensures
        undouble_char(double_char(s, c), c) == Some(s),
    decreases s.len(),
{
    if s.len() > 0 {
        let t = s.drop_last();
        lemma_undouble_double(t, c);
        let d = double_char(s, c);
        let dt = double_char(t, c);
        if s.last() == c {
            assert(d =~= dt + seq![c, c]);
            assert(d.take(d.len() - 2) =~= dt);
        } else {
            assert(d =~= dt + seq![s.last()]);
            assert(d.drop_last() =~= dt);
        }
        assert(t.push(s.last()) =~= s);
    }
}

/// A quoted identifier reads back as the name it was made from.
pub proof fn lemma_quote_ident_reads_back(name: Seq<char>)
    ensures
        read_quoted_ident(spec_quote_ident(name)) == Some(name),
{
    let q = spec_quote_ident(name);
    assert(q.subrange(1, q.len() - 1) =~= double_char(name, ']'));
    lemma_undouble_double(name, ']');
}

/// A bracket-quoted SQL identifier.
pub fn quote_ident(name: &str) -> (r: String)
    ensures
        r@ == spec_quote_ident(name@),
{
    let mut v: Vec<char> = Vec::new();
    push_quoted_ident(&mut v, name);
    string_of(v.as_slice())
}

/// The `sys.objects` type codes listed for an object-tree kind.
pub open spec fn spec_type_filter(kind: Seq<char>) -> Seq<char> {
    if kind == "table"@ {
        "'U'"@
    } else if kind == "view"@ {
        "'V'"@
    } else if kind == "proc"@ {
        "'P'"@
    } else if kind == "fn"@ {
        "'FN','IF','TF'"@
    } else {
        "'U'"@
    }
}

pub fn type_filter(kind: &str) -> (r: &'static str)
    ensures
        r@ == spec_type_filter(kind@),
{
    if str_eq(kind, "table") {
        "'U'"
    } else if str_eq(kind, "view") {
        "'V'"
    } else if str_eq(kind, "proc") {
        "'P'"
    } else if str_eq(kind, "fn") {
        "'FN','IF','TF'"
    } else {
        "'U'"
    }
}

pub open spec fn spec_objects_sql(database: Seq<char>, kind: Seq<char>) -> Seq<char> {
    let db = spec_quote_ident(database);
    "SELECT s.name, o.name, CAST(o.object_id AS bigint)\n         FROM "@ + db + ".sys.objects o JOIN "@ + db
        + ".sys.schemas s ON o.schema_id = s.schema_id\n         WHERE o.type IN ("@ + spec_type_filter(kind)
        + ") AND o.is_ms_shipped = 0\n         ORDER BY s.name, o.name"@
}

/// The object-tree query for one kind of object.
pub fn objects_sql(database: &str, kind: &str) -> (r: String)
    ensures
        r@ == spec_objects_sql(database@, kind@),
{
    let mut v: Vec<char> = Vec::new();
    extend_str(&mut v, "SELECT s.name, o.name, CAST(o.object_id AS bigint)\n         FROM ");
    push_quoted_ident(&mut v, database);
    extend_str(&mut v, ".sys.objects o JOIN ");
    push_quoted_ident(&mut v, database);
    extend_str(&mut v, ".sys.schemas s ON o.schema_id = s.schema_id\n         WHERE o.type IN (");
    extend_str(&mut v, type_filter(kind));
    extend_str(&mut v, ") AND o.is_ms_shipped = 0\n         ORDER BY s.name, o.name");
    string_of(v.as_slice())
}

/// An object-tree row read as (schema, name, id): it needs three cells and
/// an id that is an `i64`.
pub open spec fn obj_of_row(r: Seq<Seq<char>>) -> Option<(Seq<char>, Seq<char>, int)> {
    if r.len() >= 3 {
        match int_text_value(r[2]) {
            Some(v) => if i64::MIN <= v <= i64::MAX {
                Some((r[0], r[1], v))
            } else {
                None
            },
            None => None,
        }
    } else {
        None
    }
}

pub open spec fn obj_view(o: ObjInfo) -> (Seq<char>, Seq<char>, int) {
    (o.schema@, o.name@, o.object_id as int)
}

/// The objects of an object-tree query's rows; malformed rows are skipped.
pub fn objects_from_rows(rows: &Vec<Vec<String>>) -> (r: Vec<ObjInfo>)
    ensures
        r@.map_values(|o: ObjInfo| obj_view(o)) == table_view(rows@).filter_map(|x: Seq<Seq<char>>| obj_of_row(x)),
{
    let ghost tv = table_view(rows@);
    let mut out: Vec<ObjInfo> = Vec::new();
    let mut i: usize = 0;
    while i < rows.len()
        invariant
            i <= rows@.len(),
            tv == table_view(rows@),
            out@.map_values(|o: ObjInfo| obj_view(o)) == tv.take(i as int).filter_map(|x: Seq<Seq<char>>| obj_of_row(x)),
        decreases rows@.len() - i,
    {
        assert(tv.take(i + 1).drop_last() =~= tv.take(i as int));
        assert(tv.take(i + 1).last() == rows@[i as int]@.map_values(|c: String| c@));
        let row = &rows[i];
        let ghost before = out@.map_values(|o: ObjInfo| obj_view(o));
        if row.len() >= 3 {
            match parse_i64(row[2].as_str()) {
                Some(id) => {
                    out.push(ObjInfo { schema: owned(row[0].as_str()), name: owned(row[1].as_str()), object_id: id });
                    assert(out@.map_values(|o: ObjInfo| obj_view(o)) =~= before + seq![
                        (row@[0]@, row@[1]@, id as int),
                    ]);
                },
                None => {},
            }
        }
        i += 1;
    }
    assert(tv.take(rows@.len() as int) =~= tv);
    out
}

pub open spec fn col_view(c: ColInfo) -> (Seq<char>, Seq<char>, bool, bool) {
    (c.name@, c.data_type@, c.nullable, c.is_pk)
}

/// A column-query row read as (name, type, nullable, primary key); it
/// needs four cells.
pub open spec fn col_of_row(r: Seq<Seq<char>>) -> Option<(Seq<char>, Seq<char>, bool, bool)> {
    if r.len() >= 4 {
        Some((r[0], r[1], r[2] == "1"@ || r[2] == "true"@, r[3] == "1"@))
    } else {
        None
    }
}

/// The columns of a column query's rows; short rows are skipped.
pub fn columns_from_rows(rows: &Vec<Vec<String>>) -> (r: Vec<ColInfo>)
    ensures
        r@.map_values(|c: ColInfo| col_view(c)) == table_view(rows@).filter_map(|x: Seq<Seq<char>>| col_of_row(x)),
{
    let ghost tv = table_view(rows@);
    let mut out: Vec<ColInfo> = Vec::new();
    let mut i: usize = 0;
    while i < rows.len()
        invariant
            i <= rows@.len(),
            tv == table_view(rows@),
            out@.map_values(|c: ColInfo| col_view(c)) == tv.take(i as int).filter_map(|x: Seq<Seq<char>>| col_of_row(x)),
        decreases rows@.len() - i,
    {
        assert(tv.take(i + 1).drop_last() =~= tv.take(i as int));
        assert(tv.take(i + 1).last() == rows@[i as int]@.map_values(|c: String| c@));
        let row = &rows[i];
        let ghost before = out@.map_values(|c: ColInfo| col_view(c));
        if row.len() >= 4 {
            let nullable = str_eq(row[2].as_str(), "1") || str_eq(row[2].as_str(), "true");
            let is_pk = str_eq(row[3].as_str(), "1");
            out.push(ColInfo { name: owned(row[0].as_str()), data_type: owned(row[1].as_str()), nullable, is_pk });
            assert(out@.map_values(|c: ColInfo| col_view(c)) =~= before + seq![
                (row@[0]@, row@[1]@, nullable, is_pk),
            ]);
        }
        i += 1;
    }
    assert(tv.take(rows@.len() as int) =~= tv);
    out
}

/// A script wrapped for running on its own: `USE [db]`, then the body
/// without trailing whitespace, each followed by `GO`.
pub open spec fn spec_script_wrapped(database: Seq<char>, body: Seq<char>) -> Seq<char> {
    "USE "@ + spec_quote_ident(database) + "\nGO\n"@ + rtrim(body) + "\nGO\n"@
}

pub fn script_wrapped(database: &str, body: &str) -> (r: String)
    ensures
        r@ == spec_script_wrapped(database@, body@),
{
    let mut v: Vec<char> = Vec::new();
    extend_str(&mut v, "USE ");
    push_quoted_ident(&mut v, database);
    extend_str(&mut v, "\nGO\n");
    push_trim_end(&mut v, body);
    extend_str(&mut v, "\nGO\n");
    string_of(v.as_slice())
}

/// One column line of a scripted table.
pub open spec fn spec_column_line(c: (Seq<char>, Seq<char>, bool, bool), identity: Option<Seq<char>>) -> Seq<char> {
    "    "@ + spec_quote_ident(c.0) + seq![' '] + c.1 + (if identity == Some(c.0) {
        " IDENTITY(1,1)"@
    } else {
        Seq::<char>::empty()
    }) + (if c.2 {
        " NULL"@
    } else {
        " NOT NULL"@
    })
}

/// The lines of a scripted table: one per column, then the primary key
/// over the key columns, if any.
pub open spec fn spec_table_lines(cols: Seq<(Seq<char>, Seq<char>, bool, bool)>, identity: Option<Seq<char>>) -> Seq<Seq<char>> {
    let pk = cols.filter(|c: (Seq<char>, Seq<char>, bool, bool)| c.3).map_values(
        |c: (Seq<char>, Seq<char>, bool, bool)| spec_quote_ident(c.0),
    );
    cols.map_values(|c: (Seq<char>, Seq<char>, bool, bool)| spec_column_line(c, identity)) + if pk.len() > 0 {
        seq!["    PRIMARY KEY ("@ + join_with(pk, ", "@) + ")"@]
    } else {
        seq![]
    }
}

pub open spec fn spec_table_script(
    schema: Seq<char>,
    name: Seq<char>,
    cols: Seq<(Seq<char>, Seq<char>, bool, bool)>,
    identity: Option<Seq<char>>,
) -> Seq<char> {
    "CREATE TABLE "@ + spec_quote_ident(schema) + seq!['.'] + spec_quote_ident(name) + " (\n"@ + join_with(
        spec_table_lines(cols, identity),
        ",\n"@,
    ) + "\n)"@
}

/// `CREATE TABLE` for a table from its catalog columns: types,
/// nullability, the identity column and the primary key.
pub fn table_script(schema: &str, name: &str, cols: &Vec<ColInfo>, identity: Option<&str>) -> (r: String)
    ensures
        r@ == spec_table_script(
            schema@,
            name@,
            cols@.map_values(|c: ColInfo| col_view(c)),
            match identity {
                Some(x) => Some(x@),
                None => None,
            },
        ),
{
    let ghost cv = cols@.map_values(|c: ColInfo| col_view(c));
    let ghost idv = match identity {
        Some(x) => Some(x@),
        None => None::<Seq<char>>,
    };
    let mut lines: Vec<String> = Vec::new();
    let mut pk: Vec<String> = Vec::new();
    let mut i: usize = 0;
    while i < cols.len()
        invariant
            i <= cols@.len(),
            cv == cols@.map_values(|c: ColInfo| col_view(c)),
            lines@.map_values(|l: String| l@) == cv.take(i as int).map_values(
                |c: (Seq<char>, Seq<char>, bool, bool)| spec_column_line(c, idv),
            ),
            pk@.map_values(|l: String| l@) == cv.take(i as int).filter(|c: (Seq<char>, Seq<char>, bool, bool)| c.3).map_values(
                |c: (Seq<char>, Seq<char>, bool, bool)| spec_quote_ident(c.0),
            ),
            idv == match identity {
                Some(x) => Some(x@),
                None => None::<Seq<char>>,
            },
        decreases cols@.len() - i,
    {
        let c = &cols[i];
        proof {
            reveal(Seq::filter);
            assert(cv.take(i + 1).drop_last() =~= cv.take(i as int));
            assert(cv.take(i + 1).last() == col_view(*c));
        }
        let mut v: Vec<char> = Vec::new();
        extend_str(&mut v, "    ");
        push_quoted_ident(&mut v, c.name.as_str());
        v.push(' ');
        extend_str(&mut v, c.data_type.as_str());
        let is_identity = match identity {
            Some(x) => str_eq(x, c.name.as_str()),
            None => false,
        };
        assert(is_identity == (idv == Some(c.name@)));
        if is_identity {
            extend_str(&mut v, " IDENTITY(1,1)");
        }
        if c.nullable {
            extend_str(&mut v, " NULL");
        } else {
            extend_str(&mut v, " NOT NULL");
        }
        let ghost lb = lines@.map_values(|l: String| l@);
        lines.push(string_of(v.as_slice()));
        assert(v@ =~= spec_column_line(col_view(*c), idv));
        assert(lines@.map_values(|l: String| l@) =~= lb.push(spec_column_line(col_view(*c), idv)));
        assert(cv.take(i + 1).map_values(|c: (Seq<char>, Seq<char>, bool, bool)| spec_column_line(c, idv))
            =~= cv.take(i as int).map_values(|c: (Seq<char>, Seq<char>, bool, bool)| spec_column_line(c, idv)).push(
            spec_column_line(col_view(*c), idv),
        ));
        if c.is_pk {
            let ghost pb = pk@.map_values(|l: String| l@);
            pk.push(quote_ident(c.name.as_str()));
            assert(pk@.map_values(|l: String| l@) =~= pb.push(spec_quote_ident(c.name@)));
        }
        i += 1;
    }
    assert(cv.take(cols@.len() as int) =~= cv);
    let ghost pkv = pk@.map_values(|l: String| l@);
    if pk.len() > 0 {
        let mut v: Vec<char> = Vec::new();
        extend_str(&mut v, "    PRIMARY KEY (");
        push_joined(&mut v, &pk, ", ");
        extend_str(&mut v, ")");
        let ghost lb = lines@.map_values(|l: String| l@);
        lines.push(string_of(v.as_slice()));
        assert(lines@.map_values(|l: String| l@) =~= lb + seq!["    PRIMARY KEY ("@ + join_with(pkv, ", "@) + ")"@]);
    } else {
        assert(lines@.map_values(|l: String| l@) =~= lines@.map_values(|l: String| l@) + Seq::<Seq<char>>::empty());
    }
    let mut out: Vec<char> = Vec::new();
    extend_str(&mut out, "CREATE TABLE ");
    push_quoted_ident(&mut out, schema);
    out.push('.');
    push_quoted_ident(&mut out, name);
    extend_str(&mut out, " (\n");
    push_joined(&mut out, &lines, ",\n");
    extend_str(&mut out, "\n)");
    string_of(out.as_slice())
}

pub open spec fn spec_columns_sql(database: Seq<char>, object_id: i64) -> Seq<char> {
    let db = spec_quote_ident(database);
    "SELECT c.name,\n                CONCAT(t.name,\n                  CASE WHEN t.name IN ('varchar','char','varbinary','binary')\n                         THEN CONCAT('(', IIF(c.max_length = -1, 'max', CAST(c.max_length AS varchar(10))), ')')\n                       WHEN t.name IN ('nvarchar','nchar')\n                         THEN CONCAT('(', IIF(c.max_length = -1, 'max', CAST(c.max_length/2 AS varchar(10))), ')')\n                       WHEN t.name IN ('decimal','numeric')\n                         THEN CONCAT('(', c.precision, ',', c.scale, ')')\n                       ELSE '' END),\n                c.is_nullable,\n                IIF(pk.column_id IS NOT NULL, 1, 0)\n         FROM "@
        + db + ".sys.columns c\n         JOIN "@ + db
        + ".sys.types t ON c.user_type_id = t.user_type_id\n         LEFT JOIN (\n            SELECT ic.object_id, ic.column_id\n            FROM "@
        + db + ".sys.index_columns ic\n            JOIN "@ + db
        + ".sys.indexes i ON i.object_id = ic.object_id AND i.index_id = ic.index_id\n            WHERE i.is_primary_key = 1\n         ) pk ON pk.object_id = c.object_id AND pk.column_id = c.column_id\n         WHERE c.object_id = "@
        + dec_int(object_id as int) + "\n         ORDER BY c.column_id"@
}

/// The column query of an object: name, type with its length or precision,
/// nullability and primary-key membership, in column order.
pub fn columns_sql(database: &str, object_id: i64) -> (r: String)
    ensures
        r@ == spec_columns_sql(database@, object_id),
{
    let mut v: Vec<char> = Vec::new();
    extend_str(&mut v, "SELECT c.name,\n                CONCAT(t.name,\n                  CASE WHEN t.name IN ('varchar','char','varbinary','binary')\n                         THEN CONCAT('(', IIF(c.max_length = -1, 'max', CAST(c.max_length AS varchar(10))), ')')\n                       WHEN t.name IN ('nvarchar','nchar')\n                         THEN CONCAT('(', IIF(c.max_length = -1, 'max', CAST(c.max_length/2 AS varchar(10))), ')')\n                       WHEN t.name IN ('decimal','numeric')\n                         THEN CONCAT('(', c.precision, ',', c.scale, ')')\n                       ELSE '' END),\n                c.is_nullable,\n                IIF(pk.column_id IS NOT NULL, 1, 0)\n         FROM ");
    push_quoted_ident(&mut v, database);
    extend_str(&mut v, ".sys.columns c\n         JOIN ");
    push_quoted_ident(&mut v, database);
    extend_str(&mut v, ".sys.types t ON c.user_type_id = t.user_type_id\n         LEFT JOIN (\n            SELECT ic.object_id, ic.column_id\n            FROM ");
    push_quoted_ident(&mut v, database);
    extend_str(&mut v, ".sys.index_columns ic\n            JOIN ");
    push_quoted_ident(&mut v, database);
    extend_str(&mut v, ".sys.indexes i ON i.object_id = ic.object_id AND i.index_id = ic.index_id\n            WHERE i.is_primary_key = 1\n         ) pk ON pk.object_id = c.object_id AND pk.column_id = c.column_id\n         WHERE c.object_id = ");
    let d = i64_dec(object_id);
    extend_chars(&mut v, d.as_slice());
    extend_str(&mut v, "\n         ORDER BY c.column_id");
    string_of(v.as_slice())
}

pub open spec fn spec_definition_sql(database: Seq<char>, object_id: i64) -> Seq<char> {
    let db = spec_quote_ident(database);
    "SELECT o.type, s.name, o.name, ISNULL(m.definition, '')\n             FROM "@ + db
        + ".sys.objects o\n             JOIN "@ + db
        + ".sys.schemas s ON o.schema_id = s.schema_id\n             LEFT JOIN "@ + db
        + ".sys.sql_modules m ON m.object_id = o.object_id\n             WHERE o.object_id = "@ + dec_int(object_id as int)
}

/// The query for an object's type, schema, name and module definition.
pub fn definition_sql(database: &str, object_id: i64) -> (r: String)
    ensures
        r@ == spec_definition_sql(database@, object_id),
{
    let mut v: Vec<char> = Vec::new();
    extend_str(&mut v, "SELECT o.type, s.name, o.name, ISNULL(m.definition, '')\n             FROM ");
    push_quoted_ident(&mut v, database);
    extend_str(&mut v, ".sys.objects o\n             JOIN ");
    push_quoted_ident(&mut v, database);
    extend_str(&mut v, ".sys.schemas s ON o.schema_id = s.schema_id\n             LEFT JOIN ");
    push_quoted_ident(&mut v, database);
    extend_str(&mut v, ".sys.sql_modules m ON m.object_id = o.object_id\n             WHERE o.object_id = ");
    let d = i64_dec(object_id);
    extend_chars(&mut v, d.as_slice());
    string_of(v.as_slice())
}

pub open spec fn spec_identity_sql(database: Seq<char>, object_id: i64) -> Seq<char> {
    "SELECT name FROM "@ + spec_quote_ident(database) + ".sys.identity_columns WHERE object_id = "@ + dec_int(
        object_id as int,
    )
}

/// The query for a table's identity column.
pub fn identity_sql(database: &str, object_id: i64) -> (r: String)
    ensures
        r@ == spec_identity_sql(database@, object_id),
{
    let mut v: Vec<char> = Vec::new();
    extend_str(&mut v, "SELECT name FROM ");
    push_quoted_ident(&mut v, database);
    extend_str(&mut v, ".sys.identity_columns WHERE object_id = ");
    let d = i64_dec(object_id);
    extend_chars(&mut v, d.as_slice());
    string_of(v.as_slice())
}

/// The first cell of the first row, if any (a single-value query's answer).
pub fn first_cell(rows: &Vec<Vec<String>>) -> (r: Option<String>)
    ensures
        match r {
            Some(c) => rows@.len() > 0 && rows@[0]@.len() > 0 && c@ == rows@[0]@[0]@,
            None => rows@.len() == 0 || rows@[0]@.len() == 0,
        },
{
    if rows.len() > 0 && rows[0].len() > 0 {
        Some(owned(rows[0][0].as_str()))
    } else {
        None
    }
}

/// An object's definition row: type code (trimmed), schema, name and
/// module text.
pub struct DefinitionRow {
    pub object_type: String,
    pub schema: String,
    pub name: String,
    pub definition: String,
}

/// Reads the answer of the definition query; no row means the object does
/// not exist.
pub fn read_definition(rows: &Vec<Vec<String>>) -> (r: Result<DefinitionRow, AppError>)
    requires
        rows@.len() > 0 ==> rows@[0]@.len() >= 4,
    ensures
        if rows@.len() == 0 {
            r matches Err(e) && is_internal_error(e, "object not found"@)
        } else {
            r matches Ok(d) && d.object_type@ == trim(rows@[0]@[0]@) && d.schema@ == rows@[0]@[1]@
                && d.name@ == rows@[0]@[2]@ && d.definition@ == rows@[0]@[3]@
        },
{
    if rows.len() == 0 {
        return Err(AppError::Internal(owned("object not found")));
    }
    let row = &rows[0];
    let t = chars_of(row[0].as_str());
    let (lo, hi) = crate::text::trim_bounds(t.as_slice(), 0, t.len());
    assert(t@.subrange(0, t@.len() as int) =~= t@);
    let mut tv: Vec<char> = Vec::new();
    let mut k = lo;
    while k < hi
        invariant
            lo <= k <= hi <= t@.len(),
            tv@ == t@.subrange(lo as int, k as int),
        decreases hi - k,
    {
        tv.push(t[k]);
        assert(t@.subrange(lo as int, k + 1) =~= t@.subrange(lo as int, k as int).push(t@[k as int]));
        k += 1;
    }
    Ok(
        DefinitionRow {
            object_type: string_of(tv.as_slice()),
            schema: owned(row[1].as_str()),
            name: owned(row[2].as_str()),
            definition: owned(row[3].as_str()),
        },
    )
}

/// A table is scripted from the catalog; anything else from its module text.
pub fn is_table(d: &DefinitionRow) -> (r: bool)
    ensures
        r == (d.object_type@ == "U"@),
{
    str_eq(d.object_type.as_str(), "U")
}

/// The scripted form of a table.
pub fn table_object(d: DefinitionRow, cols: &Vec<ColInfo>, identity: Option<&str>) -> (r: ScriptedObject)
    ensures
        r.object_type@ == d.object_type@,
        r.schema@ == d.schema@,
        r.name@ == d.name@,
        r.body@ == spec_table_script(
            d.schema@,
            d.name@,
            cols@.map_values(|c: ColInfo| col_view(c)),
            match identity {
                Some(x) => Some(x@),
                None => None,
            },
        ),
{
    let body = table_script(d.schema.as_str(), d.name.as_str(), cols, identity);
    ScriptedObject { object_type: d.object_type, schema: d.schema, name: d.name, body }
}

pub open spec fn lower_ascii(c: char) -> char {
    if 'A' <= c && c <= 'Z' {
        ((c as int) + 32) as char
    } else {
        c
    }
}

pub open spec fn is_create_at(s: Seq<char>, pos: int) -> bool {
    forall|k: int| 0 <= k < 6 ==> lower_ascii(#[trigger] s[pos + k]) == "create"@[k]
}

/// The whole word `CREATE` (in any letter case) starts at `pos`.
pub open spec fn create_keyword_at(s: Seq<char>, pos: int) -> bool {
    &&& 0 <= pos && pos + 6 <= s.len()
    &&& is_create_at(s, pos)
    &&& (pos == 0 || !is_ident_char(s[pos - 1]))
    &&& (pos + 6 == s.len() || !is_ident_char(s[pos + 6]))
}

/// One step of reading module text: the lexical context after the token
/// at `i` (strings `'..'` with `''`, quoted names `".."` and `[..]` with
/// `]]`, `--` comments to the end of the line, nested `/* */` comments),
/// and where the next token starts.
pub open spec fn lex_step(st: Lex, s: Seq<char>, i: int) -> (Lex, int) {
    let c = s[i];
    let two = i + 1 < s.len();
    match st {
        Lex::Normal => if c == '\'' {
            (Lex::SingleQuote, i + 1)
        } else if c == '"' {
            (Lex::DoubleQuote, i + 1)
        } else if c == '[' {
            (Lex::Bracket, i + 1)
        } else if c == '-' && two && s[i + 1] == '-' {
            (Lex::LineComment, i + 2)
        } else if c == '/' && two && s[i + 1] == '*' {
            (Lex::BlockComment(1), i + 2)
        } else {
            (Lex::Normal, i + 1)
        },
        Lex::SingleQuote => if c == '\'' && two && s[i + 1] == '\'' {
            (Lex::SingleQuote, i + 2)
        } else if c == '\'' {
            (Lex::Normal, i + 1)
        } else {
            (Lex::SingleQuote, i + 1)
        },
        Lex::DoubleQuote => if c == '"' {
            (Lex::Normal, i + 1)
        } else {
            (Lex::DoubleQuote, i + 1)
        },
        Lex::Bracket => if c == ']' && two && s[i + 1] == ']' {
            (Lex::Bracket, i + 2)
        } else if c == ']' {
            (Lex::Normal, i + 1)
        } else {
            (Lex::Bracket, i + 1)
        },
        Lex::LineComment => if c == '\n' {
            (Lex::Normal, i + 1)
        } else {
            (Lex::LineComment, i + 1)
        },
        Lex::BlockComment(d) => if c == '*' && two && s[i + 1] == '/' {
            (if d <= 1 { Lex::Normal } else { Lex::BlockComment((d - 1) as nat) }, i + 2)
        } else if c == '/' && two && s[i + 1] == '*' {
            (Lex::BlockComment(d + 1), i + 2)
        } else {
            (Lex::BlockComment(d), i + 1)
        },
    }
}

/// Position of the first `CREATE` keyword in code (outside comments,
/// strings and quoted names), reading from `i` in context `st`.
pub open spec fn find_create_from(s: Seq<char>, i: int, st: Lex) -> Option<int>
    decreases s.len() - i,
{
    if i < 0 || i >= s.len() {
        None
    } else if st == Lex::Normal && create_keyword_at(s, i) {
        Some(i)
    } else {
        let (st2, j) = lex_step(st, s, i);
        if j <= i {
            None
        } else {
            find_create_from(s, j, st2)
        }
    }
}

/// A module definition with its first `CREATE` keyword in code (in any
/// letter case; not inside a comment, a string or a quoted name) made
/// `ALTER`; unchanged when there is none.
pub open spec fn spec_rewrite_create_to_alter(definition: Seq<char>) -> Seq<char> {
    match find_create_from(definition, 0, Lex::Normal) {
        Some(p) => definition.take(p) + "ALTER"@ + definition.skip(p + 6),
        None => definition,
    }
}

fn lower_ascii_of(c: char) -> (r: char)
    ensures
        r == lower_ascii(c),
{
    if 'A' <= c && c <= 'Z' {
        ((c as u8) + 32) as char
    } else {
        c
    }
}

fn is_word_char(c: char) -> (r: bool)
    ensures
        r == is_ident_char(c),
{
    ('a' <= c && c <= 'z') || ('A' <= c && c <= 'Z') || ('0' <= c && c <= '9') || c == '_'
}

fn create_keyword_at_exec(v: &Vec<char>, pos: usize) -> (r: bool)
    ensures
        r == create_keyword_at(v@, pos as int),
{
    let n = v.len();
    if pos > n || n - pos < 6 {
        return false;
    }
    let word = chars_of("create");
    proof {
        reveal_strlit("create");
    }
    let mut k: usize = 0;
    let mut hit = true;
    while k < 6
        invariant
            k <= 6,
            pos + 6 <= n == v@.len(),
            word@ == "create"@,
            word@.len() == 6,
            hit == (forall|x: int| 0 <= x < k ==> lower_ascii(#[trigger] v@[pos + x]) == "create"@[x]),
        decreases 6 - k,
    {
        if lower_ascii_of(v[pos + k]) != word[k] {
            hit = false;
        }
        k += 1;
    }
    hit && (pos == 0 || !is_word_char(v[pos - 1])) && (pos + 6 == n || !is_word_char(v[pos + 6]))
}

/// Executable lexical context (block comments keep their depth).
#[derive(Clone, Copy)]
enum Ctx {
    Normal,
    SingleQuote,
    DoubleQuote,
    Bracket,
    LineComment,
    BlockComment(usize),
}

spec fn ctx_view(c: Ctx) -> Lex {
    match c {
        Ctx::Normal => Lex::Normal,
        Ctx::SingleQuote => Lex::SingleQuote,
        Ctx::DoubleQuote => Lex::DoubleQuote,
        Ctx::Bracket => Lex::Bracket,
        Ctx::LineComment => Lex::LineComment,
        Ctx::BlockComment(d) => Lex::BlockComment(d as nat),
    }
}

fn find_create_in(v: &Vec<char>) -> (r: Option<usize>)
    ensures
        match r {
            Some(p) => find_create_from(v@, 0, Lex::Normal) == Some(p as int) && p + 6 <= v@.len(),
            None => find_create_from(v@, 0, Lex::Normal) is None,
        },
{
    let n = v.len();
    let mut i: usize = 0;
    let mut st = Ctx::Normal;
    while i < n
        invariant
            n == v@.len(),
            i <= n,
            depth(ctx_view(st)) <= i,
            find_create_from(v@, i as int, ctx_view(st)) == find_create_from(v@, 0, Lex::Normal),
        decreases n - i,
    {
        let is_normal = match st {
            Ctx::Normal => true,
            _ => false,
        };
        if is_normal && create_keyword_at_exec(v, i) {
            return Some(i);
        }
        let c = v[i];
        let two = i + 1 < n;
        let (st2, j): (Ctx, usize) = match st {
            Ctx::Normal => if c == '\'' {
                (Ctx::SingleQuote, i + 1)
            } else if c == '"' {
                (Ctx::DoubleQuote, i + 1)
            } else if c == '[' {
                (Ctx::Bracket, i + 1)
            } else if c == '-' && two && v[i + 1] == '-' {
                (Ctx::LineComment, i + 2)
            } else if c == '/' && two && v[i + 1] == '*' {
                (Ctx::BlockComment(1), i + 2)
            } else {
                (Ctx::Normal, i + 1)
            },
            Ctx::SingleQuote => if c == '\'' && two && v[i + 1] == '\'' {
                (Ctx::SingleQuote, i + 2)
            } else if c == '\'' {
                (Ctx::Normal, i + 1)
            } else {
                (Ctx::SingleQuote, i + 1)
            },
            Ctx::DoubleQuote => if c == '"' {
                (Ctx::Normal, i + 1)
            } else {
                (Ctx::DoubleQuote, i + 1)
            },
            Ctx::Bracket => if c == ']' && two && v[i + 1] == ']' {
                (Ctx::Bracket, i + 2)
            } else if c == ']' {
                (Ctx::Normal, i + 1)
            } else {
                (Ctx::Bracket, i + 1)
            },
            Ctx::LineComment => if c == '\n' {
                (Ctx::Normal, i + 1)
            } else {
                (Ctx::LineComment, i + 1)
            },
            Ctx::BlockComment(d) => if c == '*' && two && v[i + 1] == '/' {
                (if d <= 1 { Ctx::Normal } else { Ctx::BlockComment(d - 1) }, i + 2)
            } else if c == '/' && two && v[i + 1] == '*' {
                (Ctx::BlockComment(d + 1), i + 2)
            } else {
                (Ctx::BlockComment(d), i + 1)
            },
        };
        assert(lex_step(ctx_view(st), v@, i as int) == (ctx_view(st2), j as int));
        i = j;
        st = st2;
    }
    None
}

pub fn rewrite_create_to_alter(definition: &str) -> (r: String)
    ensures
        r@ == spec_rewrite_create_to_alter(definition@),
{
    let v = chars_of(definition);
    let n = v.len();
    let found = find_create_in(&v);
    match found {
        Some(p) => {
            let mut out: Vec<char> = Vec::new();
            let mut i: usize = 0;
            while i < p
                invariant
                    i <= p,
                    p + 6 <= n == v@.len(),
                    out@ == v@.take(i as int),
                decreases p - i,
            {
                out.push(v[i]);
                assert(v@.take(i + 1) =~= v@.take(i as int).push(v@[i as int]));
                i += 1;
            }
            extend_str(&mut out, "ALTER");
            let ghost head = out@;
            let mut j = p + 6;
            while j < n
                invariant
                    p + 6 <= j <= n == v@.len(),
                    out@ == head + v@.subrange(p + 6, j as int),
                decreases n - j,
            {
                out.push(v[j]);
                assert(v@.subrange(p + 6, j + 1) =~= v@.subrange(p + 6, j as int).push(v@[j as int]));
                j += 1;
            }
            assert(v@.subrange(p + 6, n as int) =~= v@.skip(p + 6));
            string_of(out.as_slice())
        },
        None => owned(definition),
    }
}

/// The scripted form of a module (view, procedure, function, trigger):
/// its definition, optionally as `ALTER`, without trailing whitespace. An
/// empty definition (an encrypted object) cannot be scripted.
pub fn module_object(d: DefinitionRow, alter: bool) -> (r: Result<ScriptedObject, AppError>)
    ensures
        if d.definition@.len() == 0 {
            r matches Err(e) && is_internal_error(e, "no definition available (encrypted object?)"@)
        } else {
            r matches Ok(o) && o.object_type@ == d.object_type@ && o.schema@ == d.schema@ && o.name@ == d.name@
                && o.body@ == rtrim(
                if alter {
                    spec_rewrite_create_to_alter(d.definition@)
                } else {
                    d.definition@
                },
            )
        },
{
    let def_chars = chars_of(d.definition.as_str());
    if def_chars.len() == 0 {
        return Err(AppError::Internal(owned("no definition available (encrypted object?)")));
    }
    let text = if alter {
        rewrite_create_to_alter(d.definition.as_str())
    } else {
        owned(d.definition.as_str())
    };
    let mut body: Vec<char> = Vec::new();
    push_trim_end(&mut body, text.as_str());
    Ok(ScriptedObject { object_type: d.object_type, schema: d.schema, name: d.name, body: string_of(body.as_slice()) })
}

pub open spec fn spec_completion_sql(database: Seq<char>) -> Seq<char> {
    let db = spec_quote_ident(database);
    "SELECT s.name, o.name, c.name\n             FROM "@ + db + ".sys.objects o\n             JOIN "@ + db
        + ".sys.schemas s ON o.schema_id = s.schema_id\n             JOIN "@ + db
        + ".sys.columns c ON c.object_id = o.object_id\n             WHERE o.type IN ('U','V') AND o.is_ms_shipped = 0\n             ORDER BY s.name, o.name, c.column_id"@
}

/// The query for every user table's and view's columns.
pub fn completion_sql(database: &str) -> (r: String)
    ensures
        r@ == spec_completion_sql(database@),
{
    let mut v: Vec<char> = Vec::new();
    extend_str(&mut v, "SELECT s.name, o.name, c.name\n             FROM ");
    push_quoted_ident(&mut v, database);
    extend_str(&mut v, ".sys.objects o\n             JOIN ");
    push_quoted_ident(&mut v, database);
    extend_str(&mut v, ".sys.schemas s ON o.schema_id = s.schema_id\n             JOIN ");
    push_quoted_ident(&mut v, database);
    extend_str(&mut v, ".sys.columns c ON c.object_id = o.object_id\n             WHERE o.type IN ('U','V') AND o.is_ms_shipped = 0\n             ORDER BY s.name, o.name, c.column_id");
    string_of(v.as_slice())
}

/// The completion key of a (schema, object, column) row: the bare object
/// name in `dbo`, else `schema.object`.
pub open spec fn completion_key(r: Seq<Seq<char>>) -> Seq<char> {
    if r[0] == "dbo"@ {
        r[1]
    } else {
        r[0] + seq!['.'] + r[1]
    }
}

/// The columns listed for key `k`: the third cell of every complete row
/// with that key, in row order.
pub open spec fn completion_columns(rows: Seq<Seq<Seq<char>>>, k: Seq<char>) -> Seq<Seq<char>> {
    rows.filter(|r: Seq<Seq<char>>| r.len() >= 3 && completion_key(r) == k).map_values(|r: Seq<Seq<char>>| r[2])
}

pub open spec fn has_completion_key(rows: Seq<Seq<Seq<char>>>, k: Seq<char>) -> bool {
    exists|i: int| 0 <= i < rows.len() && rows[i].len() >= 3 && completion_key(#[trigger] rows[i]) == k
}

/// The completion schema: for each table or view, its columns, shaped
/// `{ "schema.table": ["col", ...] }`. Each key occurs once; rows with
/// fewer than three cells are skipped.
pub fn completion_entries(rows: &Vec<Vec<String>>) -> (r: Vec<(String, Vec<String>)>)
    ensures
        forall|a: int, b: int| 0 <= a < b < r@.len() ==> (#[trigger] r@[a]).0@ != (#[trigger] r@[b]).0@,
        forall|a: int| #![trigger r@[a]] 0 <= a < r@.len() ==> has_completion_key(table_view(rows@), r@[a].0@)
            && r@[a].1@.map_values(|c: String| c@) == completion_columns(table_view(rows@), r@[a].0@),
        forall|k: Seq<char>| has_completion_key(table_view(rows@), k) ==> exists|a: int| 0 <= a < r@.len() && (#[trigger] r@[a]).0@ == k,
{
    let ghost tv = table_view(rows@);
    let mut out: Vec<(String, Vec<String>)> = Vec::new();
    let mut i: usize = 0;
    while i < rows.len()
        invariant
            i <= rows@.len(),
            tv == table_view(rows@),
            forall|a: int, b: int| 0 <= a < b < out@.len() ==> (#[trigger] out@[a]).0@ != (#[trigger] out@[b]).0@,
            forall|a: int| #![trigger out@[a]] 0 <= a < out@.len() ==> has_completion_key(tv.take(i as int), out@[a].0@)
                && out@[a].1@.map_values(|c: String| c@) == completion_columns(tv.take(i as int), out@[a].0@),
            forall|k: Seq<char>| has_completion_key(tv.take(i as int), k) ==> exists|a: int| 0 <= a < out@.len() && (#[trigger] out@[a]).0@ == k,
        decreases rows@.len() - i,
    {
        let ghost pre = tv.take(i as int);
        let ghost cur = tv.take(i + 1);
        assert(cur.drop_last() =~= pre);
        assert(cur.last() == tv[i as int]);
        assert(tv[i as int] == rows@[i as int]@.map_values(|c: String| c@));
        let row = &rows[i];
        proof {
            reveal(Seq::filter);
        }
        if row.len() >= 3 {
            let key = if str_eq(row[0].as_str(), "dbo") {
                owned(row[1].as_str())
            } else {
                crate::text::concat3(row[0].as_str(), ".", row[1].as_str())
            };
            let ghost r = tv[i as int];
            proof {
                reveal_strlit(".");
                assert(r[0] == row@[0]@);
                assert(r[1] == row@[1]@);
                assert(r[2] == row@[2]@);
            }
            assert(key@ == completion_key(r));
            let mut hit = false;
            let mut j: usize = 0;
            while j < out.len() && !hit
                invariant
                    j <= out@.len(),
                    !hit ==> forall|x: int| 0 <= x < j ==> (#[trigger] out@[x]).0@ != key@,
                    hit ==> j < out@.len() && out@[j as int].0@ == key@,
                decreases out@.len() - j + (if hit { 0int } else { 1int }),
            {
                if str_eq(out[j].0.as_str(), key.as_str()) {
                    hit = true;
                } else {
                    j += 1;
                }
            }
            let found: Option<usize> = if hit {
                Some(j)
            } else {
                None
            };
            proof {
                assert forall|k: Seq<char>| #![trigger completion_columns(cur, k)]
                    completion_columns(cur, k) == if k == completion_key(r) {
                        completion_columns(pre, k).push(r[2])
                    } else {
                        completion_columns(pre, k)
                    } by {
                    let f = |x: Seq<Seq<char>>| x.len() >= 3 && completion_key(x) == k;
                    assert(cur.filter(f) == if f(r) { pre.filter(f).push(r) } else { pre.filter(f) });
                    if f(r) {
                        assert(pre.filter(f).push(r).map_values(|x: Seq<Seq<char>>| x[2]) =~= pre.filter(f).map_values(
                            |x: Seq<Seq<char>>| x[2],
                        ).push(r[2]));
                    }
                }
                assert forall|k: Seq<char>| #[trigger] has_completion_key(cur, k) == (has_completion_key(pre, k) || k == completion_key(r)) by {
                    if has_completion_key(pre, k) {
                        let w = choose|w: int| 0 <= w < pre.len() && pre[w].len() >= 3 && completion_key(#[trigger] pre[w]) == k;
                        assert(cur[w] == pre[w]);
                    }
                    if k == completion_key(r) {
                        assert(cur[i as int] == r);
                    }
                    if has_completion_key(cur, k) {
                        let w = choose|w: int| 0 <= w < cur.len() && cur[w].len() >= 3 && completion_key(#[trigger] cur[w]) == k;
                        if w < i {
                            assert(pre[w] == cur[w]);
                        }
                    }
                }
            }
            match found {
                Some(j) => {
                    let col = owned(row[2].as_str());
                    let ghost before = out@;
                    let mut entry = out.remove(j);
                    let ghost old_cols = entry.1@.map_values(|c: String| c@);
                    entry.1.push(col);
                    assert(entry.1@.map_values(|c: String| c@) =~= old_cols.push(r[2]));
                    out.insert(j, entry);
                    assert(out@ =~= before.update(j as int, out@[j as int]));
                    proof {
                        assert forall|k: Seq<char>| has_completion_key(cur, k) implies exists|a: int| 0 <= a < out@.len() && (#[trigger] out@[a]).0@ == k by {
                            if k == completion_key(r) {
                                assert(out@[j as int].0@ == k);
                            } else {
                                let a = choose|a: int| 0 <= a < before.len() && (#[trigger] before[a]).0@ == k;
                                assert(out@[a].0@ == k);
                            }
                        }
                    }
                },
                None => {
                    let mut cols: Vec<String> = Vec::new();
                    cols.push(owned(row[2].as_str()));
                    let ghost before = out@;
                    assert(completion_columns(pre, key@) =~= Seq::<Seq<char>>::empty()) by {
                        assert(!has_completion_key(pre, key@)) by {
                            if has_completion_key(pre, key@) {
                                let a = choose|a: int| 0 <= a < out@.len() && (#[trigger] out@[a]).0@ == key@;
                            }
                        }
                        let f = |x: Seq<Seq<char>>| x.len() >= 3 && completion_key(x) == key@;
                        if pre.filter(f).len() > 0 {
                            let e = pre.filter(f)[0];
                            assert(pre.filter(f).contains(e));
                            pre.lemma_filter_contains_rev(f, e);
                            let w = choose|w: int| 0 <= w < pre.len() && pre[w] == e;
                            assert(f(pre[w]));
                        }
                    }
                    assert(cols@.map_values(|c: String| c@) =~= seq![r[2]]);
                    out.push((key, cols));
                    proof {
                        assert forall|k: Seq<char>| has_completion_key(cur, k) implies exists|a: int| 0 <= a < out@.len() && (#[trigger] out@[a]).0@ == k by {
                            if k == completion_key(r) {
                                assert(out@[out@.len() - 1].0@ == k);
                            } else {
                                let a = choose|a: int| 0 <= a < before.len() && (#[trigger] before[a]).0@ == k;
                                assert(out@[a].0@ == k);
                            }
                        }
                    }
                },
            }
        } else {
            proof {
                assert forall|k: Seq<char>| #![trigger completion_columns(cur, k)]
                    completion_columns(cur, k) == completion_columns(pre, k) by {
                    let f = |x: Seq<Seq<char>>| x.len() >= 3 && completion_key(x) == k;
                    assert(cur.filter(f) == pre.filter(f));
                }
                assert forall|k: Seq<char>| #[trigger] has_completion_key(cur, k) == has_completion_key(pre, k) by {
                    if has_completion_key(pre, k) {
                        let w = choose|w: int| 0 <= w < pre.len() && pre[w].len() >= 3 && completion_key(#[trigger] pre[w]) == k;
                        assert(cur[w] == pre[w]);
                    }
                    if has_completion_key(cur, k) {
                        let w = choose|w: int| 0 <= w < cur.len() && cur[w].len() >= 3 && completion_key(#[trigger] cur[w]) == k;
                        if w < i {
                            assert(pre[w] == cur[w]);
                        }
                    }
                }
            }
        }
        i += 1;
    }
    assert(tv.take(rows@.len() as int) =~= tv);
    out
}

} // verus!
