use bakehouse::sql::meta::{
    columns_from_rows, completion_entries, module_object, objects_from_rows, objects_sql, quote_ident, read_definition,
    rewrite_create_to_alter, script_wrapped, table_script, ColInfo, DefinitionRow,
};
use bakehouse::sql::scripts::{
    append_section, drop_keyword, kinds_sql, rank, script_header, script_header_at, script_order,
};
use bakehouse::sql::meta::ScriptedObject;

fn rows(v: &[&[&str]]) -> Vec<Vec<String>> {
    v.iter().map(|r| r.iter().map(|c| c.to_string()).collect()).collect()
}

#[test]
fn identifiers_are_bracket_quoted() {
    assert_eq!(quote_ident("plain"), "[plain]");
    assert_eq!(quote_ident("a]b"), "[a]]b]");
    assert!(objects_sql("my]db", "view").contains("FROM [my]]db].sys.objects o JOIN [my]]db].sys.schemas"));
    assert!(objects_sql("db", "fn").contains("o.type IN ('FN','IF','TF')"));
    assert!(objects_sql("db", "other").contains("o.type IN ('U')"));
}

#[test]
fn object_and_column_rows_are_read() {
    let objs = objects_from_rows(&rows(&[&["dbo", "t", "42"], &["dbo", "bad", "x"], &["short"]]));
    assert_eq!(objs.len(), 1);
    assert_eq!((objs[0].schema.as_str(), objs[0].name.as_str(), objs[0].object_id), ("dbo", "t", 42));
    let cols = columns_from_rows(&rows(&[&["id", "int", "0", "1"], &["name", "nvarchar(50)", "true", "0"], &["x"]]));
    assert_eq!(cols.len(), 2);
    assert!(!cols[0].nullable && cols[0].is_pk);
    assert!(cols[1].nullable && !cols[1].is_pk);
}

#[test]
fn table_is_scripted_from_the_catalog() {
    let cols = vec![
        ColInfo { name: "id".into(), data_type: "int".into(), nullable: false, is_pk: true },
        ColInfo { name: "name".into(), data_type: "nvarchar(50)".into(), nullable: true, is_pk: false },
    ];
    assert_eq!(
        table_script("dbo", "people", &cols, Some("id")),
        "CREATE TABLE [dbo].[people] (\n    [id] int IDENTITY(1,1) NOT NULL,\n    [name] nvarchar(50) NULL,\n    PRIMARY KEY ([id])\n)"
    );
    assert_eq!(
        table_script("s", "t", &vec![ColInfo { name: "a".into(), data_type: "int".into(), nullable: true, is_pk: false }], None),
        "CREATE TABLE [s].[t] (\n    [a] int NULL\n)"
    );
}

#[test]
fn create_becomes_alter_once() {
    assert_eq!(rewrite_create_to_alter("Create VIEW v AS SELECT 1 -- create"), "ALTER VIEW v AS SELECT 1 -- create");
    assert_eq!(rewrite_create_to_alter("  create procedure p"), "  ALTER procedure p");
    assert_eq!(rewrite_create_to_alter("SELECT 1"), "SELECT 1");
}

#[test]
fn modules_and_missing_objects() {
    assert!(read_definition(&vec![]).is_err());
    let d = read_definition(&rows(&[&[" V ", "dbo", "v", "CREATE VIEW v AS SELECT 1\n\n"]])).unwrap();
    assert_eq!(d.object_type, "V");
    let m = module_object(d, true).unwrap();
    assert_eq!(m.body, "ALTER VIEW v AS SELECT 1");
    let enc = DefinitionRow { object_type: "P".into(), schema: "dbo".into(), name: "p".into(), definition: String::new() };
    assert_eq!(module_object(enc, false).err().unwrap().message(), "no definition available (encrypted object?)");
    assert_eq!(script_wrapped("db", "SELECT 1  \n"), "USE [db]\nGO\nSELECT 1\nGO\n");
}

#[test]
fn scripts_are_ordered_by_category_then_dependencies() {
    // 1 proc, 2 view, 3 table, 4 function; the view needs the function.
    let kinds = vec![(1, "P".to_string()), (2, "V".to_string()), (3, "U".to_string()), (4, "FN".to_string())];
    let order = script_order(&vec![1, 2, 3, 4], &kinds, &vec![]);
    assert_eq!(order, vec![3, 4, 2, 1]);
    // the function now needs the view: the view goes first.
    let order = script_order(&vec![1, 2, 3, 4], &kinds, &vec![(4, 2)]);
    assert_eq!(order, vec![3, 2, 4, 1]);
    // a cycle between the view and the function keeps the base order there.
    let order = script_order(&vec![2, 4], &kinds, &vec![(4, 2), (2, 4)]);
    assert_eq!(order, vec![4, 2]);
    // unknown objects rank last, in selection order.
    assert_eq!(script_order(&vec![9, 8, 3], &kinds, &vec![]), vec![3, 9, 8]);
    assert_eq!(rank("TF"), 1);
    assert_eq!(kinds_sql("db", &vec![1, -2]), "SELECT CAST(o.object_id AS bigint), RTRIM(o.type)\n             FROM [db].sys.objects o WHERE o.object_id IN (1,-2)");
}

#[test]
fn script_file_sections() {
    let mut out = script_header_at("shop", "2024-05-06 07:08 UTC", true);
    assert!(out.starts_with("-- Generated by Bakehouse on 2024-05-06 07:08 UTC from database [shop]\nSET ANSI_NULLS ON\n"));
    assert!(out.ends_with("USE [shop]\nGO\n"));
    let obj = ScriptedObject { object_type: "V".into(), schema: "dbo".into(), name: "v".into(), body: "CREATE VIEW v AS SELECT 1 \n".into() };
    out.clear();
    append_section(&mut out, &obj, true);
    assert_eq!(out, "\nDROP VIEW IF EXISTS [dbo].[v]\nGO\nCREATE VIEW v AS SELECT 1\nGO\n");
    assert_eq!(drop_keyword("IF"), "FUNCTION");
    assert_eq!(drop_keyword("TR"), "OBJECT");
}

#[test]
fn completion_schema_groups_columns() {
    let e = completion_entries(&rows(&[
        &["dbo", "t", "a"],
        &["sales", "o", "id"],
        &["dbo", "t", "b"],
        &["x", "y"],
    ]));
    assert_eq!(e.len(), 2);
    assert_eq!(e[0].0, "t");
    assert_eq!(e[0].1, vec!["a".to_string(), "b".to_string()]);
    assert_eq!(e[1].0, "sales.o");
    assert_eq!(e[1].1, vec!["id".to_string()]);
}

#[test]
fn distinct_names_quote_distinctly() {
    let names = ["a]", "a]]", "a", "]", "]]", "a]b", "a]]b"];
    for (i, x) in names.iter().enumerate() {
        for (j, y) in names.iter().enumerate() {
            assert_eq!(quote_ident(x) == quote_ident(y), i == j);
        }
    }
}

#[test]
fn alter_rewrite_skips_comments_strings_and_names() {
    assert_eq!(
        rewrite_create_to_alter("/* created by x */\nCREATE VIEW v AS SELECT 1"),
        "/* created by x */\nALTER VIEW v AS SELECT 1"
    );
    assert_eq!(
        rewrite_create_to_alter("-- create this\nCREATE PROC p AS SELECT 'create'"),
        "-- create this\nALTER PROC p AS SELECT 'create'"
    );
    assert_eq!(rewrite_create_to_alter("/* a /* create */ b */ create view [create] as select 1"), "/* a /* create */ b */ ALTER view [create] as select 1");
    assert_eq!(rewrite_create_to_alter("recreated view"), "recreated view");
}

#[test]
fn quoted_identifiers_read_back() {
    for name in ["plain", "a]b", "]]", "", "x y", "[a]"] {
        let q = quote_ident(name);
        assert!(q.starts_with('[') && q.ends_with(']'));
        assert_eq!(q[1..q.len() - 1].replace("]]", "]"), name);
    }
}

#[test]
fn script_header_is_dated_in_minutes_utc() {
    let h = script_header("shop", false);
    let at = h.find(" UTC").expect("a UTC time");
    let stamp = &h[at - 16..at];
    let b = stamp.as_bytes();
    assert!(b[4] == b'-' && b[7] == b'-' && b[10] == b' ' && b[13] == b':');
    assert!(b.iter().enumerate().all(|(i, c)| [4, 7, 10, 13].contains(&i) || c.is_ascii_digit()));
}
