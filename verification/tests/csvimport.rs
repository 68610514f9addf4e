use bakehouse::csvimport::import::{
    column_list, create_table_sql, import_columns, import_delimiter, import_rows, import_summary, qualified_table,
    row_tuple, ImportValue, InsertBatcher, INSERT_BATCH,
};
use bakehouse::csvimport::infer::{literal, sanitize_ident, sniff_delimiter, ColKind};
use bakehouse::csvimport::inspect::{delimiter_override, inspect_file, inspect_file_with, read_decoded, CsvColumn};
use bakehouse::error::AppError;

fn inspect(path: &str, content: &str) -> bakehouse::csvimport::inspect::CsvFileInfo {
    inspect_file(path, content.as_bytes(), content.len() as u64).unwrap()
}

#[test]
fn infers_types_and_header() {
    let info = inspect("/tmp/bh-types.csv", "id,name,amount,when\n1,Ada,10.5,2024-01-02\n2,Grace,3,2024-02-03\n");
    assert!(info.has_header);
    assert_eq!(info.delimiter, ",");
    let types: Vec<&str> = info.columns.iter().map(|c| c.sql_type.as_str()).collect();
    assert_eq!(types, vec!["INT", "NVARCHAR(50)", "FLOAT", "DATE"]);
    assert_eq!(info.columns[1].name, "name");
}

#[test]
fn semicolon_no_header() {
    let info = inspect("/tmp/bh-semi.csv", "1;2;3\n4;5;6\n");
    assert_eq!(info.delimiter, ";");
    assert!(!info.has_header);
    assert_eq!(info.columns[0].name, "column1");
    assert_eq!(info.columns[0].sql_type, "INT");
}

#[test]
fn mixed_column_becomes_text_and_empty_is_nullable() {
    let info = inspect("/tmp/bh-mixed.csv", "a,b\n1,x\ntwo,\n");
    assert!(info.columns[0].sql_type.starts_with("NVARCHAR"));
}

#[test]
fn table_name_from_file_name() {
    let info = inspect("/tmp/2024 sales export!.csv", "a\n1\n");
    assert_eq!(info.suggested_table, "_2024_sales_export");
}

#[test]
fn literals_escape_and_null() {
    assert_eq!(literal("it's", ColKind::Text, "f", 1, "c").unwrap(), "N'it''s'");
    assert_eq!(literal("", ColKind::Int, "f", 1, "c").unwrap(), "NULL");
    assert_eq!(literal("", ColKind::Text, "f", 1, "c").unwrap(), "N''");
    assert!(literal("abc", ColKind::Int, "f", 1, "c").is_err());
}

#[test]
fn literal_errors_name_file_row_and_column() {
    match literal(" abc ", ColKind::Int, "data.csv", 7, "qty") {
        Err(AppError::Runtime { message, detail }) => {
            assert_eq!(message, "data.csv, data row 7, column [qty]: 'abc' is not a valid integer");
            assert_eq!(
                detail.as_deref(),
                Some("Re-run the import with 'Import all columns as text' if this column is mixed.")
            );
        }
        _ => panic!("expected a runtime error"),
    }
    assert!(literal("2024-13-45", ColKind::Date, "f", 1, "d").is_err());
    assert_eq!(literal(" 2024-01-02 ", ColKind::Date, "f", 1, "d").unwrap(), "'2024-01-02'");
    assert_eq!(literal("+42", ColKind::BigInt, "f", 1, "n").unwrap(), "42");
}

#[test]
fn header_row_names_are_deduplicated_case_insensitively() {
    let info = inspect("/tmp/dups.csv", "a,A,a,b\n1,2,3,4\n");
    let names: Vec<&str> = info.columns.iter().map(|c| c.name.as_str()).collect();
    assert_eq!(names, vec!["a", "A_2", "a_3", "b"]);
}

#[test]
fn tab_delimiter_and_preview_rows() {
    let mut text = String::from("k\tv\n");
    for i in 0..8 {
        text.push_str(&format!("{i}\tval{i}\n"));
    }
    let info = inspect("/tmp/tabs.csv", &text);
    assert_eq!(info.delimiter, "\t");
    assert!(info.has_header);
    assert_eq!(info.sample_rows.len(), 5);
    assert_eq!(info.sample_rows[0], vec!["0".to_string(), "val0".to_string()]);
    assert_eq!(info.columns[0].sql_type, "INT");
    assert_eq!(info.size_bytes, text.len() as u64);
    assert_eq!(info.file_name, "tabs.csv");
}

#[test]
fn overrides_replace_the_guesses() {
    let content = "x|y\n1|2\n";
    let info = inspect_file_with("/tmp/o.csv", content.as_bytes(), 8, Some(b','), Some(false)).unwrap();
    assert_eq!(info.delimiter, ",");
    assert!(!info.has_header);
    assert_eq!(info.columns.len(), 1);
    assert_eq!(info.columns[0].name, "column1");
    assert_eq!(delimiter_override(";"), Some(b';'));
    assert_eq!(delimiter_override(""), None);
}

#[test]
fn empty_file_is_refused_with_its_path() {
    match inspect_file("/tmp/empty.csv", b"  \n\t\n", 4) {
        Err(AppError::Runtime { message, detail }) => {
            assert_eq!(message, "/tmp/empty.csv: file is empty");
            assert!(detail.is_none());
        }
        _ => panic!("expected a runtime error"),
    }
}

#[test]
fn windows_1252_and_bom_are_decoded() {
    assert_eq!(read_decoded(&[0x63, 0x61, 0x66, 0xE9]), "caf\u{e9}");
    assert_eq!(read_decoded(&[0xEF, 0xBB, 0xBF, b'h', b'i']), "hi");
    assert_eq!(read_decoded("plain".as_bytes()), "plain");
}

#[test]
fn create_table_and_insert_batches() {
    let cols = vec![
        CsvColumn { name: "id".into(), sql_type: "INT".into() },
        CsvColumn { name: "we]ird".into(), sql_type: "NVARCHAR(50)".into() },
    ];
    let fq = qualified_table("dbo", "t");
    assert_eq!(fq, "[dbo].[t]");
    assert_eq!(
        create_table_sql(&fq, &cols),
        "CREATE TABLE [dbo].[t] (\n  [id] INT NULL,\n  [we]]ird] NVARCHAR(50) NULL\n)"
    );
    let text_cols = import_columns(&cols, true);
    assert_eq!(text_cols[0].sql_type, "NVARCHAR(MAX)");
    assert_eq!(text_cols[1].name, "we]ird");
    let list = column_list(&cols);
    assert_eq!(list, "[id], [we]]ird]");
    assert_eq!(row_tuple(&vec!["1".into(), "N'a'".into()]), "(1, N'a')");

    let mut b = InsertBatcher::new(fq.clone(), list);
    let mut emitted = vec![];
    for i in 0..(INSERT_BATCH + 2) {
        if let Some(sql) = b.push(format!("({i})")) {
            emitted.push(sql);
        }
    }
    assert_eq!(emitted.len(), 1);
    assert!(emitted[0].starts_with("INSERT INTO [dbo].[t] ([id], [we]]ird]) VALUES (0),(1),"));
    assert_eq!(b.rows_done(), INSERT_BATCH as u64);
    let last = b.finish().unwrap();
    assert_eq!(last, "INSERT INTO [dbo].[t] ([id], [we]]ird]) VALUES (500),(501)");
    assert_eq!(b.rows_done(), 502);
    assert!(b.finish().is_none());
    assert_eq!(import_summary(&fq, 502), "[dbo].[t]: 502 rows");
    assert_eq!(import_delimiter(""), b',');
    assert_eq!(import_delimiter(";x"), b';');
}

#[test]
fn sanitized_names_are_regular_identifiers() {
    for raw in ["2024 sales export!", "  __a--b__  ", "", "!!!", "Ünïcode naмe", "9", "x_y", "a  b\tc"] {
        let id = sanitize_ident(raw, "imported");
        assert!(!id.is_empty());
        assert!(!id.chars().next().unwrap().is_ascii_digit());
        assert!(id.chars().all(|c| c.is_ascii_alphanumeric() || c == '_'), "{id}");
    }
    assert_eq!(sanitize_ident("2024 sales export!", "t"), "_2024_sales_export");
    assert_eq!(sanitize_ident("!!!", "imported"), "imported");
    assert_eq!(sanitize_ident("  __a--b__  ", "t"), "a_b");
}

#[test]
fn repeated_header_names_are_told_apart() {
    let info = inspect("/tmp/r.csv", "a,A,a\n1,2,3\n");
    let names: Vec<&str> = info.columns.iter().map(|c| c.name.as_str()).collect();
    assert_eq!(names, vec!["a", "A_2", "a_3"]);
    let info = inspect("/tmp/r.csv", "a,a,a_2\n1,2,3\n");
    let names: Vec<&str> = info.columns.iter().map(|c| c.name.as_str()).collect();
    assert_eq!(names, vec!["a", "a_3", "a_2"]);
    let info = inspect("/tmp/r.csv", "x,X_2,x,X\n1,2,3,4\n");
    let names: Vec<String> = info.columns.iter().map(|c| c.name.to_lowercase()).collect();
    for i in 0..names.len() {
        for j in i + 1..names.len() {
            assert_ne!(names[i], names[j]);
        }
    }
}

fn col(name: &str, sql_type: &str) -> CsvColumn {
    CsvColumn { name: name.into(), sql_type: sql_type.into() }
}

fn literals(row: &[ImportValue]) -> Vec<String> {
    row.iter()
        .map(|v| match v {
            ImportValue::Literal(l) => l.clone(),
            ImportValue::Float(f) => format!("float:{f}"),
        })
        .collect()
}

#[test]
fn import_rows_turn_records_into_literals() {
    let cols = vec![col("id", "INT"), col("name", "NVARCHAR(MAX)"), col("price", "FLOAT")];
    let (rows, stop) = import_rows("id,name,price\n1,it's, 2.5 \n2\n", b',', true, "f.csv", &cols);
    assert!(stop.is_none());
    assert_eq!(rows.len(), 2);
    assert_eq!(literals(&rows[0]), vec!["1", "N'it''s'", "float:2.5"]);
    assert_eq!(literals(&rows[1]), vec!["2", "N''", "NULL"]);
    let (rows, stop) = import_rows("7;x\n", b';', false, "f.csv", &cols[..2].to_vec());
    assert!(stop.is_none());
    assert_eq!(literals(&rows[0]), vec!["7", "N'x'"]);
}

#[test]
fn import_rows_stop_at_the_first_bad_value() {
    let cols = vec![col("id", "INT"), col("name", "NVARCHAR(MAX)")];
    let (rows, stop) = import_rows("1,a\nzz,b\n3,c\n", b',', false, "data.csv", &cols);
    assert_eq!(rows.len(), 1);
    assert_eq!(literals(&rows[0]), vec!["1", "N'a'"]);
    match stop {
        Some(AppError::Runtime { message, detail }) => {
            assert_eq!(message, "data.csv, data row 2, column [id]: 'zz' is not a valid integer");
            assert!(detail.is_some());
        }
        _ => panic!("expected a runtime error"),
    }
}

#[test]
fn sniffing_prefers_the_most_consistent_candidate() {
    assert_eq!(sniff_delimiter("a,b;c;d\n1,2;3;4\n"), b';');
    assert_eq!(sniff_delimiter("a,b;c\n1,2;3\n"), b',');
    assert_eq!(sniff_delimiter("a\tb|c\n1\t2|3|4\n"), b'\t');
    assert_eq!(sniff_delimiter("a,b\nno delimiter here\n"), b',');
    assert_eq!(sniff_delimiter("x|y\n\n   \n1|2\n"), b'|');
    assert_eq!(sniff_delimiter(""), b',');
}

#[test]
fn sanitizing_twice_changes_nothing() {
    for raw in ["2024 sales export!", "!!!", "  __a--b__  ", "Name", "a  b", "_9", "ééé", ""] {
        let once = sanitize_ident(raw, "imported");
        assert_eq!(sanitize_ident(&once, "imported"), once);
        assert!(!once.contains("__") && !once.ends_with('_'));
    }
    assert_eq!(sanitize_ident("-- ++ --", "column3"), "column3");
}
