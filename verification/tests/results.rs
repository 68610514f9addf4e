use bakehouse::error::AppError;
use bakehouse::results::buffer::{cell_at, window_count, ColMeta, ResultSetBuffer};
use bakehouse::results::cell::{Cell, CellKind, ColumnValue};
use bakehouse::results::csv_export::{export_csv_bytes, CsvOptions};
use bakehouse::results::export::{to_tsv, CopyRect};
use bakehouse::results::store::ResultStore;
use bakehouse::results::window::serialize_window;
use bakehouse::sql::conn::StreamEvent;
use bakehouse::sql::executor::{
    editor_line, message_for, row_cap_for, rows_affected_text, BatchRun, ExecTally, MessageKind, Notice, SetCursor,
    ROW_CAP,
};

fn text(s: &str) -> Cell {
    Cell { kind: CellKind::Text, display: s.into() }
}

fn buffer() -> ResultSetBuffer {
    let mut b = ResultSetBuffer::new(vec![
        ColMeta { name: "id".into(), sql_type: "Int4".into() },
        ColMeta { name: "name".into(), sql_type: "NVarchar".into() },
    ]);
    b.rows.push(vec![Cell { kind: CellKind::Number, display: "1".into() }, text("a,b")]);
    b.rows.push(vec![Cell { kind: CellKind::Number, display: "2".into() }, Cell::null()]);
    b.total_seen = 2;
    b
}

#[test]
fn cells_render_values() {
    let c = Cell::from_column_data(&ColumnValue::I32(Some(-5)));
    assert!(c.kind == CellKind::Number && c.display == "-5");
    let c = Cell::from_column_data(&ColumnValue::Bit(Some(true)));
    assert!(c.kind == CellKind::Bool && c.display == "1");
    let c = Cell::from_column_data(&ColumnValue::Binary(Some(vec![0xde, 0xad])));
    assert_eq!(c.display, "0xdead");
    let c = Cell::from_column_data(&ColumnValue::Binary(Some(vec![0u8; 70])));
    assert!(c.display.ends_with('…') && c.display.len() == 2 + 128 + '…'.len_utf8());
    assert!(Cell::from_column_data(&ColumnValue::Text(None)).kind == CellKind::Null);
}

#[test]
fn windows_and_cells_follow_the_sort_order() {
    let mut b = buffer();
    b.sort_perm = Some(vec![1, 0]);
    assert_eq!(b.physical_row(0), Some(1));
    assert_eq!(b.physical_row(2), None);
    let w = serialize_window(&b, 1, 5);
    assert_eq!(&w[0..10], &[1, 0, 0, 0, 1, 0, 0, 0, 2, 0]);
    assert_eq!(w[10], 2);
    assert_eq!(&w[11..15], &[1, 0, 0, 0]);
    assert_eq!(w[15], b'1');
    assert_eq!(cell_at(&b, 0, 1).unwrap().kind, CellKind::Null);
    match cell_at(&b, 0, 5) {
        Err(AppError::Internal(m)) => assert_eq!(m, "col out of range"),
        _ => panic!(),
    }
    assert!(cell_at(&b, 9, 0).is_err());
    assert_eq!(window_count(5000), 2000);
}

#[test]
fn tsv_copies() {
    let b = buffer();
    assert_eq!(to_tsv(&b, None, true), "id\tname\n1\ta,b\n2\tNULL\n");
    let one = CopyRect { row_start: 0, row_end: 0, col_start: 1, col_end: 1 };
    assert_eq!(to_tsv(&b, Some(one), false), "a,b");
}

#[test]
fn csv_export_bytes() {
    let b = buffer();
    let opts = CsvOptions::default();
    let (bytes, n) = export_csv_bytes(&b, &opts).unwrap();
    assert_eq!(n, 2);
    assert_eq!(String::from_utf8(bytes).unwrap(), "id,name\n1,\"a,b\"\n2,\n");
    let opts = CsvOptions { separator: ";".into(), quote: "'".into(), include_header: false, encoding: "utf-8-bom".into(), null_as: "NULL".into() };
    let (bytes, _) = export_csv_bytes(&b, &opts).unwrap();
    assert_eq!(&bytes[..3], &[0xEF, 0xBB, 0xBF]);
    assert_eq!(&bytes[3..], b"1;a,b\n2;NULL\n");
    let mut w = buffer();
    w.rows[0][1] = text("caf\u{e9}");
    let opts = CsvOptions { encoding: "windows-1252".into(), ..CsvOptions::default() };
    let (bytes, _) = export_csv_bytes(&w, &opts).unwrap();
    assert_eq!(bytes, b"id,name\n1,caf\xe9\n2,\n".to_vec());
}

#[test]
fn csv_export_refuses_ragged_rows() {
    let mut b = buffer();
    b.rows[1].pop();
    match export_csv_bytes(&b, &CsvOptions::default()) {
        Err(AppError::Internal(_)) => {}
        _ => panic!("a short row must be refused"),
    }
    let opts = CsvOptions { include_header: false, ..CsvOptions::default() };
    assert!(export_csv_bytes(&b, &opts).is_err());
    let mut c = buffer();
    c.rows[0].pop();
    c.rows[1].pop();
    let opts = CsvOptions { include_header: false, ..CsvOptions::default() };
    let (bytes, n) = export_csv_bytes(&c, &opts).unwrap();
    assert_eq!(n, 2);
    assert_eq!(String::from_utf8(bytes).unwrap(), "1\n2\n");
}

#[test]
fn row_cap_buffers_and_counts() {
    let mut buf = ResultSetBuffer::new(vec![]);
    let mut tally = ExecTally::new();
    let mut cur = SetCursor::new(7);
    let mut reports = vec![];
    for _ in 0..2500 {
        if let Some(p) = cur.accept_row(&mut buf, &mut tally, vec![], 1200) {
            reports.push((p.row_count, p.truncated));
        }
    }
    assert_eq!(buf.rows.len(), 1200);
    assert_eq!(buf.total_seen, 2500);
    assert!(buf.truncated);
    assert_eq!(tally.total_rows, 2500);
    assert_eq!(reports, vec![(1000, false), (2000, true)]);
    let last = cur.final_progress(&buf);
    assert!(last.row_count == 2500 && last.truncated && last.result_set_id == 7);
    assert!(tally.outcome().success);
    assert_eq!(row_cap_for(false), ROW_CAP);
    assert_eq!(row_cap_for(true), usize::MAX);
}

#[test]
fn messages_map_lines_and_mark_errors() {
    let mut tally = ExecTally::new();
    let m = message_for(&StreamEvent::Info { number: 0, line: 2, message: "hi".into() }, 10, &mut tally).unwrap();
    assert!(m.kind == MessageKind::Info && m.line == Some(11) && !tally.any_error);
    let m = message_for(
        &StreamEvent::ServerError { number: 207, class: 16, line: 3, message: "bad".into(), procedure: String::new() },
        5,
        &mut tally,
    )
    .unwrap();
    assert!(m.kind == MessageKind::Error && m.line == Some(7) && tally.any_error);
    let m = message_for(
        &StreamEvent::ServerError { number: 1, class: 16, line: 3, message: "p".into(), procedure: "sp".into() },
        5,
        &mut tally,
    )
    .unwrap();
    assert_eq!(m.line, Some(3));
    let m = message_for(&StreamEvent::RowsAffected(1), 1, &mut tally).unwrap();
    assert_eq!(m.text, "(1 row affected)");
    assert_eq!(rows_affected_text(3), "(3 rows affected)");
    assert!(message_for(&StreamEvent::Row(vec![]), 1, &mut tally).is_none());
    assert_eq!(editor_line(4, 0, false), 4);
    assert!(!tally.outcome().success);
}

#[test]
fn result_ids_are_fresh_and_released_per_execution() {
    let mut s = ResultStore::new();
    let a = s.insert("e1", buffer());
    let b = s.insert("e2", ResultSetBuffer::new(vec![]));
    let c = s.insert("e1", buffer());
    assert!(a != b && b != c && a != c);
    assert!(s.contains(a) && s.contains(c));
    let gone = s.release_execution("e1");
    assert_eq!(gone, vec![a, c]);
    assert!(s.release_execution("e1").is_empty());
    assert!(!s.contains(a) && s.contains(b));
    match s.get(a) {
        Err(AppError::Internal(m)) => assert_eq!(m, format!("result set {a} released")),
        _ => panic!(),
    }
    assert!(s.get(b).unwrap().columns.is_empty());
    assert!(s.release_execution("nope").is_empty());
    let d = s.insert("e1", buffer());
    assert!(d != a && d != c);
}

#[test]
fn stored_result_sets_read_back() {
    let mut s = ResultStore::new();
    let a = s.insert("e1", buffer());
    let b = s.insert("e2", ResultSetBuffer::new(vec![ColMeta { name: "x".into(), sql_type: "Int4".into() }]));
    assert_eq!(s.get(a).unwrap().rows.len(), 2);
    assert_eq!(s.get(b).unwrap().columns[0].name, "x");
    s.get_mut(b).rows.push(vec![text("r")]);
    assert_eq!(s.get(b).unwrap().rows.len(), 1);
    assert_eq!(s.get(a).unwrap().rows.len(), 2);
    s.release_execution("e1");
    assert_eq!(s.get(b).unwrap().rows[0][0].display, "r");
}

#[test]
fn batch_run_routes_events_to_result_sets() {
    let mut store = ResultStore::new();
    let mut tally = ExecTally::new();
    let mut run = BatchRun::new(3, 2);
    let cols = || vec![ColMeta { name: "id".into(), sql_type: "Int4".into() }];
    let n = run.on_event(&mut store, &mut tally, "e", StreamEvent::Row(vec![text("lost")]));
    assert!(n.is_empty());
    let n = run.on_event(&mut store, &mut tally, "e", StreamEvent::ResultSet(cols()));
    let first = match n.as_slice() {
        [Notice::ResultSet(id)] => *id,
        _ => panic!(),
    };
    for v in ["a", "b", "c"] {
        assert!(run.on_event(&mut store, &mut tally, "e", StreamEvent::Row(vec![text(v)])).is_empty());
    }
    let n = run.on_event(&mut store, &mut tally, "e", StreamEvent::Info { number: 0, line: 2, message: "hi".into() });
    match n.as_slice() {
        [Notice::Message(m)] => assert!(m.kind == MessageKind::Info && m.line == Some(4) && m.text == "hi"),
        _ => panic!(),
    }
    let n = run.on_event(&mut store, &mut tally, "e", StreamEvent::ResultSet(cols()));
    let second = match n.as_slice() {
        [Notice::Rows(p), Notice::ResultSet(id)] => {
            assert!(p.result_set_id == first && p.row_count == 3 && p.truncated);
            *id
        }
        _ => panic!(),
    };
    assert!(second != first);
    let b = store.get(first).unwrap();
    assert_eq!(b.rows.len(), 2);
    assert_eq!(b.total_seen, 3);
    let p = run.finish(&store).unwrap();
    assert!(p.result_set_id == second && p.row_count == 0 && !p.truncated);
    assert_eq!(tally.total_rows, 3);
    assert!(tally.outcome().success);
}

#[test]
fn sorted_display_rows_cover_every_row_once() {
    let mut b = buffer();
    b.rows.push(vec![Cell { kind: CellKind::Number, display: "3".into() }, text("c")]);
    b.sort_perm = Some(vec![2, 0, 1]);
    let mut seen: Vec<usize> = (0..3).map(|d| b.physical_row(d).unwrap()).collect();
    assert_eq!(seen, vec![2, 0, 1]);
    seen.sort();
    assert_eq!(seen, vec![0, 1, 2]);
    assert_eq!(b.physical_row(3), None);
}

#[test]
fn single_cell_copy_is_the_bare_value() {
    let mut b = buffer();
    b.rows[0][1] = text("x\ty\nz\r");
    let at = |r: u32, c: u32| CopyRect { row_start: r, row_end: r, col_start: c, col_end: c };
    assert_eq!(to_tsv(&b, Some(at(0, 1)), false), "x y z ");
    assert_eq!(to_tsv(&b, Some(at(1, 1)), false), "NULL");
    b.sort_perm = Some(vec![1, 0]);
    assert_eq!(to_tsv(&b, Some(at(0, 0)), false), "2");
}

#[test]
fn cells_cover_each_kind_of_value() {
    let c = Cell::from_column_data(&ColumnValue::I32(Some(42)));
    assert!(c.kind == CellKind::Number && c.display == "42");
    let c = Cell::from_column_data(&ColumnValue::Bit(Some(false)));
    assert!(c.kind == CellKind::Bool && c.display == "0");
    let c = Cell::from_column_data(&ColumnValue::Text(Some("héllo".into())));
    assert!(c.kind == CellKind::Text && c.display == "héllo");
    let c = Cell::from_column_data(&ColumnValue::Binary(Some(vec![0x00, 0x0f, 0xff])));
    assert!(c.kind == CellKind::Binary && c.display == "0x000fff");
    let c = Cell::from_column_data(&ColumnValue::Binary(Some(vec![0xab; 64])));
    assert_eq!(c.display, format!("0x{}", "ab".repeat(64)));
    for v in [ColumnValue::Binary(None), ColumnValue::I64(None), ColumnValue::Bit(None), ColumnValue::Guid(None)] {
        let c = Cell::from_column_data(&v);
        assert!(c.kind == CellKind::Null && c.display.is_empty());
    }
}
