use bakehouse::sql::batch::split_batches;
use bakehouse::sql::executor::{next_execution, RunPos};

fn sqls(input: &str) -> Vec<String> {
    split_batches(input).into_iter().map(|b| b.sql.trim().to_string()).collect()
}

#[test]
fn single_batch_no_go() {
    assert_eq!(sqls("SELECT 1"), vec!["SELECT 1"]);
}

#[test]
fn splits_on_go() {
    assert_eq!(sqls("SELECT 1\nGO\nSELECT 2"), vec!["SELECT 1", "SELECT 2"]);
}

#[test]
fn go_case_insensitive_and_semicolon() {
    assert_eq!(sqls("SELECT 1\ngo\nSELECT 2\nGO;\nSELECT 3"), vec!["SELECT 1", "SELECT 2", "SELECT 3"]);
}

#[test]
fn go_with_repeat() {
    let b = split_batches("INSERT INTO t DEFAULT VALUES\nGO 3\n");
    assert_eq!(b.len(), 1);
    assert_eq!(b[0].repeat, 3);
}

#[test]
fn go_inside_string_not_split() {
    let sql = "SELECT 'line1\nGO\nline2'";
    assert_eq!(sqls(sql), vec![sql]);
}

#[test]
fn go_inside_block_comment_not_split() {
    let sql = "SELECT 1 /* hello\nGO\nworld */ + 1";
    assert_eq!(sqls(sql), vec![sql]);
}

#[test]
fn nested_block_comments() {
    let sql = "/* a /* nested */\nGO\n still comment */ SELECT 9";
    assert_eq!(sqls(sql).len(), 1);
}

#[test]
fn go_inside_brackets_not_split() {
    let sql = "SELECT [weird\nGO\ncolumn] FROM t";
    assert_eq!(sqls(sql), vec![sql]);
}

#[test]
fn escaped_quotes() {
    let sql = "SELECT 'it''s\nGO\nfine'";
    assert_eq!(sqls(sql), vec![sql]);
}

#[test]
fn go_with_trailing_comment() {
    assert_eq!(sqls("SELECT 1\nGO -- next\nSELECT 2").len(), 2);
}

#[test]
fn goto_is_not_go() {
    let sql = "GOTO label\nGO2\nSELECT 1";
    assert_eq!(sqls(sql).len(), 1);
}

#[test]
fn start_lines_track_correctly() {
    let b = split_batches("SELECT 1\nGO\n\nSELECT 2\nGO\nSELECT 3");
    assert_eq!(b[0].start_line, 1);
    assert_eq!(b[1].start_line, 4); // blank line 3 is skipped; SELECT 2 sits on line 4
    assert_eq!(b[2].start_line, 6);
}

#[test]
fn create_view_batches() {
    let input = "IF OBJECT_ID('v') IS NOT NULL DROP VIEW v\nGO\nCREATE VIEW v AS SELECT 1 AS one\nGO\nSELECT * FROM v";
    let b = split_batches(input);
    assert_eq!(b.len(), 3);
    assert!(b[1].sql.trim().starts_with("CREATE VIEW"));
}

#[test]
fn empty_batches_dropped() {
    assert_eq!(sqls("GO\nGO\nSELECT 1\nGO\nGO").len(), 1);
}

#[test]
fn go_zero_counts_once_and_huge_count_is_not_a_separator() {
    let b = split_batches("SELECT 1\nGO 0\nSELECT 2\nGO 99999999999\n");
    assert_eq!(b.len(), 2);
    assert_eq!(b[0].repeat, 1);
    assert_eq!(b[1].sql, "SELECT 2\nGO 99999999999\n");
}

#[test]
fn batches_are_verbatim_pieces_on_increasing_lines() {
    let input = "\n\nSELECT 1 -- GO\nGO 2\n  \nSELECT 'x'\n\tgo ; \n[a\n]] GO\n";
    let b = split_batches(input);
    assert_eq!(b.len(), 3);
    for w in b.windows(2) {
        assert!(w[0].start_line < w[1].start_line);
    }
    for x in &b {
        assert!(input.contains(x.sql.as_str()));
        assert!(!x.sql.trim().is_empty());
        assert!(x.repeat >= 1);
    }
    assert_eq!(b[0].start_line, 3);
    assert_eq!(b[0].repeat, 2);
    assert_eq!(b[1].start_line, 6);
}

#[test]
fn executions_run_each_batch_repeat_times_in_order() {
    let batches = split_batches("SELECT 1\nGO 2\nSELECT 2\nGO\nSELECT 3\nGO 3\n");
    let mut order = vec![];
    let mut pos = next_execution(&batches, None);
    while let Some(p) = pos {
        order.push(p.batch);
        pos = next_execution(&batches, Some(p));
    }
    assert_eq!(order, vec![0, 0, 1, 2, 2, 2]);
    assert_eq!(next_execution(&batches, Some(RunPos { batch: 0, done: 0 })), Some(RunPos { batch: 0, done: 1 }));
    assert_eq!(next_execution(&vec![], None), None);
}

#[test]
fn batches_start_on_their_first_nonblank_line() {
    let b = split_batches("\n\n  SELECT 1\nGO\n\nSELECT 2");
    assert_eq!(b.iter().map(|x| x.start_line).collect::<Vec<_>>(), vec![3, 6]);
    assert_eq!(b[0].sql, "\n\n  SELECT 1\n");
    assert_eq!(b[1].sql, "\nSELECT 2");
}

#[test]
fn batches_keep_every_non_separator_character_once() {
    let script = "SELECT 1\nGO\n\n  SELECT 2 -- x\n/* GO */\nGO 2\nPRINT 'go'\n";
    let joined: String = split_batches(script).iter().map(|b| b.sql.clone()).collect();
    let strip = |t: &str| t.chars().filter(|c| !c.is_whitespace()).collect::<String>();
    let body: String = script
        .split_inclusive('\n')
        .filter(|l| !matches!(l.trim(), "GO" | "GO 2"))
        .collect();
    assert_eq!(strip(&joined), strip(&body));
}
