use bakehouse::error::AppError;
use bakehouse::events::{instance_state_payload, job_done_payload};
use bakehouse::history::like_pattern;
use bakehouse::instances::model::InstanceState;
use bakehouse::instances::store::{corrupt_error, InstanceStore};
use bakehouse::listing::{csv_files, latest_app_log, sort_strings};
use bakehouse::paths::AppPaths;
use bakehouse::setup::setup_status;
use bakehouse::sql::conn::{probe_state_of, sql_err, stream_error_end, trancount_of, DriverError, StreamEnd};
use bakehouse::sql::session::{first_cells, initial_database, keep_in_pool, kill_sql, use_database_sql};

fn s(v: &[&str]) -> Vec<String> {
    v.iter().map(|x| x.to_string()).collect()
}

#[test]
fn app_paths_live_under_app_support() {
    let p = AppPaths::new("/Users/me/Library/Application Support/com.bakehouse.app".into());
    assert_eq!(p.container_root(), "/Users/me/Library/Application Support/com.bakehouse.app/container-root");
    assert_eq!(p.history_db(), "/Users/me/Library/Application Support/com.bakehouse.app/history.db");
    assert_eq!(AppPaths::new("/x/".into()).staging(), "/x/staging");
    let st = InstanceStore::new("/x/instances.json".into());
    assert_eq!(st.temp_path(), "/x/instances.json.tmp");
    assert_eq!(corrupt_error("eof").message(), "instances.json is corrupt: eof");
}

#[test]
fn errors_have_codes_messages_and_details() {
    let e = AppError::runtime("boom".into(), Some("why".into()));
    assert_eq!(e.code(), "runtime");
    assert_eq!(e.message(), "boom");
    assert_eq!(e.detail().as_deref(), Some("why"));
    assert_eq!(AppError::Internal("x".into()).code(), "internal");
    assert!(AppError::Io("disk".into()).detail().is_none());
}

#[test]
fn event_payloads() {
    let p = instance_state_payload("i1", &InstanceState::Failed { stage: "pull".into(), detail: "net".into() });
    assert!(p.state == "failed" && p.detail.as_deref() == Some("net"));
    let p = instance_state_payload("i1", &InstanceState::Running { ip: "1.2.3.4".into() });
    assert_eq!(p.detail.as_deref(), Some("1.2.3.4"));
    assert!(instance_state_payload("i1", &InstanceState::Stopped).detail.is_none());
    let d = job_done_payload("j".into(), &Err(AppError::Internal("bad".into())));
    assert!(!d.ok && d.error.as_deref() == Some("bad"));
    assert!(job_done_payload("j".into(), &Ok(())).ok);
    let st = setup_status(true, false, 0);
    assert!(st.rosetta_installed && !st.eula_accepted && !st.has_instances);
}

#[test]
fn history_and_sessions() {
    assert_eq!(like_pattern(Some("sel")), "%sel%");
    assert_eq!(like_pattern(None), "%%");
    assert_eq!(initial_database(None), "master");
    assert_eq!(kill_sql(-3), "KILL -3");
    assert!(keep_in_pool(2) && !keep_in_pool(3));
    assert_eq!(use_database_sql("a]b"), "USE [a]]b]");
    assert_eq!(first_cells(&vec![s(&["master"]), vec![], s(&["tempdb", "x"])]), s(&["master", "tempdb"]));
}

#[test]
fn driver_reports() {
    let e = sql_err(DriverError::Server { code: 208, message: "Invalid object".into(), line: 3, class: 16 });
    assert_eq!(e.message(), "SQL error 208: Invalid object");
    assert_eq!(e.detail().as_deref(), Some("line 3, severity 16"));
    assert_eq!(sql_err(DriverError::Other("reset".into())).message(), "SQL connection error: reset");
    assert!(matches!(stream_error_end(&vec![208], DriverError::Server { code: 208, message: "m".into(), line: 1, class: 16 }, String::new()), StreamEnd::Clean));
    assert!(matches!(stream_error_end(&vec![], DriverError::Server { code: 50000, message: "m".into(), line: 1, class: 16 }, "p".into()), StreamEnd::ReportThenClean(_)));
    match stream_error_end(&vec![], DriverError::Other("eof".into()), String::new()) {
        StreamEnd::Lost(e) => assert_eq!(e.message(), "connection lost: eof"),
        _ => panic!(),
    }
    assert_eq!(trancount_of(&vec![s(&["2"])]), 2);
    assert_eq!(trancount_of(&vec![s(&["x"])]), 0);
    let (tc, db) = probe_state_of(&vec![s(&["1", "shop"])]);
    assert!(tc == 1 && db == "shop");
}

#[test]
fn file_listings() {
    let sorted = sort_strings(s(&["b", "a", "B", "ab", "a"]));
    assert_eq!(sorted, s(&["B", "a", "a", "ab", "b"]));
    let files = csv_files(&vec![
        ("/d/z.CSV".to_string(), true),
        ("/d/a.csv".to_string(), true),
        ("/d/dir.csv".to_string(), false),
        ("/d/notes.txt".to_string(), true),
    ]);
    assert_eq!(files, s(&["/d/a.csv", "/d/z.CSV"]));
    let logs = s(&["other.txt", "bakehouse.log.2024-01-02", "bakehouse.log.2024-01-10", "bakehouse.log.2023-12-31"]);
    assert_eq!(latest_app_log(&logs), Some(2));
    assert_eq!(latest_app_log(&s(&["x"])), None);
}
