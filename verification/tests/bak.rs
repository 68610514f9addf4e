use bakehouse::bak::{
    backup_set, backup_sql, backup_type_label, check_staged_path, database_state_sql, filelist_sql, fs_fragment,
    header_sql, is_online, new_job_id, new_staged_path, quote_str, restore_sql, server_error_line,
    server_errors_result, server_version_major, stage_step, MoveSpec, RestorePlan, StageStep,
};
use bakehouse::error::AppError;

fn s(v: &[&str]) -> Vec<String> {
    v.iter().map(|x| x.to_string()).collect()
}

#[test]
fn quoting_and_fragments() {
    assert_eq!(quote_str("it's"), "N'it''s'");
    assert_eq!(fs_fragment("My-DB 1"), "My_DB_1");
    assert_eq!(server_version_major("16.0.4135.4"), 16);
    assert_eq!(server_version_major("garbage"), 0);
    assert_eq!(header_sql("/b/x.bak"), "RESTORE HEADERONLY FROM DISK = N'/b/x.bak'");
    assert_eq!(filelist_sql("/b/x.bak", 2), "RESTORE FILELISTONLY FROM DISK = N'/b/x.bak' WITH FILE = 2");
    assert_eq!(backup_type_label("5"), "Differential");
    assert_eq!(backup_type_label("7"), "Type 7");
}

#[test]
fn staged_paths_and_jobs() {
    let p = new_staged_path();
    assert!(p.starts_with("/var/opt/mssql/backup/staged-") && p.ends_with(".bak"));
    assert_eq!(p.len(), "/var/opt/mssql/backup/staged-".len() + 36);
    let j = new_job_id("restore");
    assert!(j.starts_with("restore-") && j.len() == 8 + 32);
    assert!(check_staged_path(&p).is_ok());
    assert!(check_staged_path("/var/opt/mssql/backup/../data/x").is_err());
    assert!(check_staged_path("/var/opt/mssql/backup_x/f.bak").is_err());
    assert!(check_staged_path("/var/opt/mssql/backupf.bak").is_err());
    assert!(check_staged_path("/var/opt/mssql/backup/f.bak").is_ok());
    match check_staged_path("/etc/passwd") {
        Err(AppError::Internal(m)) => assert_eq!(m, "invalid staged path"),
        _ => panic!(),
    }
}

#[test]
fn backup_sets_are_read_from_headers_and_file_lists() {
    let cols = s(&["BackupName", "BackupType", "Position", "DatabaseName", "BackupFinishDate", "SoftwareVersionMajor"]);
    let row = s(&["b", "1", "2", "Shop DB", "2024-01-01", "15"]);
    let fl_cols = s(&["LogicalName", "PhysicalName", "Type"]);
    let fl_rows = vec![
        s(&["shop", "C:\\shop.mdf", "D"]),
        s(&["shop_log", "C:\\shop.ldf", "L"]),
        s(&["shop2", "C:\\shop2.ndf", "D"]),
        s(&["fs", "C:\\fs", "S"]),
    ];
    let set = backup_set(&cols, &row, &fl_cols, &fl_rows);
    assert_eq!(set.file_number, 2);
    assert_eq!(set.database_name, "Shop DB");
    assert_eq!(set.backup_type, "Full");
    assert_eq!(set.software_version_major, 15);
    assert!(set.has_filestream);
    let targets: Vec<&str> = set.files.iter().map(|f| f.suggested_target.as_str()).collect();
    assert_eq!(
        targets,
        vec![
            "/var/opt/mssql/data/Shop_DB_shop.mdf",
            "/var/opt/mssql/data/Shop_DB_shop_log.ldf",
            "/var/opt/mssql/data/Shop_DB_shop2.ndf",
            "/var/opt/mssql/data/Shop_DB_fs.ndf",
        ]
    );
    let bare = backup_set(&s(&[]), &s(&[]), &s(&[]), &vec![]);
    assert_eq!(bare.file_number, 1);
    assert!(!bare.has_filestream && bare.files.is_empty());
}

#[test]
fn restore_and_backup_statements() {
    let plan = RestorePlan {
        staged_path: "/b/s.bak".into(),
        file_number: 1,
        database_name: "Sh]op".into(),
        moves: vec![
            MoveSpec { logical_name: "d".into(), target: "/data/d.mdf".into() },
            MoveSpec { logical_name: "l".into(), target: "/data/l.ldf".into() },
        ],
        replace: true,
    };
    assert_eq!(
        restore_sql(&plan),
        "RESTORE DATABASE [Sh]]op] FROM DISK = N'/b/s.bak' WITH FILE = 1, MOVE N'd' TO N'/data/d.mdf', MOVE N'l' TO N'/data/l.ldf', REPLACE, RECOVERY, STATS = 5"
    );
    assert_eq!(backup_sql("db", "/b/e.bak"), "BACKUP DATABASE [db] TO DISK = N'/b/e.bak' WITH INIT, COMPRESSION, STATS = 10");
    assert_eq!(server_error_line(3201, "cannot open"), "Error 3201: cannot open");
    assert!(server_errors_result(&vec![]).is_ok());
    match server_errors_result(&s(&["Error 1: a", "Error 2: b"])) {
        Err(AppError::Runtime { message, .. }) => assert_eq!(message, "Error 1: a\nError 2: b"),
        _ => panic!(),
    }
    assert_eq!(database_state_sql("x"), "SELECT state_desc FROM sys.databases WHERE name = N'x'");
    assert!(is_online(&vec![s(&["ONLINE"])]));
    assert!(!is_online(&vec![s(&["RESTORING"])]));
    assert!(!is_online(&vec![]));
}

#[test]
fn distinct_texts_quote_distinctly() {
    let texts = ["it's", "it''s", "'", "''", "", "a"];
    for (i, x) in texts.iter().enumerate() {
        for (j, y) in texts.iter().enumerate() {
            assert_eq!(quote_str(x) == quote_str(y), i == j);
        }
    }
}

#[test]
fn staging_reads_each_set_or_discards_the_file() {
    let cols: Vec<String> = vec!["Position".into(), "DatabaseName".into()];
    let none: Vec<Vec<String>> = vec![];
    match stage_step("/var/opt/mssql/backup/x.bak", &cols, &none, 0) {
        StageStep::Discard { remove_args, error } => {
            assert_eq!(remove_args, vec!["rm", "-f", "/var/opt/mssql/backup/x.bak"]);
            assert!(matches!(error, AppError::Runtime { .. }));
        }
        _ => panic!("an empty header must discard the file"),
    }
    let rows: Vec<Vec<String>> = vec![vec!["1".into(), "a".into()], vec!["2".into(), "b".into()]];
    match stage_step("/p.bak", &cols, &rows, 1) {
        StageStep::FileList { row, sql } => {
            assert_eq!(row, 1);
            assert_eq!(sql, filelist_sql("/p.bak", 2));
        }
        _ => panic!(),
    }
    assert!(matches!(stage_step("/p.bak", &cols, &rows, 2), StageStep::Done));
}
