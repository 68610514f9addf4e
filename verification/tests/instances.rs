use bakehouse::error::AppError;
use bakehouse::instances::connections::{connection_entry, manifest_path, wants_password};
use bakehouse::instances::export::{compose_text, export_files, export_files_at, readme_text, service_name};
use bakehouse::instances::keychain::generate_password;
use bakehouse::instances::lifecycle::{
    after_confirm, after_image_check, after_password, after_pull, after_run, after_runtime, after_sql_poll, begin,
    container_spec, StartStep,
};
use bakehouse::instances::model::{
    image_for_request, image_for_version, sql_versions, Instance, InstanceState, DEFAULT_IMAGE, IMAGE_2019,
};
use bakehouse::instances::registry::Registry;
use bakehouse::runtime::ContainerState;

fn inst(id: &str, name: &str, mem: u32) -> Instance {
    Instance {
        id: id.into(),
        name: name.into(),
        image: "img:1".into(),
        memory_mb: mem,
        sql_memory_mb: 3072,
        created_at: "2024-01-01T00:00:00Z".into(),
    }
}

#[test]
fn new_instances_get_ids_and_memory() {
    let i = Instance::new("dev".into(), 2048, "img".into());
    assert!(i.id.starts_with("bh-"));
    assert_eq!(i.id.len(), 15);
    assert_eq!(i.sql_memory_mb, 1024);
    assert_eq!(i.volume(), format!("{}-data", i.id));
    assert_eq!(Instance::new("x".into(), 8192, "img".into()).sql_memory_mb, 3072);
    assert_eq!(Instance::new("x".into(), 512, "img".into()).sql_memory_mb, 0);
}

#[test]
fn versions_and_images() {
    let v = sql_versions();
    assert_eq!(v.len(), 4);
    assert!(v[1].recommended && v[1].image == DEFAULT_IMAGE);
    assert_eq!(image_for_version("2019"), Some(IMAGE_2019));
    assert_eq!(image_for_version("2000"), None);
    assert_eq!(image_for_request(None).unwrap(), DEFAULT_IMAGE);
    match image_for_request(Some("7")) {
        Err(AppError::Internal(m)) => assert_eq!(m, "unknown SQL Server version '7'"),
        _ => panic!("expected an internal error"),
    }
}

#[test]
fn registry_tracks_states_and_definitions() {
    let mut r = Registry::new(vec![inst("a", "first", 4096)]);
    assert_eq!(r.state("a").label(), "stopped");
    let info = r.add(inst("b", "second", 4096));
    assert_eq!(info.state.label(), "stopped");
    assert_eq!(r.list().len(), 2);
    r.set_state("b", InstanceState::Running { ip: "10.0.0.5".into() });
    assert_eq!(r.running_ip("b").unwrap(), "10.0.0.5");
    match r.running_ip("a") {
        Err(AppError::Runtime { message, .. }) => assert_eq!(message, "instance is not running (state: stopped)"),
        _ => panic!(),
    }
    match r.prepare_start("b") {
        Err(AppError::Runtime { message, .. }) => assert_eq!(message, "instance is already running"),
        _ => panic!(),
    }
    assert_eq!(r.prepare_start("a").unwrap().name, "first");
    match r.get("zzz") {
        Err(AppError::Internal(m)) => assert_eq!(m, "unknown instance zzz"),
        _ => panic!(),
    }
    r.set_state("a", InstanceState::Starting);
    let stop = r.ids_to_stop();
    assert_eq!(stop.len(), 2);
    assert!(r.needs_stop_before_delete("b"));
    assert!(!r.needs_stop_before_delete("a"));
    r.remove("b");
    assert!(r.get("b").is_err());
    assert_eq!(r.state("b").label(), "stopped");
    assert_eq!(r.list().len(), 1);
}

#[test]
fn update_caps_sql_memory() {
    let mut r = Registry::new(vec![inst("a", "first", 4096)]);
    let info = r.update("a", Some("renamed".into()), Some(2048)).unwrap();
    assert_eq!(info.instance.name, "renamed");
    assert_eq!(info.instance.memory_mb, 2048);
    assert_eq!(info.instance.sql_memory_mb, 1024);
    let info = r.update("a", None, Some(8192)).unwrap();
    assert_eq!(info.instance.sql_memory_mb, 1024);
    assert!(r.update("nope", None, None).is_err());
}

#[test]
fn start_sequence_decisions() {
    let d = begin();
    assert!(d.next == StartStep::EnsureRuntime);
    assert_eq!(d.set_state.unwrap().label(), "starting");
    assert!(after_runtime(Ok(())).next == StartStep::CheckImage);
    let d = after_image_check(Ok(false));
    assert!(d.next == StartStep::PullImage);
    assert_eq!(d.set_state.unwrap().label(), "pulling");
    assert!(after_image_check(Ok(true)).next == StartStep::PrepareVolume);
    let d = after_pull(Err(AppError::Internal("net down".into())));
    assert!(d.next == StartStep::Finished);
    match d.set_state.unwrap() {
        InstanceState::Failed { stage, detail } => {
            assert_eq!(stage, "pull");
            assert_eq!(detail, "net down");
        }
        _ => panic!(),
    }
    let (d, pw) = after_password(Ok("pw".into()));
    assert!(d.next == StartStep::RunContainer && pw.as_deref() == Some("pw"));
    let (d, pw) = after_password(Err(AppError::Internal("no".into())));
    assert!(d.next == StartStep::Finished && d.set_state.is_none() && d.error.is_some() && pw.is_none());
    assert_eq!(after_run(Ok(())).set_state.unwrap().label(), "waitingForSql");
    assert!(after_sql_poll("x\nSQL Server is now ready for client connections.\n", true, false).next == StartStep::ConfirmRunning);
    assert!(after_sql_poll("starting", true, false).next == StartStep::WaitForSql);
    let d = after_sql_poll("l1\nl2\nl3", false, false);
    match d.error {
        Some(AppError::Runtime { message, detail }) => {
            assert_eq!(message, "SQL Server exited during startup");
            assert_eq!(detail.as_deref(), Some("l3\nl2\nl1"));
        }
        _ => panic!(),
    }
    match after_sql_poll("boot", true, true).set_state.unwrap() {
        InstanceState::Failed { stage, .. } => assert_eq!(stage, "sql-timeout"),
        _ => panic!(),
    }
    let d = after_confirm(Ok(ContainerState::Running { ip: "192.168.64.3".into() }));
    match d.set_state.unwrap() {
        InstanceState::Running { ip } => assert_eq!(ip, "192.168.64.3"),
        _ => panic!(),
    }
    assert!(after_confirm(Ok(ContainerState::Stopped)).error.is_some());
}

#[test]
fn container_spec_has_sorted_environment() {
    let i = inst("bh-0123456789ab", "dev", 4096);
    let s = container_spec(&i, "Secret1".into());
    assert_eq!(s.name, "bh-0123456789ab");
    let keys: Vec<&str> = s.env.iter().map(|(k, _)| k.as_str()).collect();
    assert_eq!(keys, vec!["ACCEPT_EULA", "MSSQL_MEMORY_LIMIT_MB", "MSSQL_SA_PASSWORD"]);
    assert_eq!(s.env[1].1, "3072");
    assert_eq!(s.volumes, vec![("bh-0123456789ab-data".to_string(), "/var/opt/mssql".to_string())]);
}

#[test]
fn passwords_meet_the_policy() {
    for _ in 0..20 {
        let p = generate_password();
        assert_eq!(p.len(), 24);
        let c: Vec<char> = p.chars().collect();
        assert!(c[0].is_ascii_uppercase() && c[1].is_ascii_lowercase() && c[2].is_ascii_digit());
        assert!(c.iter().all(|x| x.is_ascii_alphanumeric()));
    }
}

#[test]
fn compose_export_files() {
    let i = inst("bh-1", "My Dev_DB", 4096);
    assert_eq!(service_name("My Dev_DB"), "my-dev-db");
    let c = compose_text(&i, true);
    assert!(c.starts_with("# Exported from Bakehouse — instance \"My Dev_DB\"\n"));
    assert!(c.contains("\n  my-dev-db:\n    image: img:1\n"));
    assert!(c.contains("      MSSQL_SA_PASSWORD: ${MSSQL_SA_PASSWORD}\n      MSSQL_MEMORY_LIMIT_MB: \"3072\"\n"));
    assert!(c.contains("          memory: 4096M\n"));
    assert!(c.ends_with("volumes:\n  my-dev-db-data:\n"));
    let r = readme_text(&i, false, "2024-02-03");
    assert!(r.contains("Created by Bakehouse on 2024-02-03."));
    assert!(r.ends_with("- Set MSSQL_SA_PASSWORD in the environment (or a .env file) before starting.\n"));
    let files = export_files_at(&i, Some("pw"), "2024-02-03");
    let names: Vec<&str> = files.iter().map(|(n, _)| n.as_str()).collect();
    assert_eq!(names, vec!["docker-compose.yml", ".env", "README.md"]);
    assert_eq!(files[1].1, "MSSQL_SA_PASSWORD=pw\n");
    assert_eq!(export_files_at(&i, None, "d").len(), 2);
}

#[test]
fn manifest_entries() {
    let i = inst("bh-1", "dev", 4096);
    let running = InstanceState::Running { ip: "10.1.2.3".into() };
    assert!(wants_password(&running));
    let e = connection_entry(&i, &running, Some("pw".into()));
    assert_eq!(e.state, "running");
    let c = e.running.unwrap();
    assert_eq!(c.connection_string, "Server=10.1.2.3,1433;User Id=sa;Password=pw;TrustServerCertificate=True");
    assert_eq!(c.sqlcmd, "sqlcmd -S 10.1.2.3,1433 -U sa -P 'pw' -C");
    let e = connection_entry(&i, &InstanceState::Stopped, Some("pw".into()));
    assert!(e.running.is_none());
    assert_eq!(manifest_path("/Users/me"), "/Users/me/.bakehouse/connections.json");
}

#[test]
fn offered_images_are_digest_pinned() {
    for v in sql_versions() {
        let (tag, digest) = v.image.split_once("@sha256:").expect("digest");
        assert!(tag.starts_with("mcr.microsoft.com/mssql/server:"));
        assert_eq!(digest.len(), 64);
        assert!(digest.chars().all(|c| c.is_ascii_digit() || ('a'..='f').contains(&c)));
        assert_eq!(image_for_version(v.id), Some(v.image));
    }
}

#[test]
fn stopping_every_listed_instance_leaves_none_active() {
    let mut r = Registry::new(vec![inst("a", "first", 4096), inst("b", "second", 4096), inst("c", "third", 4096)]);
    r.set_state("a", InstanceState::Running { ip: "10.0.0.2".into() });
    r.set_state("b", InstanceState::WaitingForSql);
    r.set_state("c", InstanceState::Failed { stage: "pull".into(), detail: "x".into() });
    let ids = r.ids_to_stop();
    assert_eq!(ids.len(), 2);
    for id in &ids {
        r.set_state(id, InstanceState::Stopping);
        r.set_state(id, InstanceState::Stopped);
    }
    for id in ["a", "b"] {
        assert!(matches!(r.state(id), InstanceState::Stopped));
    }
    assert!(matches!(r.state("c"), InstanceState::Failed { .. }));
    assert!(r.ids_to_stop().is_empty());
}

fn ymd_shape(d: &str) -> bool {
    let b = d.as_bytes();
    b.len() == 10 && b[4] == b'-' && b[7] == b'-' && b.iter().enumerate().all(|(i, c)| i == 4 || i == 7 || c.is_ascii_digit())
}

#[test]
fn clock_texts_have_their_documented_shapes() {
    let i = Instance::new("dev".into(), 2048, "img".into());
    let t = i.created_at.as_str();
    assert!(t.ends_with('Z') && ymd_shape(&t[..10]) && &t[10..11] == "T" && &t[13..14] == ":" && &t[16..17] == ":");
    let files = export_files(&i, None);
    let readme = &files[files.len() - 1].1;
    assert!(readme.len() > 10);
}
