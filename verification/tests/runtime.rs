use bakehouse::error::AppError;
use bakehouse::runtime::apple::{
    ReadyStep,
    apiserver_from_ps, copy_in_script, exec_args, exec_failure_output, image_listed, log_tail,
    oneshot_args, path_has_prefix, pull_args, run_args, state_from_status, AppleContainerRuntime,
};
use bakehouse::runtime::reports::{
    image_in_listed, image_present_in_json, managed_from_list_json, managed_from_rows, state_from_inspect_json,
    state_from_inspected,
};
use bakehouse::runtime::process::failure_message;
use bakehouse::runtime::{ContainerSpec, ContainerState};

fn s(v: &[&str]) -> Vec<String> {
    v.iter().map(|x| x.to_string()).collect()
}

#[test]
fn runtime_paths_and_ownership() {
    let rt = AppleContainerRuntime::new("/Applications/B.app/rt".into(), "/a".into(), "/l".into());
    assert_eq!(rt.cli.binary, "/Applications/B.app/rt/bin/container");
    assert!(rt.ours("/Applications/B.app/rt/bin/container-apiserver"));
    assert!(!rt.ours("/Applications/B.app/rt2/bin/container-apiserver"));
    assert!(!rt.ours("/usr/local/bin/container-apiserver"));
    assert!(path_has_prefix("/a//b/./c", "/a/b"));
    assert!(!path_has_prefix("a/b", "/a"));
    let args = rt.system_start_args();
    assert_eq!(args, s(&["system", "start", "--app-root", "/a", "--install-root", "/Applications/B.app/rt", "--log-root", "/l", "--enable-kernel-install", "--timeout", "60"]));
}

#[test]
fn command_lines() {
    let spec = ContainerSpec {
        name: "bh-1".into(),
        image: "img".into(),
        memory_mb: 4096,
        env: vec![("A".into(), "1".into()), ("B".into(), "x=y".into())],
        volumes: vec![("bh-1-data".into(), "/var/opt/mssql".into())],
    };
    assert_eq!(
        run_args(&spec),
        s(&["run", "-d", "--rosetta", "--arch", "amd64", "-m", "4096M", "-l", "com.bakehouse.managed=true", "--name", "bh-1", "-e", "A=1", "-e", "B=x=y", "-v", "bh-1-data:/var/opt/mssql", "img"])
    );
    assert_eq!(
        oneshot_args("img", "root", &spec.volumes, &s(&["sh", "-c", "true"])),
        s(&["run", "--rm", "--rosetta", "--arch", "amd64", "--user", "root", "-v", "bh-1-data:/var/opt/mssql", "img", "sh", "-c", "true"])
    );
    assert_eq!(exec_args("bh-1", &s(&["rm", "-f", "x"]), true), s(&["exec", "--user", "root", "bh-1", "rm", "-f", "x"]));
    assert_eq!(exec_args("bh-1", &s(&["ls"]), false), s(&["exec", "bh-1", "ls"]));
    assert_eq!(pull_args("img"), s(&["image", "pull", "--platform", "linux/amd64", "img"]));
    assert_eq!(failure_message(&s(&["stop", "bh-1"])), "`container stop bh-1` failed");
    assert_eq!(copy_in_script("/tmp/it's.bak"), "cat > '/tmp/it'\\''s.bak'");
}

#[test]
fn reading_runtime_reports() {
    assert!(image_listed(&s(&["other", "repo:tag"]), "repo:tag@sha256:abc"));
    assert!(!image_listed(&s(&["repo:other"]), "repo:tag@sha256:abc"));
    match state_from_status(Some("running"), Some("192.168.64.5/24")) {
        ContainerState::Running { ip } => assert_eq!(ip, "192.168.64.5"),
        _ => panic!(),
    }
    assert_eq!(state_from_status(Some("stopped"), None), ContainerState::Stopped);
    assert_eq!(state_from_status(None, None), ContainerState::Stopped);
    assert_eq!(log_tail("a\nb\r\nc\n", 2), "b\nc");
    assert_eq!(log_tail("a\nb", 10), "a\nb");
    assert_eq!(
        apiserver_from_ps("COMM\n/sbin/launchd\n  /x/bin/container-apiserver  \n/y/bin/container-apiserver\n"),
        Some("/x/bin/container-apiserver".to_string())
    );
    assert_eq!(apiserver_from_ps("COMM\n/bin/zsh\n"), None);
    match exec_failure_output(AppError::Runtime { message: "m".into(), detail: Some("d".into()) }) {
        Ok(out) => assert!(!out.success && out.stderr == "d" && out.stdout.is_empty()),
        _ => panic!(),
    }
    assert!(exec_failure_output(AppError::Internal("x".into())).is_err());
}

#[test]
fn readiness_follows_whose_apiserver_runs() {
    let rt = AppleContainerRuntime::new("/Applications/B.app/rt".into(), "/a".into(), "/l".into());
    assert!(matches!(rt.ready_step(Some("/Applications/B.app/rt/bin/container-apiserver")), ReadyStep::Ready));
    match rt.ready_step(Some("/usr/local/bin/container-apiserver")) {
        ReadyStep::Refuse(AppError::Runtime { message, detail }) => {
            assert_eq!(message, "Another `container` installation is already running on this Mac");
            assert!(detail.unwrap().contains("/usr/local/bin/container-apiserver"));
        }
        _ => panic!(),
    }
    match rt.ready_step(None) {
        ReadyStep::Start(args) => {
            assert_eq!(args[..2], ["system".to_string(), "start".to_string()]);
            assert!(args.contains(&"--enable-kernel-install".to_string()));
        }
        _ => panic!(),
    }
    assert!(rt.stops_on_shutdown(Some("/Applications/B.app/rt/bin/container-apiserver")));
    assert!(!rt.stops_on_shutdown(Some("/Applications/B.app/rt2/bin/container-apiserver")));
    assert!(!rt.stops_on_shutdown(None));
}

#[test]
fn list_json_keeps_labelled_containers_in_order() {
    let json = r#"[
      {"configuration": {"id": "a", "labels": {"com.bakehouse.managed": "true"}}, "status": {"state": "stopped"}},
      {"configuration": {"id": "b", "labels": {}}, "status": {"state": "running"}},
      {"configuration": {"id": "c", "labels": {"com.bakehouse.managed": "false"}}},
      {"configuration": {"labels": {"com.bakehouse.managed": "true"}},
       "status": {"state": "running", "networks": [{"ipv4Address": "192.168.64.7/24"}]}}
    ]"#;
    let m = managed_from_list_json(json).unwrap();
    assert_eq!(m.len(), 2);
    assert_eq!(m[0].name, "a");
    assert_eq!(m[0].state, ContainerState::Stopped);
    assert_eq!(m[1].name, "");
    assert_eq!(m[1].state, ContainerState::Running { ip: "192.168.64.7".into() });
    assert!(managed_from_list_json(r#"{"not": "an array"}"#).unwrap().is_empty());
    match managed_from_list_json("[{") {
        Err(AppError::Internal(m)) => assert!(m.starts_with("bad list JSON: ")),
        _ => panic!(),
    }
}

#[test]
fn image_list_json_matches_reference_or_tag() {
    let json = r#"[{"configuration": {"name": "repo:tag"}}, {"configuration": {}}]"#;
    assert!(image_present_in_json(json, "repo:tag@sha256:abc").unwrap());
    assert!(image_present_in_json(json, "repo:tag").unwrap());
    assert!(!image_present_in_json(json, "repo:other").unwrap());
    assert!(!image_present_in_json("[]", "repo:tag").unwrap());
    match image_present_in_json("nope", "x") {
        Err(AppError::Internal(m)) => assert!(m.starts_with("bad image list JSON: ")),
        _ => panic!(),
    }
}

#[test]
fn inspect_json_gives_first_entry_state() {
    let json = r#"[{"status": {"state": "running", "networks": [{"ipv4Address": "10.0.0.2/16"}]}}]"#;
    assert_eq!(state_from_inspect_json(json).unwrap(), ContainerState::Running { ip: "10.0.0.2".into() });
    assert_eq!(state_from_inspect_json(r#"[{"status": {"state": "exited"}}]"#).unwrap(), ContainerState::Stopped);
    assert_eq!(state_from_inspect_json(r#"[{"status": {"state": "running"}}]"#).unwrap(), ContainerState::Running { ip: String::new() });
    assert_eq!(state_from_inspect_json("[]").unwrap(), ContainerState::NotFound);
    assert!(matches!(state_from_inspect_json("{"), Err(AppError::Internal(_))));
}

#[test]
fn report_rows_read_with_missing_fields_as_absent() {
    let rows: Vec<Vec<Option<String>>> = vec![
        vec![Some("a".into()), Some("true".into()), Some("running".into()), Some("10.1.2.3/24".into())],
        vec![Some("b".into()), Some("false".into())],
        vec![None, Some("true".into())],
        vec![],
    ];
    let m = managed_from_rows(&rows);
    assert_eq!(m.len(), 2);
    assert_eq!((m[0].name.as_str(), &m[0].state), ("a", &ContainerState::Running { ip: "10.1.2.3".into() }));
    assert_eq!((m[1].name.as_str(), &m[1].state), ("", &ContainerState::Stopped));
    let names: Vec<Vec<Option<String>>> = vec![vec![None], vec![Some("repo:tag".into())]];
    assert!(image_in_listed(&names, "repo:tag@sha256:0"));
    assert!(!image_in_listed(&names, "repo:x"));
    assert_eq!(state_from_inspected(&vec![]), ContainerState::NotFound);
    assert_eq!(state_from_inspected(&vec![vec![Some("stopped".into())]]), ContainerState::Stopped);
}
