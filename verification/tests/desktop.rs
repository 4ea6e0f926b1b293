//! Starting the desktop app.

use std::cell::RefCell;

use cx::desktop::build_desktop_launch_spec;
use cx::desktop::desktop_app_payload;
use cx::desktop::ensure_desktop_not_running_with;
use cx::desktop::ensure_no_running_desktop;
use cx::desktop::launch_lines;
use cx::desktop::normalize_desktop_bin;
use cx::desktop::parse_pgrep_pids;
use cx::desktop::resolve_desktop_bin;
use cx::desktop::running_desktop_process_with;
use cx::desktop::DesktopFiles;
use cx::desktop::DesktopLaunchSpec;
use cx::desktop::RunningDesktop;
use cx::desktop::DEFAULT_DESKTOP_BIN;
use cx::desktop_proxy::is_app_server_command;
use cx::desktop_proxy::rewrite_request_line;
use cx::envfile::set_env;
use cx::envfile::EnvMap;
use cx::paths::ManagerPaths;
use cx::target::TargetSpec;

fn paths() -> ManagerPaths {
    ManagerPaths::from_roots("/root/.codex", "/root/.codex/profile-manager")
}

fn files() -> DesktopFiles {
    DesktopFiles {
        home_is_dir: true,
        overrides: None,
        env: None,
        keychain: None,
        auth: None,
        config: None,
        slot_config: None,
        payload_exists: false,
        cx_exe: "/usr/local/bin/cx".to_string(),
    }
}

fn words(items: &[&str]) -> Vec<String> {
    items.iter().map(|item| item.to_string()).collect()
}

fn launch(
    slot: &str,
    target: Option<TargetSpec>,
    cwd: &str,
    args: &[&str],
    files: DesktopFiles,
) -> Result<DesktopLaunchSpec, String> {
    build_desktop_launch_spec(
        &paths(),
        "/tmp/Codex",
        slot,
        &target,
        cwd,
        &words(args),
        &files,
        &Vec::new(),
        |_, _| panic!("the keychain is not asked"),
    )
}

fn env<'a>(spec: &'a DesktopLaunchSpec, key: &str) -> Option<&'a str> {
    spec.envs.get(key).map(|value| value.as_str())
}

#[test]
fn default_desktop_bin_uses_current_chatgpt_bundle() {
    assert_eq!(DEFAULT_DESKTOP_BIN, "/Applications/ChatGPT.app/Contents/MacOS/ChatGPT");
}

#[test]
fn chatgpt_app_bundle_path_normalizes_to_executable() {
    assert_eq!(
        normalize_desktop_bin("/Applications/ChatGPT.app"),
        "/Applications/ChatGPT.app/Contents/MacOS/ChatGPT"
    );
}

#[test]
fn legacy_codex_app_bundle_path_normalizes_to_executable() {
    assert_eq!(
        normalize_desktop_bin("/Applications/Codex.app"),
        "/Applications/Codex.app/Contents/MacOS/Codex"
    );
}

#[test]
fn running_desktop_guard_blocks_by_default() {
    let message =
        ensure_no_running_desktop(false, Some(RunningDesktop { pids: vec![123, 456] })).unwrap_err();

    assert!(message.contains("ChatGPT Desktop is already running"));
    assert!(message.contains("--allow-parallel"));
    assert!(message.contains("123"));
}

#[test]
fn running_desktop_probe_checks_current_and_legacy_process_names() {
    let probed = RefCell::new(Vec::new());
    let running = running_desktop_process_with(|process_name| {
        probed.borrow_mut().push(process_name.to_string());
        Ok(match process_name {
            "ChatGPT" => vec![456],
            "Codex" => vec![123, 456],
            _ => Vec::new(),
        })
    })
    .unwrap();

    assert_eq!(probed.into_inner(), vec!["ChatGPT", "Codex"]);
    assert_eq!(running.map(|found| found.pids), Some(vec![123, 456]));
}

#[test]
fn running_desktop_guard_allows_explicit_parallel_launch() {
    ensure_no_running_desktop(true, Some(RunningDesktop { pids: vec![123, 456] })).unwrap();
}

#[test]
fn running_desktop_guard_skips_probe_when_parallel_is_allowed() {
    ensure_desktop_not_running_with(true, || {
        panic!("allow-parallel should skip the desktop process probe");
    })
    .unwrap();
}

#[test]
fn running_desktop_guard_asks_otherwise() {
    assert!(ensure_desktop_not_running_with(false, || Ok(None)).is_ok());
    let found = ensure_desktop_not_running_with(false, || {
        Ok(Some(RunningDesktop { pids: vec![9] }))
    });
    assert!(found.is_err());
    let failed = ensure_desktop_not_running_with(false, || Err("no pgrep".to_string()));
    assert_eq!(failed, Err("no pgrep".to_string()));
}

#[test]
fn pgrep_pid_parser_ignores_non_pid_lines() {
    assert_eq!(parse_pgrep_pids(b"123\nnot-a-pid\n456\n"), vec![123, 456]);
}

#[test]
fn desktop_programs_are_looked_for_in_order() {
    let found = resolve_desktop_bin(&None, &None, |path| path.contains("Codex.app"));
    assert_eq!(found, Ok("/Applications/Codex.app/Contents/MacOS/Codex".to_string()));
    let asked = resolve_desktop_bin(&Some("/x/ChatGPT.app".to_string()), &None, |_| false);
    assert_eq!(asked, Ok("/x/ChatGPT.app/Contents/MacOS/ChatGPT".to_string()));
    let missing = resolve_desktop_bin(&None, &None, |_| false).unwrap_err();
    assert!(missing.starts_with("ChatGPT Desktop executable not found; checked "));
}

#[test]
fn desktop_spec_merges_slot_and_target_env() {
    let mut target_env = EnvMap::new();
    set_env(&mut target_env, "TARGET_ONLY", "target");
    set_env(&mut target_env, "SHARED", "target");
    set_env(&mut target_env, "CODEX_SQLITE_HOME", "/tmp/target-wrong");
    let target = TargetSpec {
        name: "work".to_string(),
        slots: words(&["bus1"]),
        overrides: Vec::new(),
        env: target_env,
    };
    let mut read = files();
    read.env = Some(
        "export SLOT_ONLY=\"slot\"\nexport SHARED=\"slot\"\nexport CODEX_SQLITE_HOME=\"/tmp/slot-wrong\"\n"
            .to_string(),
    );

    let spec = launch("bus1", Some(target), "/root/work", &[], read).expect("a launch");

    assert_eq!(spec.codex_home, paths().slot_home("bus1"));
    assert_eq!(env(&spec, "SLOT_ONLY"), Some("slot"));
    assert_eq!(env(&spec, "TARGET_ONLY"), Some("target"));
    assert_eq!(env(&spec, "SHARED"), Some("target"));
    assert_eq!(env(&spec, "CX_DESKTOP_CODEX_PROXY"), Some("1"));
    assert_eq!(env(&spec, "CODEX_APP_SERVER_FORCE_CLI"), Some("1"));
    assert!(env(&spec, "CODEX_CLI_PATH").is_some());
    assert_eq!(env(&spec, "CX_DESKTOP_REAL_CODEX_CLI"), Some("/Resources/codex"));
    assert_eq!(
        env(&spec, "CODEX_SQLITE_HOME"),
        Some(paths().shared_sqlite_home().as_str())
    );
    assert_eq!(spec.launch_cwd, "/root/work");
    assert_eq!(spec.target_name.as_deref(), Some("work"));
    assert_eq!(spec.slot, "bus1");
    assert!(launch_lines(&spec).iter().any(|line| line.contains("bus1")));
}

#[test]
fn desktop_spec_rejects_api_key_env_when_keychain_conf_is_present() {
    let mut read = files();
    read.keychain = Some("service=codex-pat\naccount=test@example.com\n".to_string());
    read.env = Some("OPENAI_API_KEY=sk-test\n".to_string());

    let err = launch("bus1", None, "/root/work", &[], read).err().expect("a conflict");

    assert!(err.contains("OPENAI_API_KEY"));
}

#[test]
fn desktop_spec_prefers_oauth_auth_json_over_keychain_pat() {
    let mut read = files();
    read.auth = Some(
        "{\"auth_mode\":\"chatgpt\",\"tokens\":{\"id_token\":\"header.e30.signature\",\"access_token\":\"oauth-access\",\"refresh_token\":\"oauth-refresh\"},\"last_refresh\":\"2026-01-01T00:00:00Z\"}"
            .to_string(),
    );
    read.keychain = Some("service=cx-test-missing\naccount=missing@example.com\n".to_string());

    let spec = launch("bus1", None, "/root/work", &[], read).expect("a launch");

    assert!(env(&spec, "CODEX_ACCESS_TOKEN").is_none_or(str::is_empty));
}

#[test]
fn desktop_spec_does_not_forward_codex_overrides_to_electron() {
    let mut read = files();
    read.overrides = Some("model=\"gpt-5.5\"\n".to_string());

    let spec =
        launch("bus1", None, "/root/work", &["--enable-logging"], read).expect("a launch");

    assert_eq!(spec.args, words(&["--enable-logging", "--open-project", "/root/work"]));
}

#[test]
fn desktop_spec_materializes_cx_runtime_provider() {
    let mut read = files();
    read.config = Some("model = \"gpt-5.4\"\n".to_string());
    read.overrides = Some(
        "model = \"GLM-5.2\"\nmodel_provider = \"pku\"\nmodel_providers.pku = { name = \"PKU\", base_url = \"https://example.test/v1\", wire_api = \"responses\", env_key = \"OPENAI_API_KEY\", requires_openai_auth = false }\n"
            .to_string(),
    );

    let spec = launch("pku", None, "/root/work", &[], read).expect("a launch");

    assert!(spec.config.contains("model_provider = \"cx\""));
    assert!(spec.config.contains("[model_providers.cx]"));
}

#[test]
fn desktop_spec_prepends_app_payload_for_direct_electron_launch() {
    let mut read = files();
    read.payload_exists = true;
    let bin = "/root/Codex.app/Contents/MacOS/Codex";
    let payload = "/root/Codex.app/Contents/Resources/app.asar";
    assert_eq!(desktop_app_payload(bin).as_deref(), Some(payload));

    let spec = build_desktop_launch_spec(
        &paths(),
        bin,
        "bus1",
        &None,
        "/root/work",
        &Vec::new(),
        &read,
        &Vec::new(),
        |_, _| panic!("the keychain is not asked"),
    )
    .expect("a launch");

    assert_eq!(spec.args, words(&[payload, "--open-project", "/root/work"]));
}

#[test]
fn desktop_spec_adds_current_workspace_root() {
    let spec = launch("bus1", None, "/root/project", &[], files()).expect("a launch");

    assert_eq!(spec.workspace_root, "/root/project");
    assert_eq!(spec.args, words(&["--open-project", "/root/project"]));
}

#[test]
fn desktop_spec_respects_explicit_open_project_arg() {
    let args = ["--open-project", "nested", "--trace-warnings"];
    let spec = launch("bus1", None, "/root/project", &args, files()).expect("a launch");

    assert_eq!(spec.workspace_root, "/root/project/nested");
    assert_eq!(spec.args, words(&args));
}

#[test]
fn desktop_spec_respects_equals_open_project_arg() {
    let args = ["--open-project=/root/other"];
    let spec = launch("bus1", None, "/root/project", &args, files()).expect("a launch");

    assert_eq!(spec.workspace_root, "/root/other");
    assert_eq!(spec.args.len(), 1);
}

#[test]
fn desktop_tokens_come_from_the_keychain() {
    let mut read = files();
    read.keychain = Some("service=codex-pat\naccount=me\n".to_string());
    let spec = build_desktop_launch_spec(
        &paths(),
        "/tmp/Codex",
        "bus1",
        &None,
        "/root/work",
        &Vec::new(),
        &read,
        &Vec::new(),
        |service, account| Ok(Some(format!("at-{service}-{account}"))),
    )
    .expect("a launch");
    assert_eq!(env(&spec, "CODEX_ACCESS_TOKEN"), Some("at-codex-pat-me"));
}

fn rewrite(line: &str) -> Option<serde_json::Value> {
    let rewritten = rewrite_request_line(line.as_bytes())?;
    Some(serde_json::from_slice(&rewritten).unwrap())
}

#[test]
fn default_thread_list_reads_all_providers_without_changing_db_mode() {
    let rewritten = rewrite(
        "{\"id\":7,\"method\":\"thread/list\",\"params\":{\"cursor\":null,\"limit\":100,\"modelProviders\":null,\"sourceKinds\":[\"cli\",\"appServer\"],\"useStateDbOnly\":true}}\n",
    )
    .expect("request should be rewritten");

    assert_eq!(rewritten["params"]["modelProviders"], serde_json::Value::Array(Vec::new()));
    assert_eq!(rewritten["params"]["useStateDbOnly"], true);
    assert_eq!(rewritten["id"], 7);
}

#[test]
fn explicit_provider_filter_is_preserved() {
    let line = "{\"id\":1,\"method\":\"thread/list\",\"params\":{\"modelProviders\":[\"pku\"],\"useStateDbOnly\":true}}\n";

    assert!(rewrite(line).is_none());
}

#[test]
fn detects_app_server_subcommand_after_config_flags() {
    assert!(is_app_server_command(&words(&[
        "-c",
        "features.code_mode_host=true",
        "app-server",
    ])));
    assert!(!is_app_server_command(&words(&["--version"])));
}

#[test]
fn other_lines_pass_unchanged() {
    assert!(rewrite("not json\n").is_none());
    assert!(rewrite("{\"method\":\"thread/read\",\"params\":{}}\n").is_none());
    let bare = rewrite_request_line(b"{\"method\":\"thread/list\",\"params\":{}}").expect("rewritten");
    assert!(!bare.ends_with(b"\n"));
}
