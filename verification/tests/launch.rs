//! Starting Codex.

use cx::commands::is_management_entry_arg;
use cx::entry::entry;
use cx::entry::Entry;
use cx::json::parse_json;
use cx::launcher::launch_mode;
use cx::launcher::parse_run_args;
use cx::launcher::should_skip_stdin_wrapper;
use cx::launcher::split_launcher_args;
use cx::launcher::LaunchMode;
use cx::launcher::LauncherRefusal;
use cx::launcher::RunOptions;
use cx::paths::ManagerPaths;
use cx::piped::build_stdin_prompt;
use cx::piped::piped_invocation;
use cx::provider::resolve;
use cx::router::message_thread_id;
use cx::router::message_turn_id;
use cx::router::route_request;
use cx::router::BrokerRoute;
use cx::run::build_default_command_spec;
use cx::run::build_slot_command_spec;
use cx::run::default_codex_bin_candidates;
use cx::run::find_executable_on_path_with_env;
use cx::run::resolve_codex_bin;
use cx::run::BinSeen;
use cx::run::BinStep;
use cx::run::CodexCommandSpec;
use cx::run::SlotFiles;

fn words(items: &[&str]) -> Vec<String> {
    items.iter().map(|item| item.to_string()).collect()
}

fn paths() -> ManagerPaths {
    ManagerPaths::from_roots("/home/user/codex", "/home/user/profile-manager")
}

fn files() -> SlotFiles {
    SlotFiles { home_is_dir: true, overrides: None, env: None, keychain: None, config: None }
}

fn slot_command(slot: &str, files: SlotFiles) -> Result<CodexCommandSpec, String> {
    build_slot_command_spec(
        &paths(),
        "/bin/codex",
        slot,
        &None,
        &Vec::new(),
        &files,
        &Vec::new(),
        |_, _| panic!("the keychain is not asked"),
    )
}

fn parsed(items: &[&str]) -> RunOptions {
    match parse_run_args(&words(items)) {
        Ok(options) => options,
        Err(_) => panic!("the words were refused"),
    }
}

#[test]
fn management_entry_args_come_from_clap_subcommands() {
    assert!(is_management_entry_arg(Some("status")));
    assert!(is_management_entry_arg(Some("__complete")));
    assert!(is_management_entry_arg(Some("--help")));
    assert!(!is_management_entry_arg(Some("prompt")));
    assert!(!is_management_entry_arg(None));
}

#[test]
fn calls_are_told_apart() {
    assert_eq!(entry(true, Some("status")), Entry::Proxy);
    assert_eq!(entry(false, Some("status")), Entry::Management);
    assert_eq!(entry(false, Some("hello")), Entry::Launcher);
    assert_eq!(entry(false, None), Entry::Launcher);
}

#[test]
fn slot_flag_is_removed_from_forwarded_args() {
    let options = parsed(&["--slot", "bus1", "--", "-m", "gpt-5.4"]);

    assert_eq!(options.slot, Some("bus1".to_string()));
    assert_eq!(options.codex_args, words(&["-m", "gpt-5.4"]));
}

#[test]
fn target_flag_is_removed_from_forwarded_args() {
    let options = parsed(&["--target=research", "--", "-m", "gpt-5.5"]);

    assert_eq!(options.target, Some("research".to_string()));
    assert_eq!(options.codex_args, words(&["-m", "gpt-5.5"]));
}

#[test]
fn version_flag_skips_stdin_wrapper() {
    assert!(should_skip_stdin_wrapper(&words(&["--", "--version"])));
    assert!(should_skip_stdin_wrapper(&words(&["--", "-V"])));
    assert!(!should_skip_stdin_wrapper(&words(&["--", "summarize"])));
}

#[test]
fn sandbox_short_flag_is_forwarded() {
    let options = parsed(&["--", "-s", "workspace-write", "hello"]);

    assert_eq!(options.slot, None);
    assert_eq!(options.codex_args, words(&["-s", "workspace-write", "hello"]));
}

#[test]
fn codex_args_require_separator() {
    match parse_run_args(&words(&["summarize"])) {
        Err(LauncherRefusal::Error(message)) => {
            assert!(message.contains("Codex arguments now require `--`"));
        }
        _ => panic!("the words were not refused"),
    }
}

#[test]
fn launcher_split_preserves_cx_options_for_stdin_relaunch() {
    let split = match split_launcher_args(&words(&["--slot", "dia1", "--", "summarize"])) {
        Ok(split) => split,
        Err(_) => panic!("the words were refused"),
    };

    assert_eq!(split.cx_args, words(&["--slot", "dia1"]));
    assert_eq!(split.codex_args, words(&["summarize"]));
}

#[test]
fn help_is_no_error() {
    match parse_run_args(&words(&["--help"])) {
        Err(LauncherRefusal::Help(text)) => assert!(text.contains("--slot")),
        _ => panic!("no help"),
    }
}

#[test]
fn flags_of_the_launcher_are_read() {
    let options = parsed(&["--cx-quiet", "--cx-debug", "--manager-dir", "/m", "--codex-bin=/c"]);
    assert!(options.quiet);
    assert!(options.debug);
    assert_eq!(options.manager_dir.as_deref(), Some("/m"));
    assert_eq!(options.codex_bin.as_deref(), Some("/c"));
    assert_eq!(options.codex_args.len(), 0);
}

#[test]
fn slot_command_spec_injects_shared_sqlite_home() {
    let mut read = files();
    read.env = Some("CODEX_SQLITE_HOME=/tmp/wrong\n".to_string());

    let spec = slot_command("dia4", read).expect("a command");
    let sqlite_home = spec.envs.get("CODEX_SQLITE_HOME").expect("set").clone();

    assert_eq!(sqlite_home, paths().shared_sqlite_home());
    assert_ne!(sqlite_home, paths().base_codex_home);
}

#[test]
fn default_command_uses_shared_sqlite_and_cx_runtime() {
    let spec = build_default_command_spec(
        &paths(),
        "/bin/codex",
        &words(&["summarize", "this"]),
        &Some("model = \"gpt-5.4\"\n".to_string()),
    )
    .ok()
    .expect("a command");

    assert_eq!(spec.codex_home, paths().base_codex_home);
    assert_eq!(spec.envs.get("CODEX_SQLITE_HOME"), Some(&paths().shared_sqlite_home()));
    assert!(spec.args.iter().any(|arg| arg.contains("model_provider = \"cx\"")));
    assert_eq!(spec.args[spec.args.len() - 2..], ["summarize", "this"]);
}

#[test]
fn slot_command_normalizes_custom_provider_to_cx_runtime() {
    let mut read = files();
    read.config = Some("model = \"gpt-5.4\"\n".to_string());
    read.overrides = Some(
        "model = \"GLM-5.2\"\nmodel_provider = \"pku\"\nmodel_providers.pku = { name = \"PKU\", base_url = \"https://example.test/v1\", wire_api = \"responses\", env_key = \"OPENAI_API_KEY\", requires_openai_auth = false }\n"
            .to_string(),
    );

    let spec = slot_command("pku", read).expect("a command");

    assert!(spec.args.iter().any(|arg| arg.contains("model_provider = \"cx\"")));
    assert!(spec.args.iter().any(|arg| arg.starts_with("model_providers.cx = {")));
    assert!(spec.args.iter().any(|arg| arg.contains("https://example.test/v1")));
}

#[test]
fn slot_command_spec_rejects_api_key_env_when_keychain_conf_is_present() {
    let mut read = files();
    read.keychain = Some("service=codex-pat\naccount=test@example.com\n".to_string());
    read.env = Some("OPENAI_API_KEY=sk-test\n".to_string());

    let err = slot_command("dia4", read).err().expect("a conflict");

    assert!(err.contains("OPENAI_API_KEY"));
}

#[test]
fn find_executable_on_path_uses_absolute_path_entries() {
    let path_env = Some("/opt/cx-path/bin".to_string());
    let is_file = |path: &str| path == "/opt/cx-path/bin/codex";

    assert_eq!(
        find_executable_on_path_with_env("codex", &path_env, is_file),
        Some("/opt/cx-path/bin/codex".to_string())
    );
    assert_eq!(find_executable_on_path_with_env("bin/codex", &path_env, is_file), None);
}

#[test]
fn codex_is_looked_for_in_order() {
    let none = None;
    assert!(matches!(resolve_codex_bin(&none, &none, &BinSeen::Nothing), BinStep::AskMise));
    let mise = BinSeen::Mise(Some(" /mise/codex\n".to_string()));
    match resolve_codex_bin(&none, &none, &mise) {
        BinStep::Use(path) => assert_eq!(path, "/mise/codex"),
        _ => panic!("the path was not used"),
    }
    match resolve_codex_bin(&none, &none, &BinSeen::Fallback(None)) {
        BinStep::Use(path) => assert_eq!(path, "codex"),
        _ => panic!("nothing was used"),
    }
    assert!(default_codex_bin_candidates("/home/user").iter().all(|path| path.starts_with('/')));
}

#[test]
fn slots_without_a_home_cannot_run() {
    let mut read = files();
    read.home_is_dir = false;
    assert!(slot_command("dia4", read).is_err());
}

#[test]
fn default_prompt_wraps_stdin() {
    assert_eq!(
        build_stdin_prompt(&Vec::new(), "hello\n"),
        "Use the following stdin as context.\n\n<stdin>\nhello\n\n</stdin>"
    );
}

#[test]
fn args_become_prompt_when_stdin_is_piped() {
    assert_eq!(
        build_stdin_prompt(&words(&["summarize", "briefly"]), "hello"),
        "summarize briefly\n\n<stdin>\nhello\n</stdin>"
    );
}

#[test]
fn piped_calls_go_through_script() {
    let call = piped_invocation(true, "/bin/cx", "p");
    assert_eq!(call.program, "script");
    assert_eq!(call.args, words(&["-q", "/dev/null", "/bin/cx", "--", "p"]));
    let direct = piped_invocation(false, "/bin/cx", "p");
    assert_eq!(direct.program, "/bin/cx");
    assert_eq!(direct.args, words(&["--", "p"]));
}

#[test]
fn official_openai_uses_first_party_auth_under_cx_alias() {
    let overrides = resolve(
        &None,
        "/path/that/does/not/exist",
        &words(&["model = \"gpt-5.4\""]),
    )
    .unwrap();

    assert!(overrides[1].starts_with("model_providers.cx = {"));
    assert!(overrides[1].contains("name = \"OpenAI\""));
    assert!(overrides[1].contains("requires_openai_auth = true"));
    assert!(overrides[1].contains("supports_websockets = true"));
}

#[test]
fn official_openai_alias_preserves_openai_base_url() {
    let overrides = resolve(
        &None,
        "/path/that/does/not/exist",
        &words(&["openai_base_url = \"https://example.test/v1\""]),
    )
    .unwrap();

    assert!(overrides[1].contains("base_url = \"https://example.test/v1\""));
}

#[test]
fn custom_provider_is_preserved_as_a_cli_compatible_inline_alias() {
    let overrides = resolve(
        &None,
        "/path/that/does/not/exist",
        &words(&[
            "model_provider = \"pku\"",
            "model_providers.pku = { name = \"PKU\", base_url = \"https://example.test/v1\", wire_api = \"responses\", env_key = \"PKU_API_KEY\", requires_openai_auth = false }",
        ]),
    )
    .unwrap();

    let alias = toml::from_str::<toml::Value>(&overrides[1]).unwrap();
    let cx = alias
        .get("model_providers")
        .and_then(|providers| providers.get("cx"))
        .unwrap();
    assert_eq!(
        cx.get("base_url").and_then(toml::Value::as_str),
        Some("https://example.test/v1")
    );
    assert_eq!(cx.get("env_key").and_then(toml::Value::as_str), Some("PKU_API_KEY"));
    assert_eq!(
        cx.get("requires_openai_auth").and_then(toml::Value::as_bool),
        Some(false)
    );
}

#[test]
fn routes_turn_interrupt_by_thread_and_turn() {
    let params = parse_json("{\"threadId\":\"t1\",\"turnId\":\"u1\"}").expect("JSON");
    match route_request("turn/interrupt", Some(&params)) {
        BrokerRoute::TurnInterrupt { thread_id, turn_id } => {
            assert_eq!(thread_id, "t1");
            assert_eq!(turn_id, "u1");
        }
        _ => panic!("another route"),
    }
}

#[test]
fn extracts_thread_id_from_notifications() {
    let message = parse_json(
        "{\"method\":\"item/agentMessage/delta\",\"params\":{\"threadId\":\"thread-1\",\"turnId\":\"turn-1\"}}",
    )
    .expect("JSON");

    assert_eq!(message_thread_id(&message), Some("thread-1".to_string()));
    assert_eq!(message_turn_id(&message), Some("turn-1".to_string()));
}

#[test]
fn requests_without_a_thread_go_to_the_default_worker() {
    assert!(matches!(route_request("model/list", None), BrokerRoute::WorkerDefault));
    assert!(matches!(route_request("initialize", None), BrokerRoute::Initialize));
}

#[test]
fn runs_start_in_different_ways() {
    let mode = |items: &[&str], home: bool, slots: usize| launch_mode(&parsed(items), home, slots);
    assert_eq!(mode(&["--", "login"], false, 3), LaunchMode::Direct);
    assert_eq!(mode(&["--slot", "a", "--", "hello"], false, 3), LaunchMode::Asked);
    assert_eq!(mode(&["--", "hello"], false, 3), LaunchMode::Choose);
    assert_eq!(mode(&["--", "hello"], false, 0), LaunchMode::Default);
}
