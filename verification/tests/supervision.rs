//! The supervisor of the service, and what servers and commands report.

use cx::cli::Command;
use cx::cli::DesktopArgs;
use cx::cli::DoctorArgs;
use cx::cli::MergeSqliteArgs;
use cx::cli::ServiceSpecArgs;
use cx::control::ControlDaemonInfo;
use cx::control::daemon_start_lines;
use cx::daemon::probe_params;
use cx::desktop::materialize_slot_config_toml;
use cx::doubles::Double;
use cx::entry::runs_startup;
use cx::entry::stats_progress;
use cx::json::render_json;
use cx::provider::alias_for;
use cx::provider::read_config_string;
use cx::provider::read_override_string;
use cx::provider::resolve;
use cx::report::CalibrationReport;
use cx::report::print_stats_calibration;
use cx::resume::ThreadRow;
use cx::resume::copied_resume;
use cx::resume::scrubbed_thread;
use cx::resume::thread_database;
use cx::serve::ServeProbeReport;
use cx::serve::ServeStateFile;
use cx::serve::ServeThreadsReport;
use cx::serve::Signal;
use cx::serve::StopEnd;
use cx::serve::StoppedStep;
use cx::serve::ThreadReport;
use cx::serve;
use cx::service::ServiceChildState;
use cx::service::ServiceStateFile;
use cx::service::ServiceTokenFile;
use cx::service::SignalTarget;
use cx::service::StartStep;
use cx::service::WorkerRecord;
use cx::service;
use cx::session_scrub::unreadable_line_message;
use cx::settings::Toml;
use cx::settings::parse_toml;
use cx::settings::render_inline;
use cx::settings::render_pretty;
use cx::shared::is_blacklisted;
use cx::shared::is_known_shared;
use cx::stats::TokenMix;

fn text(value: &str) -> Option<String> {
    Some(value.to_string())
}

fn server(pid: u32) -> ServeStateFile {
    ServeStateFile {
        schema_version: serve::SERVE_STATE_SCHEMA_VERSION,
        pid,
        slot: "bus1".to_string(),
        target: None,
        listen_url: "ws://127.0.0.1:4500".to_string(),
        readyz_url: "http://127.0.0.1:4500/readyz".to_string(),
        started_at_unix: 7,
    }
}

fn record(group: Option<u32>) -> ServiceStateFile {
    ServiceStateFile {
        schema_version: service::SERVICE_STATE_SCHEMA_VERSION,
        pid: 10,
        process_group_id: group,
        started_at_unix: 7,
        log_file: "/m/service/service.log".to_string(),
        children: vec![ServiceChildState {
            name: "telegram".to_string(),
            pid: 11,
            started_at_unix: 8,
            restarts: 2,
            last_exit: None,
        }],
    }
}

fn spec() -> ServiceSpecArgs {
    ServiceSpecArgs {
        manager_dir: text("/m"),
        codex_bin: None,
        slot: None,
        target: None,
        listen: "ws://127.0.0.1:0".to_string(),
        no_telegram: false,
        telegram_bot_token_env: "TELEGRAM_BOT_TOKEN".to_string(),
        allow_chats: vec![-5],
        acquire_lease: true,
        steal: false,
        log_updates: false,
        app_server_timeout: "600".to_string(),
    }
}

#[test]
fn services_are_waited_for() {
    assert!(matches!(service::start_step(10, Some(10), &None), StartStep::Started));
    assert!(matches!(service::start_step(10, Some(9), &None), StartStep::WaitOn));
    match service::start_step(10, None, &text("exit status: 1")) {
        StartStep::Fail(message) => assert_eq!(
            message,
            "cx service supervisor exited before writing state: exit status: 1"
        ),
        other => panic!("{other:?}"),
    }
}

#[test]
fn groups_are_trusted_only_while_they_are_the_services() {
    let command = text("/usr/local/bin/cx service run --manager-dir /m");
    assert_eq!(
        service::verified_service_process_group(&record(Some(10)), Some(10), &command),
        Some(10)
    );
    assert_eq!(
        service::verified_service_process_group(&record(Some(10)), Some(3), &command),
        None
    );
    assert_eq!(
        service::verified_service_process_group(&record(Some(10)), Some(10), &text("vim")),
        None
    );
    assert_eq!(service::verified_service_process_group(&record(None), Some(10), &command), None);
    assert!(service::service_state_is_current(Some(10), true, false, false));
    assert!(!service::service_state_is_current(None, true, true, false));
    assert!(service::service_stopped(Some(10), false, true, true));
    assert!(!service::service_stopped(None, false, false, true));
}

#[test]
fn signals_go_to_the_supervisor_last() {
    assert_eq!(
        service::signal_service(&record(Some(10)), Some(10), Some(4)),
        vec![SignalTarget::Group(10), SignalTarget::Process(11), SignalTarget::Process(10)]
    );
    assert_eq!(
        service::signal_service(&record(Some(10)), Some(10), Some(10)),
        vec![SignalTarget::Process(11), SignalTarget::Process(10)]
    );
}

#[test]
fn signals_are_sent_to_numbers_of_processes_only() {
    assert_eq!(service::kill_number(SignalTarget::Process(11)), Some(11));
    assert_eq!(service::kill_number(SignalTarget::Group(11)), Some(-11));
    assert_eq!(service::kill_number(SignalTarget::Process(0)), None);
    assert_eq!(service::kill_number(SignalTarget::Group(0)), None);
    assert_eq!(service::kill_number(SignalTarget::Process(i32::MAX as u32)), Some(i32::MAX));
    assert_eq!(service::kill_number(SignalTarget::Process(u32::MAX)), None);
    assert_eq!(service::kill_number(SignalTarget::Group(1 << 31)), None);
}

#[test]
fn the_record_of_the_service_lists_its_workers_first() {
    let workers = vec![WorkerRecord {
        slot: "bus1".to_string(),
        pid: 20,
        started_at_unix: 9,
        generation: 3,
        trouble: text("draining"),
    }];
    let adapter = Some(service::spawn_managed("telegram", 11, 8, 0));
    let written = service::service_state(10, Some(10), 7, "/m/service/service.log", &workers, &adapter);
    assert_eq!(written.pid, 10);
    assert_eq!(written.children.len(), 2);
    assert_eq!(written.children[0].name, "worker:bus1");
    assert_eq!(written.children[0].restarts, 3);
    assert_eq!(written.children[0].last_exit, text("draining"));
    assert_eq!(written.children[1].name, "telegram");
    assert_eq!(written.children[1].pid, 11);
}

#[test]
fn services_report_how_they_are() {
    let started = service::start_report(false, Some(record(None)), "/m/s.json", "/m/s.log");
    assert_eq!(started.state, "started");
    assert_eq!(service::start_report(false, None, "/m/s.json", "/m/s.log").state, "starting");
    assert_eq!(
        service::start_report(true, None, "/m/s.json", "/m/s.log").state,
        "already-running"
    );
    let missing = service::status(None, false, "/m/s.json", "/m/s.log");
    assert_eq!(
        service::print_status(&missing),
        vec!["cx service: missing", "state: /m/s.json", "log: /m/s.log"]
    );
    assert_eq!(service::status(Some(record(None)), true, "", "").state, "running");
    assert_eq!(service::status(Some(record(None)), false, "", "").state, "stale");
    assert_eq!(
        service::print_stop(StopEnd::Stopped { forced: true }, true, "/m/s.json"),
        vec![
            "cx service stop: stopped",
            "state: /m/s.json",
            "stopped: true",
            "cleaned: true",
            "forced: true"
        ]
    );
    assert_eq!(service::log_line(12, "hello"), "[12] hello");
    assert_eq!(
        service::uninstall_line("/l/a.plist", true),
        "removed launchd service: /l/a.plist"
    );
    assert_eq!(
        service::uninstall_line("/l/a.plist", false),
        "launchd service not installed: /l/a.plist"
    );
}

#[test]
fn service_tokens_are_kept_and_deleted() {
    let kept = service::stored_token("123:abc".to_string());
    assert_eq!(kept.telegram, text("123:abc"));
    let kept = service::check_tokens(Ok(kept), "/m/tokens.json").expect("current");
    assert_eq!(
        service::token_status_lines(&Some(kept), "/m/tokens.json"),
        vec!["cx service token: configured", "token_file: /m/tokens.json"]
    );
    let newer = ServiceTokenFile { schema_version: 9, telegram: None };
    assert_eq!(
        service::check_tokens(Ok(newer), "/m/tokens.json").err(),
        text("unsupported service token schema version: 9")
    );
    assert_eq!(
        service::check_tokens(Err("no JSON".to_string()), "/m/tokens.json").err(),
        text("parse /m/tokens.json: no JSON")
    );
    let left = service::deleted_token(Some(service::stored_token("1".to_string())));
    assert_eq!(left.expect("still a file").telegram, None);
    assert!(service::deleted_token(None).is_none());
    assert_eq!(
        service::token_status_lines(&None, "/t"),
        vec!["cx service token: missing", "token_file: /t"]
    );
}

#[test]
fn the_service_starts_its_processes() {
    assert_eq!(
        service::telegram_args(&spec()),
        vec![
            "channel",
            "telegram",
            "run",
            "--manager-dir",
            "/m",
            "--bot-token-env",
            "TELEGRAM_BOT_TOKEN",
            "--app-server-timeout",
            "600",
            "--allow-chat=-5",
            "--acquire-lease",
        ]
    );
    let argv = service::supervisor_argv("/bin/cx", &spec());
    assert_eq!(&argv[..5], &["/bin/cx", "service", "run", "--manager-dir", "/m"]);
    assert_eq!(service::launchctl_target("501\n"), "gui/501");
    assert_eq!(service::launchctl_service("gui/501"), "gui/501/dev.xiaotian.cx.service");
}

#[test]
fn servers_are_recognised() {
    assert!(serve::is_record_of(&Some(server(5)), 5));
    assert!(!serve::is_record_of(&Some(server(5)), 6));
    assert!(!serve::is_record_of(&None, 5));
    assert!(serve::process_looks_like_app_server(true, b"codex app-server --listen x"));
    assert!(!serve::process_looks_like_app_server(false, b"codex app-server"));
    assert!(!serve::process_looks_like_app_server(true, b"vim"));
    assert!(serve::state_is_ready(true, true));
    assert!(!serve::state_is_ready(false, true));
    assert_eq!(serve::check_wait("--wait-timeout", Double { bits: f64::to_bits(1.0) }), Ok(()));
    assert_eq!(
        serve::check_wait("--wait-timeout", Double { bits: 0 }),
        Err("--wait-timeout must be positive".to_string())
    );
    assert_eq!(Signal::Terminate.kill_arg(), "-TERM");
    assert_eq!(Signal::Kill.kill_arg(), "-KILL");
    assert_eq!(serve::stopped_step(false, false), StoppedStep::Stopped);
    assert_eq!(serve::stopped_step(true, false), StoppedStep::WaitOn);
    assert_eq!(serve::stopped_step(true, true), StoppedStep::TimedOut);
}

#[test]
fn servers_report_how_they_are() {
    assert_eq!(
        serve::start_lines("bus1", &text("work"), "ws://127.0.0.1:1", "ws://127.0.0.1:2"),
        vec![
            "cx serve slot: bus1",
            "cx serve target: work",
            "cx serve listen: ws://127.0.0.1:1",
            "cx serve upstream: ws://127.0.0.1:2",
        ]
    );
    let stopped =
        serve::stop_report(StopEnd::TimedOut { forced: true }, true, "/m/s.json", Some(server(5)));
    assert_eq!(stopped.state, "timeout");
    assert!(!stopped.stopped && !stopped.cleaned && stopped.forced);
    let probe = ServeProbeReport {
        listen_url: "ws://127.0.0.1:1".to_string(),
        ready: true,
        state_file: None,
        slot: text("bus1"),
        target: None,
        user_agent: "codex/1".to_string(),
        codex_home: "/h".to_string(),
        platform_family: "unix".to_string(),
        platform_os: "macos".to_string(),
        thread_count: 4,
    };
    assert_eq!(
        serve::print_probe(&probe),
        vec![
            "cx serve probe: ok",
            "listen: ws://127.0.0.1:1",
            "ready: true",
            "slot: bus1",
            "user_agent: codex/1",
            "codex_home: /h",
            "platform: unix/macos",
            "threads_seen: 4",
        ]
    );
    let threads = ServeThreadsReport {
        listen_url: "ws://127.0.0.1:1".to_string(),
        ready: false,
        state_file: text("/m/s.json"),
        slot: None,
        target: None,
        threads: vec![ThreadReport {
            upstream_thread_id: "t1".to_string(),
            title: text("Fix it"),
            preview: String::new(),
            cwd: "/w".to_string(),
            source: "cli".to_string(),
            status: "idle".to_string(),
            active: false,
            created_at_unix: 1,
            updated_at_unix: -2,
        }],
    };
    assert_eq!(
        serve::print_threads(&threads),
        vec![
            "cx serve threads: 1",
            "listen: ws://127.0.0.1:1",
            "ready: false",
            "state: /m/s.json",
            "t1\tidle\tcli\t-2\tFix it",
        ]
    );
    let info = ControlDaemonInfo {
        pid: 3,
        socket: "/m/control.sock".to_string(),
        started_at_unix: 4,
    };
    assert_eq!(
        daemon_start_lines(&info),
        vec![
            "cx serve daemon: ready",
            "pid: 3",
            "socket: /m/control.sock",
            "started_at_unix: 4",
        ]
    );
    assert_eq!(render_json(&probe_params()), "{\"refreshToken\":false}");
}

#[test]
fn copied_threads_are_marked() {
    let source = ThreadRow {
        id: "old".to_string(),
        rollout_path: "/old.jsonl".to_string(),
        created_at: 1,
        updated_at: 2,
        source: "cli".to_string(),
        model_provider: "openai".to_string(),
        cwd: "/w".to_string(),
        title: "Fix it".to_string(),
        sandbox_policy: "read-only".to_string(),
        approval_mode: "never".to_string(),
        tokens_used: 3,
        has_user_event: 1,
        archived: 0,
        archived_at: None,
        git_sha: None,
        git_branch: text("main"),
        git_origin_url: None,
        cli_version: "1".to_string(),
        first_user_message: "hi".to_string(),
        agent_nickname: None,
        agent_role: None,
        memory_mode: "on".to_string(),
        model: None,
        reasoning_effort: None,
        agent_path: None,
        created_at_ms: None,
        updated_at_ms: None,
        thread_source: None,
        preview: "hi".to_string(),
        recency_at: 5,
        recency_at_ms: 6,
    };
    let copy = scrubbed_thread(source, "new", "/new.jsonl", "custom");
    assert_eq!(copy.id, "new");
    assert_eq!(copy.rollout_path, "/new.jsonl");
    assert_eq!(copy.model_provider, "custom");
    assert_eq!(copy.title, "Fix it (scrubbed)");
    assert_eq!(copy.git_branch, text("main"));
    assert_eq!(copy.recency_at_ms, 6);
    let ready = copied_resume("new");
    assert!(ready.scrubbed);
    assert_eq!(ready.session_id, "new");
    assert_eq!(thread_database("/h"), "/h/sqlite/state_5.sqlite");
    assert_eq!(
        unreadable_line_message("/a.jsonl", 7, "expected value"),
        "parse /a.jsonl line 7: expected value"
    );
}

#[test]
fn settings_are_looked_up() {
    let lines = vec![
        "not toml =".to_string(),
        "model = \"gpt-5\"".to_string(),
        "model = \"later\"".to_string(),
    ];
    assert_eq!(read_override_string(&lines, "model"), text("gpt-5"));
    assert_eq!(read_override_string(&lines, "provider"), None);
    let config = text("model_provider = \"azure\"\n");
    assert_eq!(read_config_string(&config, "/c.toml", "model_provider"), Ok(text("azure")));
    assert_eq!(read_config_string(&None, "/c.toml", "model"), Ok(None));
    let reason = toml::from_str::<toml::Value>("= broken").unwrap_err().to_string();
    assert!(!reason.is_empty());
    assert_eq!(
        read_config_string(&text("= broken"), "/c.toml", "model"),
        Err(format!("parse /c.toml: {reason}"))
    );
}

#[test]
fn broken_overrides_are_named_with_the_reason() {
    let reason = |line: &str| toml::from_str::<toml::Value>(line).unwrap_err().to_string();
    let lines = vec!["model = \"gpt-5\"".to_string(), "model =".to_string()];
    assert_eq!(
        resolve(&None, "/c.toml", &lines),
        Err(format!("parse Codex override #2: {}", reason("model =")))
    );
    assert_eq!(
        resolve(&text("[open"), "/c.toml", &lines),
        Err(format!("parse Codex config from /c.toml: {}", reason("[open")))
    );
    assert_eq!(
        materialize_slot_config_toml(&text("[open"), &vec![]),
        Err(format!("parse config.toml: {}", reason("[open")))
    );
    assert_eq!(
        materialize_slot_config_toml(&None, &lines),
        Err(format!("parse override line: model =: {}", reason("model =")))
    );
}

#[test]
fn values_that_no_text_can_hold_are_refused() {
    let impossible = Toml::Moment("2026-02-31".to_string());
    assert!(render_inline(&impossible).is_none());
    assert!(render_inline(&Toml::Fraction("half".to_string())).is_none());
    assert_eq!(render_inline(&Toml::Text("a\"b".to_string())), text("'a\"b'"));

    let provider = Toml::Table(vec![("since".to_string(), impossible)]);
    let config = Toml::Table(vec![
        ("model_provider".to_string(), Toml::Text("mine".to_string())),
        ("model_providers".to_string(), Toml::Table(vec![("mine".to_string(), provider)])),
    ]);
    assert_eq!(
        alias_for(&config),
        Err("model provider `mine` cannot be written as TOML".to_string())
    );
    assert_eq!(render_pretty(&config), Err("unreadable fraction or time".to_string()));
    assert!(render_pretty(&Toml::Bool(true)).is_err());
}

#[test]
fn fractions_and_times_are_written_as_they_were_read() {
    let source = "a = 1.5\nb = -0.0\nc = 1e300\nd = nan\ne = -inf\nf = [0.1, 2.0]\n\
        g = 2026-01-02T03:04:05.678-11:30\nh = 1979-05-27\ni = 07:32:00.000001\n\
        j = 2024-02-29t23:59:60z\n[k]\nl = { m = 2000-01-01 00:00:00+00:00 }\n";
    let direct = toml::from_str::<toml::Value>(source).expect("TOML");
    let read = parse_toml(source).expect("TOML");
    assert_eq!(render_pretty(&read), Ok(toml::to_string_pretty(&direct).expect("a table")));
    assert_eq!(render_inline(&read), Some(direct.to_string()));
    let overrides = vec!["x = 2.5".to_string(), "k.l.m = 1999-12-31".to_string()];
    let merged = materialize_slot_config_toml(&text(source), &overrides).expect("a file");
    let back = toml::from_str::<toml::Value>(&merged).expect("TOML");
    assert_eq!(back.get("x").and_then(toml::Value::as_float), Some(2.5));
    assert_eq!(back.get("g"), direct.get("g"));
}

#[test]
fn private_files_are_told_from_shared_ones() {
    assert!(is_blacklisted("auth.json"));
    assert!(is_blacklisted("config.toml.bak-1"));
    assert!(!is_blacklisted("config.toml"));
    assert!(is_known_shared("config.toml"));
    assert!(!is_known_shared("auth.json"));
}

#[test]
fn calibrations_are_summed_up() {
    let report = CalibrationReport {
        saved_to: "/m/mix.json".to_string(),
        source_databases: vec!["/a".to_string(), "/b".to_string()],
        source_rollouts: 3,
        samples: 40,
        total_tokens: 1_500_000,
        token_mix: TokenMix {
            uncached_input_share: Double { bits: f64::to_bits(0.1) },
            cached_input_share: Double { bits: f64::to_bits(0.85) },
            output_share: Double { bits: f64::to_bits(0.05) },
        },
    };
    let lines = print_stats_calibration(&report);
    assert_eq!(lines[0], "saved: /m/mix.json");
    assert_eq!(lines[1], "state dbs: 2");
    assert_eq!(lines[3], "samples: 40");
    assert_eq!(lines[5], "mix: 10.00% uncached input, 85.00% cached input, 5.00% output");
}

#[test]
fn most_commands_bring_things_up_to_date_first() {
    let doctor = Command::Doctor(DoctorArgs {
        manager_dir: None,
        online: false,
        timeout: Double { bits: f64::to_bits(2.0) },
        jobs: 8,
        retries: 1,
    });
    assert!(runs_startup(&doctor));
    let merge = Command::MergeSqlite(MergeSqliteArgs { manager_dir: None, dry_run: true });
    assert!(!runs_startup(&merge));
    let desktop = Command::Desktop(DesktopArgs {
        manager_dir: None,
        app_bin: None,
        slot: None,
        target: None,
        cx_debug: false,
        wait: false,
        allow_parallel: false,
        args: Vec::new(),
    });
    assert!(!runs_startup(&desktop));
    assert_eq!(stats_progress(true), "calibrating token mix");
    assert_eq!(stats_progress(false), "collecting stats");
}
