//! The app server, the daemon and the service.

use cx::cli::ServiceSpecArgs;
use cx::daemon::check_handshake;
use cx::daemon::handshake_complete;
use cx::daemon::handshake_request;
use cx::daemon::handshake_result;
use cx::daemon::read_reply;
use cx::daemon::request_result;
use cx::daemon::socket_path;
use cx::daemon::status;
use cx::daemon::ws_key;
use cx::daemon::RpcResponse;
use cx::doubles::Double;
use cx::frames::decode_frame;
use cx::frames::pong_frame;
use cx::frames::ws_send_text;
use cx::frames::Assembly;
use cx::frames::Decoded;
use cx::frames::Frame;
use cx::frames::Received;
use cx::json::render_json;
use cx::json::Json;
use cx::serve::check_state;
use cx::serve::ready_line;
use cx::serve::server_end;
use cx::serve::server_record;
use cx::serve::ready_app_server;
use cx::serve::ready_step;
use cx::serve::registered_app_server;
use cx::serve::server_args;
use cx::serve::stop;
use cx::serve::stop_outcome;
use cx::serve::ListenUrl;
use cx::serve::ReadyStep;
use cx::serve::ServeStateFile;
use cx::serve::Signal;
use cx::serve::StopEnd;
use cx::serve::StopNext;
use cx::serve::StopSeen;
use cx::serve::SERVE_STATE_SCHEMA_VERSION;
use cx::service::append_spec_argv;
use cx::service::launchd_plist;
use cx::service::process_exists;
use cx::service::process_looks_like_service_supervisor;
use cx::service::read_last_lines;
use cx::service::resolve_launchable_command_path;
use cx::service::spawn_managed;
use cx::service::supervise;
use cx::service::telegram_token;
use cx::service::token_from_input;
use cx::service::ChildEvent;
use cx::service::RestartPolicy;
use cx::service::SignalAnswer;
use cx::service::CHILD_RESTART_STABLE_RUNTIME;

fn state(pid: u32, port: &str) -> ServeStateFile {
    ServeStateFile {
        schema_version: SERVE_STATE_SCHEMA_VERSION,
        pid,
        slot: String::from("bus1"),
        target: None,
        listen_url: format!("ws://127.0.0.1:{port}"),
        readyz_url: format!("http://127.0.0.1:{port}/readyz"),
        started_at_unix: 1_800_000_000,
    }
}

fn seconds(value: f64) -> Double {
    Double { bits: value.to_bits() }
}

fn spec(codex_bin: Option<&str>, allow_chats: Vec<i64>) -> ServiceSpecArgs {
    ServiceSpecArgs {
        manager_dir: None,
        codex_bin: codex_bin.map(String::from),
        slot: None,
        target: None,
        listen: "ws://127.0.0.1:0".to_string(),
        no_telegram: false,
        telegram_bot_token_env: "TELEGRAM_BOT_TOKEN".to_string(),
        allow_chats,
        acquire_lease: false,
        steal: false,
        log_updates: false,
        app_server_timeout: "600".to_string(),
    }
}

#[test]
fn parse_rejects_non_loopback_listen_url() {
    let err = ListenUrl::parse("ws://0.0.0.0:1234").unwrap_err();

    assert!(err.contains("loopback"));
}

#[test]
fn parse_accepts_loopback_with_zero_port() {
    let listen = ListenUrl::parse("ws://127.0.0.1:0").unwrap();

    assert_eq!(listen, ListenUrl { host: String::from("127.0.0.1"), port: 0 });
}

#[test]
fn readyz_url_uses_http_scheme() {
    let listen = ListenUrl { host: String::from("127.0.0.1"), port: 17654 };

    assert_eq!(listen.readyz_url(), "http://127.0.0.1:17654/readyz");
}

#[test]
fn addresses_are_read_as_they_are_written() {
    let listen = ListenUrl::parse("ws://127.0.0.1:0").unwrap().resolve(4711);
    assert_eq!(listen.websocket_url(), "ws://127.0.0.1:4711");
    assert_eq!(ListenUrl::parse(&listen.websocket_url()).unwrap(), listen);
    assert!(ListenUrl::parse("http://127.0.0.1:1").is_err());
    let reason = "70000".parse::<u16>().unwrap_err().to_string();
    assert_eq!(
        ListenUrl::parse("ws://127.0.0.1:70000"),
        Err(format!("invalid serve --listen port: 70000: {reason}"))
    );
    let reason = "".parse::<u16>().unwrap_err().to_string();
    assert_eq!(
        ListenUrl::parse("ws://localhost:"),
        Err(format!("invalid serve --listen port: : {reason}"))
    );
}

#[test]
fn registered_app_server_reads_recorded_listen_url_without_probe() {
    let recorded = Some(state(u32::MAX, "9"));

    let server = registered_app_server(&recorded, "/state").unwrap();

    assert_eq!(server, "ws://127.0.0.1:9");
    assert_eq!(
        ready_app_server(&recorded, false, "/state"),
        Err("serve state is stale: /state".to_string())
    );
    assert!(registered_app_server(&None, "/state").is_err());
}

#[test]
fn stop_cleans_stale_state() {
    assert_eq!(stop(seconds(0.1), false, StopSeen::Stale), Ok(StopNext::Done(StopEnd::Stale)));
    assert!(stop_outcome(StopEnd::Stale).is_ok());
}

#[test]
fn servers_are_told_to_end_before_they_are_killed() {
    assert_eq!(stop(seconds(1.0), true, StopSeen::Ready), Ok(StopNext::Send(Signal::Terminate)));
    assert_eq!(
        stop(seconds(1.0), true, StopSeen::AfterTerminate(false)),
        Ok(StopNext::Send(Signal::Kill))
    );
    assert_eq!(
        stop(seconds(1.0), false, StopSeen::AfterTerminate(false)),
        Ok(StopNext::Done(StopEnd::TimedOut { forced: false }))
    );
    assert!(stop_outcome(StopEnd::TimedOut { forced: true }).is_err());
    assert_eq!(
        stop(seconds(0.0), false, StopSeen::Ready),
        Err("--wait-timeout must be positive".to_string())
    );
}

#[test]
fn records_of_another_version_are_refused() {
    let mut odd = state(1, "9");
    odd.schema_version = 77;
    let message = check_state(Ok(odd), "/state").err().expect("refused");
    assert_eq!(message, "unsupported serve state schema version: 77");
    assert_eq!(
        check_state(Err("expected value".to_string()), "/state").err(),
        Some("parse /state: expected value".to_string())
    );
}

#[test]
fn records_hold_the_address_of_the_proxy() {
    let listen = ListenUrl::parse("ws://localhost:0").unwrap().resolve(4711);
    let upstream = listen.upstream(4712);
    assert_eq!(upstream.websocket_url(), "ws://localhost:4712");

    let record = server_record(77, "work", &Some("azure".to_string()), &listen, 1_800_000_000);

    assert_eq!(record.schema_version, 1);
    assert_eq!(record.pid, 77);
    assert_eq!(record.slot, "work");
    assert_eq!(record.target.as_deref(), Some("azure"));
    assert_eq!(record.listen_url, "ws://localhost:4711");
    assert_eq!(record.readyz_url, "http://localhost:4711/readyz");
    assert_eq!(record.started_at_unix, 1_800_000_000);
    assert_eq!(ready_line(&record), "cx serve ready: http://localhost:4711/readyz");
    assert!(check_state(Ok(record), "/state").is_ok());
}

#[test]
fn servers_end_well_or_with_their_status() {
    assert_eq!(server_end(true, "exit status: 0"), Ok(()));
    assert_eq!(
        server_end(false, "exit status: 3"),
        Err("codex app-server exited with exit status: 3".to_string())
    );
}

#[test]
fn servers_are_waited_for() {
    assert!(matches!(ready_step(&None, false, false), ReadyStep::WaitOn));
    assert!(matches!(ready_step(&None, true, true), ReadyStep::Ready));
    match ready_step(&Some("exit status: 1".to_string()), true, false) {
        ReadyStep::Fail(message) => {
            assert_eq!(message, "codex app-server exited before ready with exit status: 1");
        }
        _ => panic!("the exit went unnoticed"),
    }
    assert_eq!(
        server_args("ws://127.0.0.1:1", &vec!["x".to_string()]),
        vec!["app-server", "--listen", "ws://127.0.0.1:1", "x"]
    );
}

#[test]
fn launchd_plist_escapes_program_arguments() {
    let plist = launchd_plist(
        &vec![
            String::from("/tmp/cx"),
            String::from("service"),
            String::from("run"),
            String::from("--target"),
            String::from("A&B"),
        ],
        "/tmp/cx.log",
        "/tmp/cx.err",
    );

    assert!(plist.contains("<string>A&amp;B</string>"));
    assert!(plist.contains("<string>dev.xiaotian.cx.service</string>"));
}

#[test]
fn service_argv_passes_negative_allow_chat_with_equals() {
    let mut argv = Vec::new();

    append_spec_argv(&mut argv, &spec(None, vec![-1003586916929]));

    assert!(argv.contains(&"--allow-chat=-1003586916929".to_string()));
    assert!(!argv.contains(&"--allow-chat".to_string()));
}

#[test]
fn service_argv_includes_resolved_codex_bin_for_supervised_runs() {
    let resolved = resolve_launchable_command_path(
        "/opt/homebrew/bin/codex",
        &None,
        "/",
        false,
    )
    .unwrap();
    let mut argv = Vec::new();

    append_spec_argv(&mut argv, &spec(Some(&resolved), Vec::new()));

    let codex_bin = argv
        .windows(2)
        .find_map(|window| (window[0] == "--codex-bin").then(|| window[1].clone()));
    assert_eq!(codex_bin, Some(String::from("/opt/homebrew/bin/codex")));
}

#[test]
fn commands_are_found_before_they_are_supervised() {
    let found = resolve_launchable_command_path("codex", &Some("/bin/codex".to_string()), "/d", true);
    assert_eq!(found, Ok("/bin/codex".to_string()));
    let here = resolve_launchable_command_path("codex", &None, "/d", true);
    assert_eq!(here, Ok("/d/codex".to_string()));
    assert!(resolve_launchable_command_path("codex", &None, "/d", false).is_err());
}

#[test]
fn restart_policy_backs_off_to_cap() {
    let mut policy = RestartPolicy::default();

    let delays = (0..7).map(|_| policy.record_exit(1_000)).collect::<Vec<_>>();

    assert_eq!(delays, vec![2, 4, 8, 16, 32, 60, 60]);
}

#[test]
fn restart_policy_resets_after_stable_runtime() {
    let mut policy = RestartPolicy::default();
    assert_eq!(policy.record_exit(1_000), 2);
    assert_eq!(policy.record_exit(1_000), 4);
    assert_eq!(policy.record_exit(1_000), 8);

    let delay = policy.record_exit(CHILD_RESTART_STABLE_RUNTIME);

    assert_eq!(delay, 2);
    assert_eq!(policy.record_exit(1_000), 4);
}

#[test]
fn processes_that_end_are_started_again() {
    let mut child = spawn_managed("app-server", 10, 1_800_000_000, 0);
    let quiet = supervise(&mut child, ChildEvent::Polled(None), 500);
    assert!(!quiet.start);
    assert!(quiet.log.is_none());
    let ended = supervise(&mut child, ChildEvent::Polled(Some("exit status: 1".to_string())), 1_000);
    assert!(!ended.start);
    assert!(ended.log.expect("a line").contains("exit status: 1"));
    assert_eq!(child.last_exit.as_deref(), Some("exit status: 1; restarting in 2s"));
    let soon = supervise(&mut child, ChildEvent::Polled(None), 2_999);
    assert!(!soon.start);
    let due = supervise(&mut child, ChildEvent::Polled(None), 3_000);
    assert!(due.start);
    supervise(&mut child, ChildEvent::Started { pid: 11, now_unix: 1_800_000_003 }, 3_000);
    assert_eq!(child.pid, 11);
    assert_eq!(child.restarts, 1);
}

#[test]
fn process_exists_rejects_invalid_pid_zero() {
    assert!(!process_exists(0, |_| SignalAnswer::Delivered));
}

#[test]
fn process_exists_reports_current_process() {
    assert!(process_exists(4321, |_| SignalAnswer::Delivered));
    assert!(process_exists(5, |_| SignalAnswer::NotPermitted));
    assert!(!process_exists(5, |_| SignalAnswer::Failed));
}

#[test]
fn current_test_process_is_not_service_supervisor() {
    assert!(!process_looks_like_service_supervisor(&Some("/target/serving-test".to_string())));
    assert!(!process_looks_like_service_supervisor(&None));
    assert!(process_looks_like_service_supervisor(&Some("/bin/cx service run".to_string())));
}

#[test]
fn read_last_lines_returns_suffix() {
    let lines = read_last_lines("a\nb\nc\n", 2);

    assert_eq!(lines, vec![String::from("b"), String::from("c")]);
}

#[test]
fn tokens_are_trimmed() {
    assert_eq!(token_from_input(" abc\n"), Ok("abc".to_string()));
    assert_eq!(token_from_input(" \n"), Err("token stdin is empty".to_string()));
    assert_eq!(telegram_token(true, "T", &None), Ok(None));
    assert!(telegram_token(false, "T", &None).is_err());
}

#[test]
fn socket_path_uses_nested_dir_structure() {
    let path = socket_path("/home/user/.codex");
    assert!(path.ends_with("app-server-control/app-server-control.sock"));
    assert!(path.starts_with("/home/user/.codex"));
}

#[test]
fn status_reports_not_running_when_daemon_absent() {
    let seen = status("/home/user/.codex", false, false);
    assert!(!seen.running);
    assert_eq!(seen.socket_path, socket_path("/home/user/.codex"));
    assert!(seen.app_server_version.is_none());
}

#[test]
fn handshakes_are_checked() {
    assert_eq!(ws_key(1, 2), "AQAAAAAAAAACAAAAyv66vg==");
    assert_eq!(ws_key(0xfedc_ba98_7654_3210, u32::MAX), "EDJUdpi63P7/////yv66vg==");
    assert_ne!(ws_key(1, 2), ws_key(2, 2));
    assert!(handshake_request("KEY").contains("Sec-WebSocket-Key: KEY\r\n"));
    assert!(handshake_complete(&b"HTTP/1.1 101 x\r\n\r\n".to_vec()));
    assert!(!handshake_complete(&b"HTTP/1.1 101 x\r\n".to_vec()));
    assert!(handshake_result(b"HTTP/1.1 101 Switching Protocols\r\n\r\n").is_ok());
    assert_eq!(
        check_handshake("HTTP/1.1 400 Bad\r\n\r\n"),
        Err("daemon handshake rejected: HTTP/1.1 400 Bad".to_string())
    );
}

fn response(id: bool, result: Option<Json>, error: Option<&str>) -> RpcResponse {
    RpcResponse {
        id: if id { Some(Json::Text("cx-req".to_string())) } else { None },
        result,
        error: error.map(String::from),
    }
}

#[test]
fn replies_are_told_from_notices() {
    let value = || Some(Json::Array(vec![Json::Bool(true)]));
    for notice in [response(false, None, None), response(false, value(), Some("no"))] {
        let notice = read_reply("{}", Ok(notice)).ok().expect("a notice");
        assert!(request_result("m", notice).is_none());
    }
    let done = read_reply("{}", Ok(response(true, value(), None))).ok().expect("a reply");
    let result = request_result("m", done).expect("a result").expect("a value");
    assert_eq!(render_json(&result), "[true]");
    let failed = read_reply("{}", Ok(response(true, value(), Some("no")))).ok().expect("a reply");
    assert_eq!(
        request_result("m", failed).expect("a result").err(),
        Some("daemon error (m): no".to_string())
    );
    let empty = read_reply("{}", Ok(response(true, None, None))).ok().expect("a reply");
    assert_eq!(
        request_result("m", empty).expect("a result").err(),
        Some("daemon returned empty result".to_string())
    );
    assert_eq!(
        read_reply("no json", Err("expected ident".to_string())).err(),
        Some("parse daemon response: no json: expected ident".to_string())
    );
}

fn frame_of(bytes: &[u8]) -> Frame {
    match decode_frame(&bytes.to_vec()) {
        Decoded::Whole(frame, used) => {
            assert_eq!(used, bytes.len());
            frame
        }
        _ => panic!("no whole frame"),
    }
}

#[test]
fn sent_text_comes_back() {
    for text in ["", "hello", "grüße", &"x".repeat(70_000)] {
        let sent = ws_send_text(text);
        let frame = frame_of(&sent);
        assert!(frame.fin);
        assert_eq!(frame.opcode, 1);
        match Assembly::new().accept(frame) {
            Received::Text(read) => assert_eq!(read, text),
            _ => panic!("no text"),
        }
    }
}

#[test]
fn fragments_are_put_together() {
    let mut assembly = Assembly::new();
    let first = Frame { fin: false, opcode: 1, payload: b"he".to_vec() };
    assert!(matches!(assembly.accept(first), Received::Continue));
    let ping = Frame { fin: true, opcode: 9, payload: b"p".to_vec() };
    match assembly.accept(ping) {
        Received::Reply(bytes) => assert_eq!(bytes, pong_frame(&b"p".to_vec())),
        _ => panic!("no pong"),
    }
    let last = Frame { fin: true, opcode: 0, payload: b"llo".to_vec() };
    match assembly.accept(last) {
        Received::Text(text) => assert_eq!(text, "hello"),
        _ => panic!("no text"),
    }
}

#[test]
fn closing_ends_the_connection() {
    let close = Frame { fin: true, opcode: 8, payload: Vec::new() };
    assert!(matches!(Assembly::new().accept(close), Received::Fail(_)));
    let broken = vec![b'o', 0xff];
    let reason = String::from_utf8(broken.clone()).unwrap_err().to_string();
    match Assembly::new().accept(Frame { fin: true, opcode: 1, payload: broken }) {
        Received::Fail(message) => {
            assert_eq!(message, format!("invalid UTF-8 in daemon response: {reason}"));
        }
        _ => panic!("bytes went through as text"),
    }
    let stray = Frame { fin: true, opcode: 0, payload: Vec::new() };
    let answer = Assembly::new().accept(stray);
    assert!(!matches!(answer, Received::Text(_)));
    assert!(matches!(decode_frame(&vec![0x81]), Decoded::Incomplete(_)));
    let huge = vec![0x81, 127, 0xff, 0xff, 0xff, 0xff, 0xff, 0xff, 0xff, 0xff];
    assert!(matches!(decode_frame(&huge), Decoded::TooLarge(_)));
}
