//! Sessions, their leases, and the requests to the daemon.

use cx::control::check_response;
use cx::control::handle_request;
use cx::control::handle_stream;
use cx::control::invalid_request;
use cx::control::need_of;
use cx::control::print_response;
use cx::control::received_line;
use cx::control::session;
use cx::control::stops_after;
use cx::control::ControlCommand;
use cx::control::ControlDaemonInfo;
use cx::control::ControlRequest;
use cx::control::Handled;
use cx::control::Incoming;
use cx::control::Keep;
use cx::control::Need;
use cx::control::Seen;
use cx::control::ServeSessionArgs;
use cx::control::ServeSessionCommand;
use cx::control::StreamStep;
use cx::control::CONTROL_SCHEMA_VERSION;
use cx::doubles::Double;
use cx::paths::ManagerPaths;
use cx::session::acquire_lease;
use cx::session::create_session;
use cx::session::journal_lines;
use cx::session::list_events;
use cx::session::list_sessions;
use cx::session::listed_sessions;
use cx::session::new_session_id;
use cx::session::record_channel_message;
use cx::session::release_lease;
use cx::session::show_session;
use cx::session::AcquireLeaseRequest;
use cx::session::ChannelId;
use cx::session::CreateSessionRequest;
use cx::session::CreateSessionResult;
use cx::session::IdSeed;
use cx::session::JournalEvent;
use cx::session::JournalEventKind;
use cx::session::LeaseResult;
use cx::session::LeaseToken;
use cx::session::Moment;
use cx::session::ReadEvent;
use cx::session::RecordChannelMessageRequest;
use cx::session::ReleaseLeaseRequest;
use cx::session::SessionId;
use cx::session::SessionRecord;

fn paths() -> ManagerPaths {
    ManagerPaths::from_roots("/home/user/codex", "/home/user/profile-manager")
}

fn moment(counter: u64) -> Moment {
    let seed = |n: u64| IdSeed { process: 7, counter: counter * 3 + n, now_nanos: 1_000 };
    Moment { now: 1_800_000_000, session_seed: seed(0), lease_seed: seed(1), event_seed: seed(2) }
}

fn session_id(raw: &str) -> SessionId {
    SessionId::parse(raw).expect("a session name")
}

fn channel(raw: &str) -> ChannelId {
    ChannelId::parse(raw).expect("a channel name")
}

fn create(name: &str, channel_name: &str, exists: bool) -> Result<CreateSessionResult, String> {
    create_session(
        &paths(),
        CreateSessionRequest {
            session_id: Some(session_id(name)),
            channel_id: channel(channel_name),
        },
        exists,
        moment(1),
    )
}

fn acquire(
    record: SessionRecord,
    channel_name: &str,
    steal: bool,
    count: u64,
) -> Result<LeaseResult, String> {
    acquire_lease(
        &paths(),
        record,
        AcquireLeaseRequest {
            session_id: session_id("sess_manual"),
            channel_id: channel(channel_name),
            steal,
        },
        moment(count),
    )
}

fn daemon_info() -> ControlDaemonInfo {
    ControlDaemonInfo {
        pid: 123,
        socket: String::from("/tmp/cx-control.sock"),
        started_at_unix: 1_800_000_000,
    }
}

fn handle(command: ControlCommand, seen: Seen) -> Handled {
    handle_request(ControlRequest::new(command), &daemon_info(), &paths(), seen, moment(2))
}

#[test]
fn session_id_rejects_path_like_values() {
    let err = SessionId::parse("sess_bad/value").unwrap_err();

    assert!(err.contains("unsupported"));
}

#[test]
fn channel_id_accepts_adapter_prefix() {
    let channel = ChannelId::parse("telegram:12345").unwrap();

    assert_eq!(channel.as_str(), "telegram:12345");
}

#[test]
fn new_names_differ_and_can_be_read() {
    let first = new_session_id(&paths(), moment(1).session_seed);
    let second = new_session_id(&paths(), moment(2).session_seed);
    assert_ne!(first.as_str(), second.as_str());
    assert_eq!(session_id(first.as_str()).as_str(), first.as_str());
    assert_eq!(first.as_str().len(), "sess_".len() + 40);
}

#[test]
fn create_session_writes_registry_and_journal() {
    let result = create("sess_manual", "terminal", false).unwrap();

    assert_eq!(result.session.session_id.as_str(), "sess_manual");
    assert_eq!(result.event.event_kind, JournalEventKind::SessionCreated);
    let file = "/home/user/profile-manager/sessions/sess_manual.json".to_string();
    let sessions = listed_sessions(vec![(file, Ok(result.session))]).unwrap();
    assert_eq!(sessions.len(), 1);
    assert_eq!(result.event.event_kind.text(), "session-created");
    let journal = format!("{:?}", result.event);
    assert!(!journal.contains("auth"));
    assert!(!journal.contains("env"));
}

#[test]
fn duplicate_session_id_is_rejected() {
    create("sess_manual", "terminal", false).unwrap();
    let err = create("sess_manual", "terminal", true).unwrap_err();

    assert!(err.contains("already exists"));
}

#[test]
fn acquire_and_release_lease_updates_session_and_journal() {
    let created = create("sess_manual", "terminal", false).unwrap();

    let acquired = acquire(created.session, "telegram:12345", false, 2).unwrap();

    assert_eq!(acquired.session.lease_epoch, 1);
    assert_eq!(acquired.session.current_channel_id.as_str(), "telegram:12345");
    assert_eq!(acquired.event.event_kind, JournalEventKind::LeaseAcquired);
    let token = acquired.session.active_lease.as_ref().unwrap().lease_token.copy();

    let released = release_lease(
        &paths(),
        acquired.session,
        ReleaseLeaseRequest { session_id: session_id("sess_manual"), lease_token: token },
        moment(3),
    )
    .unwrap();

    assert_eq!(released.session.lease_epoch, 1);
    assert!(released.session.active_lease.is_none());
    assert_eq!(released.event.event_kind, JournalEventKind::LeaseReleased);
}

#[test]
fn release_rejects_wrong_lease_token() {
    let created = create("sess_manual", "terminal", false).unwrap();
    let acquired = acquire(created.session, "terminal", false, 2).unwrap();

    let err = release_lease(
        &paths(),
        acquired.session,
        ReleaseLeaseRequest {
            session_id: session_id("sess_manual"),
            lease_token: LeaseToken::parse("lease_0000000000000000000000000000000000000000")
                .unwrap(),
        },
        moment(3),
    )
    .unwrap_err();

    assert!(err.contains("does not match"));
}

#[test]
fn acquire_requires_steal_when_lease_is_active() {
    let created = create("sess_manual", "terminal", false).unwrap();
    let acquired = acquire(created.session, "terminal", false, 2).unwrap();
    let again = create("sess_manual", "terminal", false).unwrap();
    let held = acquire(again.session, "terminal", false, 2).unwrap();

    let err = acquire(acquired.session, "telegram:12345", false, 3).unwrap_err();
    assert!(err.contains("active lease"));

    let stolen = acquire(held.session, "telegram:12345", true, 3).unwrap();
    assert_eq!(stolen.session.lease_epoch, 2);
    assert_eq!(stolen.session.current_channel_id.as_str(), "telegram:12345");
}

#[test]
fn record_channel_message_appends_metadata_only_event() {
    let created = create("sess_manual", "telegram:42", false).unwrap();
    let stored = show_session(Ok(created.session), "/sessions/sess_manual.json");

    let event = record_channel_message(
        &paths(),
        RecordChannelMessageRequest {
            session_id: session_id("sess_manual"),
            channel_id: channel("telegram:42"),
        },
        stored,
        moment(2),
    )
    .unwrap();

    assert_eq!(event.event_kind, JournalEventKind::ChannelMessageReceived);
    assert_eq!(event.event_kind.text(), "channel-message-received");
    assert_eq!(event.session_id.as_str(), "sess_manual");
    assert_eq!(event.channel_id.as_str(), "telegram:42");
    assert_ne!(event.event_id.as_str(), created.event.event_id.as_str());
    assert!(!format!("{event:?}").contains("message text"));
}

#[test]
fn messages_to_unknown_sessions_are_not_recorded() {
    let missing = show_session(Err("EOF while parsing".to_string()), "/s.json");
    let refused = record_channel_message(
        &paths(),
        RecordChannelMessageRequest {
            session_id: session_id("sess_gone"),
            channel_id: channel("terminal"),
        },
        missing,
        moment(2),
    );
    assert_eq!(refused.unwrap_err(), "parse /s.json: EOF while parsing");
}

#[test]
fn events_have_words_in_the_journal() {
    assert_eq!(JournalEventKind::SessionCreated.text(), "session-created");
    assert_eq!(JournalEventKind::LeaseAcquired.text(), "lease-acquired");
    assert_eq!(JournalEventKind::LeaseReleased.text(), "lease-released");
    assert_eq!(JournalEventKind::ChannelMessageReceived.text(), "channel-message-received");
}

fn events() -> Vec<JournalEvent> {
    vec![
        create("sess_one", "terminal", false).unwrap().event,
        create("sess_two", "telegram:12345", false).unwrap().event,
    ]
}

#[test]
fn list_events_filters_by_session() {
    let read = events()
        .into_iter()
        .enumerate()
        .map(|(index, event)| ReadEvent { number: index + 1, event: Ok(event) })
        .collect::<Vec<_>>();

    let found = list_events(read, "/journal", Some(&session_id("sess_two"))).unwrap();

    assert_eq!(found.len(), 1);
    assert_eq!(found[0].session_id.as_str(), "sess_two");
}

#[test]
fn journals_are_read_line_by_line() {
    let lines = journal_lines("{\"a\":1}\n\n  \n{\"b\":2}\n");
    assert_eq!(lines.len(), 2);
    assert_eq!(lines[1].number, 4);
    let broken = vec![ReadEvent { number: 4, event: Err("expected value".to_string()) }];
    assert_eq!(
        list_events(broken, "/journal", None).unwrap_err(),
        "parse /journal line 4: expected value"
    );
}

#[test]
fn sessions_are_listed_by_name_and_checked() {
    let two = create("sess_two", "terminal", false).unwrap().session;
    let one = create("sess_one", "terminal", false).unwrap().session;
    let listed = list_sessions(vec![two, one]);
    assert_eq!(listed[0].session_id.as_str(), "sess_one");
    let mut odd = create("sess_odd", "terminal", false).unwrap().session;
    odd.schema_version = 9;
    assert!(show_session(Ok(odd), "/s").unwrap_err().contains("9"));
    assert_eq!(
        show_session(Err("missing field `status`".to_string()), "/s").unwrap_err(),
        "parse /s: missing field `status`"
    );
}

#[test]
fn directories_of_sessions_are_listed() {
    let entry = |name: &str, at: u64| {
        let mut record = create(name, "terminal", false).unwrap().session;
        record.created_at_unix = at;
        (format!("/sessions/{name}.json"), Ok(record))
    };
    let half_written = ("/sessions/sess_c.tmp".to_string(), Err("unused".to_string()));
    let bare = ("/sessions/json".to_string(), Err("unused".to_string()));
    let listed = listed_sessions(vec![
        entry("sess_b", 5),
        half_written,
        entry("sess_a", 5),
        bare,
        entry("sess_z", 4),
    ])
    .unwrap();
    let names = listed.iter().map(|record| record.session_id.as_str()).collect::<Vec<_>>();
    assert_eq!(names, vec!["sess_z", "sess_a", "sess_b"]);

    let broken = ("/sessions/sess_d.json".to_string(), Err("first".to_string()));
    let worse = ("/sessions/sess_e.json".to_string(), Err("second".to_string()));
    assert_eq!(listed_sessions(vec![entry("sess_b", 5), broken, worse]).unwrap_err(), "first");
    assert!(listed_sessions(Vec::new()).unwrap().is_empty());
}

#[test]
fn requests_of_another_version_need_nothing() {
    let mut request = ControlRequest::new(ControlCommand::SessionList);
    request.schema_version = 2;
    let handled = handle_request(request, &daemon_info(), &paths(), Seen::Nothing, moment(2));
    assert!(!handled.response.ok);
    assert_eq!(handled.response.message, "unsupported control schema version: 2");
    assert_eq!(handled.keep, Keep::Nothing);
}

#[test]
fn shutdown_request_marks_response() {
    let handled = handle(ControlCommand::Shutdown, Seen::Nothing);

    assert!(handled.response.ok);
    assert_eq!(handled.response.command, "shutdown");
    assert!(handled.response.shutting_down);
    assert!(handled.should_shutdown);
}

#[test]
fn schema_mismatch_is_error_without_shutdown() {
    let mut request = ControlRequest::new(ControlCommand::Shutdown);
    request.schema_version = CONTROL_SCHEMA_VERSION + 1;

    let handled = handle_request(request, &daemon_info(), &paths(), Seen::Nothing, moment(2));

    assert!(!handled.response.ok);
    assert!(!handled.response.shutting_down);
    assert!(!handled.should_shutdown);
    assert!(check_response(&handled.response).is_err());
}

#[test]
fn session_create_request_writes_registry() {
    let command = ControlCommand::SessionCreate {
        session_id: Some(session_id("sess_manual")),
        channel_id: channel("terminal"),
    };
    match need_of(&command, &paths(), moment(2)) {
        Need::Existence(id) => assert_eq!(id.as_str(), "sess_manual"),
        _ => panic!("something else is needed"),
    }

    let handled = handle(command, Seen::Existence(false));

    assert!(handled.response.ok);
    assert!(!handled.should_shutdown);
    assert_eq!(handled.response.session.unwrap().session_id.as_str(), "sess_manual");
    assert_eq!(handled.keep, Keep::Create);
    assert!(handled.journal.is_some());
}

#[test]
fn lease_acquire_request_sets_active_lease() {
    let created = create("sess_manual", "terminal", false).unwrap();
    let command = ControlCommand::LeaseAcquire {
        session_id: session_id("sess_manual"),
        channel_id: channel("telegram:12345"),
        steal: false,
    };

    let handled = handle(command, Seen::Session(Ok(created.session)));

    assert!(handled.response.ok);
    assert!(!handled.should_shutdown);
    assert_eq!(handled.keep, Keep::Replace);
    let session = handled.response.session.unwrap();
    assert_eq!(session.lease_epoch, 1);
    assert!(session.active_lease.is_some());
}

#[test]
fn event_list_request_returns_journal_events() {
    let created = create("sess_manual", "terminal", false).unwrap();
    let command = ControlCommand::EventList { session_id: Some(session_id("sess_manual")) };

    let handled = handle(command, Seen::Events(Ok(vec![created.event])));

    assert!(handled.response.ok);
    assert!(!handled.should_shutdown);
    assert_eq!(handled.response.events.unwrap().len(), 1);
    assert_eq!(handled.keep, Keep::Nothing);
}

#[test]
fn refused_requests_change_nothing() {
    let command = ControlCommand::SessionShow { session_id: session_id("sess_manual") };
    let handled = handle(command, Seen::Session(Err("gone".to_string())));
    assert!(!handled.response.ok);
    assert_eq!(handled.keep, Keep::Nothing);
    assert!(handled.journal.is_none());
    let odd = invalid_request("no JSON", &daemon_info());
    assert_eq!(odd.command, "unknown");
    assert_eq!(odd.message, "invalid control request: no JSON");
}

#[test]
fn responses_are_printed() {
    let handled = handle(ControlCommand::Ping, Seen::Nothing);
    assert!(check_response(&handled.response).is_ok());
    assert!(!print_response(&handled.response).is_empty());
}

#[test]
fn arguments_become_commands() {
    let args = |id: &str, timeout: f64| ServeSessionArgs {
        command: ServeSessionCommand::Show { session_id: id.to_string() },
        manager_dir: None,
        timeout: Double { bits: timeout.to_bits() },
        json: false,
    };
    assert!(matches!(
        session(&args("sess_a", 1.0)),
        Ok(ControlCommand::SessionShow { .. })
    ));
    assert!(session(&args("sess a", 1.0)).is_err());
    assert!(session(&args("sess_a", 0.0)).is_err());
}

#[test]
fn empty_client_connection_is_noop() {
    assert!(matches!(handle_stream(Incoming::Nothing, &daemon_info()), StreamStep::Close));
}

#[test]
fn connections_are_answered() {
    match handle_stream(Incoming::Unreadable("no JSON".to_string()), &daemon_info()) {
        StreamStep::Answer(response) => {
            assert_eq!(response.message, "invalid control request: no JSON");
            assert!(!stops_after(&response, true));
        }
        other => panic!("{other:?}"),
    }
    let request = ControlRequest::new(ControlCommand::Ping);
    assert!(matches!(
        handle_stream(Incoming::Request(request), &daemon_info()),
        StreamStep::Handle(_)
    ));
    let stopping = handle(ControlCommand::Shutdown, Seen::Nothing).response;
    assert!(stops_after(&stopping, true));
    assert!(!stops_after(&stopping, false));
    assert_eq!(received_line("{}\n", "/s"), Ok("{}\n".to_string()));
    assert_eq!(
        received_line("", "/s"),
        Err("empty control response from /s".to_string())
    );
}
