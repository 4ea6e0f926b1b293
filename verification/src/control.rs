//! Requests to the daemon that keeps sessions, and its responses.

use vstd::prelude::*;

use crate::doubles::Double;
use crate::numbers::decimal;
use crate::paths::ManagerPaths;
use crate::session::acquire_lease;
use crate::session::create_session;
use crate::session::release_lease;
use crate::session::AcquireLeaseRequest;
use crate::session::ChannelId;
use crate::session::CreateSessionRequest;
use crate::session::EventId;
use crate::session::JournalEvent;
use crate::session::JournalEventKind;
use crate::session::LeaseToken;
use crate::session::Moment;
use crate::session::ReleaseLeaseRequest;
use crate::session::SessionId;
use crate::session::SessionRecord;
use crate::session::SessionStatus;
use crate::text::concat2;
use crate::text::concat3;
use crate::text::copy_of;
use crate::text::extend;
use crate::text::push_text;
use crate::text::same;

verus! {

pub const CONTROL_SCHEMA_VERSION: u64 = 1;

// ---------------------------------------------------------------------------
// Requests
// ---------------------------------------------------------------------------

/// What the daemon is asked to do.
#[derive(Debug)]
#[allow(inconsistent_fields)]
pub enum ControlCommand {
    Ping,
    Shutdown,
    SessionCreate { session_id: Option<SessionId>, channel_id: ChannelId },
    SessionList,
    SessionShow { session_id: SessionId },
    LeaseAcquire { session_id: SessionId, channel_id: ChannelId, steal: bool },
    LeaseRelease { session_id: SessionId, lease_token: LeaseToken },
    EventList { session_id: Option<SessionId> },
}

/// A request to the daemon.
#[derive(Debug)]
pub struct ControlRequest {
    pub schema_version: u64,
    pub command: ControlCommand,
}

impl ControlCommand {
    /// The name of the command.
    pub open spec fn name(self) -> Seq<char> {
        match self {
            ControlCommand::Ping => "ping"@,
            ControlCommand::Shutdown => "shutdown"@,
            ControlCommand::SessionCreate { .. } => "session-create"@,
            ControlCommand::SessionList => "session-list"@,
            ControlCommand::SessionShow { .. } => "session-show"@,
            ControlCommand::LeaseAcquire { .. } => "lease-acquire"@,
            ControlCommand::LeaseRelease { .. } => "lease-release"@,
            ControlCommand::EventList { .. } => "event-list"@,
        }
    }

    /// The name of the command.
    pub fn as_str(&self) -> (out: &'static str)
        ensures
            out@ == self.name(),
    {
        match self {
            ControlCommand::Ping => "ping",
            ControlCommand::Shutdown => "shutdown",
            ControlCommand::SessionCreate { .. } => "session-create",
            ControlCommand::SessionList => "session-list",
            ControlCommand::SessionShow { .. } => "session-show",
            ControlCommand::LeaseAcquire { .. } => "lease-acquire",
            ControlCommand::LeaseRelease { .. } => "lease-release",
            ControlCommand::EventList { .. } => "event-list",
        }
    }
}

impl ControlRequest {
    /// A request of this version.
    pub fn new(command: ControlCommand) -> (out: ControlRequest)
        ensures
            out.schema_version == CONTROL_SCHEMA_VERSION,
            out.command == command,
    {
        ControlRequest { schema_version: CONTROL_SCHEMA_VERSION, command }
    }
}

// ---------------------------------------------------------------------------
// What users ask for
// ---------------------------------------------------------------------------

/// Asks whether the daemon is there. Times are in seconds.
#[derive(Debug)]
pub struct ServePingArgs {
    pub manager_dir: Option<String>,
    pub timeout: Double,
    pub json: bool,
}

/// Asks the daemon to stop.
#[derive(Debug)]
pub struct ServeShutdownArgs {
    pub manager_dir: Option<String>,
    pub timeout: Double,
    pub json: bool,
}

/// Asks for something of sessions.
#[derive(Debug)]
pub enum ServeSessionCommand {
    Create { id: Option<String>, channel: String },
    List,
    Show { session_id: String },
}

/// Asks for something of sessions.
#[derive(Debug)]
pub struct ServeSessionArgs {
    pub command: ServeSessionCommand,
    pub manager_dir: Option<String>,
    pub timeout: Double,
    pub json: bool,
}

/// Asks for something of leases.
#[derive(Debug)]
pub enum ServeLeaseCommand {
    Acquire { session: String, channel: String, steal: bool },
    Release { session: String, token: String },
}

/// Asks for something of leases.
#[derive(Debug)]
pub struct ServeLeaseArgs {
    pub command: ServeLeaseCommand,
    pub manager_dir: Option<String>,
    pub timeout: Double,
    pub json: bool,
}

/// Asks for something of events.
#[derive(Debug)]
pub enum ServeEventCommand {
    List { session: Option<String> },
}

/// Asks for something of events.
#[derive(Debug)]
pub struct ServeEventArgs {
    pub command: ServeEventCommand,
    pub manager_dir: Option<String>,
    pub timeout: Double,
    pub json: bool,
}

/// Why a time to wait is refused.
pub open spec fn bad_timeout() -> Seq<char> {
    "--timeout must be positive"@
}

/// The request that asks whether the daemon is there.
pub fn ping(args: &ServePingArgs) -> (out: Result<ControlCommand, String>)
    ensures
        match out {
            Ok(command) => !args.timeout.is_not_positive() && command == ControlCommand::Ping,
            Err(message) => args.timeout.is_not_positive() && message@ == bad_timeout(),
        },
{
    if args.timeout.not_positive() {
        return Err(copy_of("--timeout must be positive"));
    }
    Ok(ControlCommand::Ping)
}

/// The request that asks the daemon to stop.
pub fn shutdown(args: &ServeShutdownArgs) -> (out: Result<ControlCommand, String>)
    ensures
        match out {
            Ok(command) => !args.timeout.is_not_positive() && command == ControlCommand::Shutdown,
            Err(message) => args.timeout.is_not_positive() && message@ == bad_timeout(),
        },
{
    if args.timeout.not_positive() {
        return Err(copy_of("--timeout must be positive"));
    }
    Ok(ControlCommand::Shutdown)
}

/// Why the name of a session is refused.
pub open spec fn bad_session(raw: Seq<char>, what: Seq<char>) -> Seq<char> {
    what + ": "@ + crate::session::id_refusal(raw, "session id"@, "sess_"@)
}

/// Why the name of a channel is refused.
pub open spec fn bad_channel(raw: Seq<char>) -> Seq<char> {
    "invalid --channel: "@ + crate::session::channel_refusal(raw)
}

/// Why the token of a lease is refused.
pub open spec fn bad_token(raw: Seq<char>) -> Seq<char> {
    "invalid --token: "@ + crate::session::id_refusal(raw, "lease token"@, "lease_"@)
}

fn read_session(raw: &str, what: &str) -> (out: Result<SessionId, String>)
    ensures
        match out {
            Ok(id) => id@ == raw@ && crate::session::is_id(raw@, "sess_"@),
            Err(message) => !crate::session::is_id(raw@, "sess_"@) && message@ == bad_session(
                raw@,
                what@,
            ),
        },
{
    match SessionId::parse(raw) {
        Ok(id) => Ok(id),
        Err(message) => Err(concat3(what, ": ", message.as_str())),
    }
}

fn read_channel(raw: &str) -> (out: Result<ChannelId, String>)
    ensures
        match out {
            Ok(id) => id@ == raw@ && crate::session::is_channel(raw@),
            Err(message) => !crate::session::is_channel(raw@) && message@ == bad_channel(raw@),
        },
{
    match ChannelId::parse(raw) {
        Ok(id) => Ok(id),
        Err(message) => Err(concat2("invalid --channel: ", message.as_str())),
    }
}

fn read_token(raw: &str) -> (out: Result<LeaseToken, String>)
    ensures
        match out {
            Ok(token) => token@ == raw@ && crate::session::is_id(raw@, "lease_"@),
            Err(message) => !crate::session::is_id(raw@, "lease_"@) && message@ == bad_token(raw@),
        },
{
    match LeaseToken::parse(raw) {
        Ok(token) => Ok(token),
        Err(message) => Err(concat2("invalid --token: ", message.as_str())),
    }
}

/// The first thing that is wrong with a request for sessions.
pub open spec fn session_refusal(args: ServeSessionArgs) -> Option<Seq<char>> {
    if args.timeout.is_not_positive() {
        Some(bad_timeout())
    } else {
        match args.command {
            ServeSessionCommand::Create { id, channel } => match id {
                Some(raw) if !crate::session::is_id(raw@, "sess_"@) => Some(
                    bad_session(raw@, "invalid --id"@),
                ),
                _ => if crate::session::is_channel(channel@) {
                    None
                } else {
                    Some(bad_channel(channel@))
                },
            },
            ServeSessionCommand::List => None,
            ServeSessionCommand::Show { session_id } => if crate::session::is_id(
                session_id@,
                "sess_"@,
            ) {
                None
            } else {
                Some(bad_session(session_id@, "invalid session id"@))
            },
        }
    }
}

/// Whether a command asks for what was asked of sessions.
pub open spec fn asks_session(args: ServeSessionArgs, command: ControlCommand) -> bool {
    match (args.command, command) {
        (
            ServeSessionCommand::Create { id, channel },
            ControlCommand::SessionCreate { session_id, channel_id },
        ) => channel_id@ == channel@ && match (id, session_id) {
            (Some(raw), Some(read)) => read@ == raw@,
            (None, None) => true,
            _ => false,
        },
        (ServeSessionCommand::List, ControlCommand::SessionList) => true,
        (
            ServeSessionCommand::Show { session_id: raw },
            ControlCommand::SessionShow { session_id },
        ) => session_id@ == raw@,
        _ => false,
    }
}

/// The request for what was asked of sessions.
pub fn session(args: &ServeSessionArgs) -> (out: Result<ControlCommand, String>)
    ensures
        match out {
            Ok(command) => session_refusal(*args) is None && asks_session(*args, command),
            Err(message) => session_refusal(*args) == Some(message@),
        },
{
    if args.timeout.not_positive() {
        return Err(copy_of("--timeout must be positive"));
    }
    match &args.command {
        ServeSessionCommand::Create { id, channel } => {
            let session_id = match id {
                Some(raw) => match read_session(raw.as_str(), "invalid --id") {
                    Ok(read) => Some(read),
                    Err(message) => {
                        return Err(message);
                    },
                },
                None => None,
            };
            match read_channel(channel.as_str()) {
                Ok(channel_id) => Ok(ControlCommand::SessionCreate { session_id, channel_id }),
                Err(message) => Err(message),
            }
        },
        ServeSessionCommand::List => Ok(ControlCommand::SessionList),
        ServeSessionCommand::Show { session_id } => match read_session(
            session_id.as_str(),
            "invalid session id",
        ) {
            Ok(read) => Ok(ControlCommand::SessionShow { session_id: read }),
            Err(message) => Err(message),
        },
    }
}

/// The first thing that is wrong with a request for leases.
pub open spec fn lease_refusal(args: ServeLeaseArgs) -> Option<Seq<char>> {
    if args.timeout.is_not_positive() {
        Some(bad_timeout())
    } else {
        match args.command {
            ServeLeaseCommand::Acquire { session, channel, steal: _ } => if !crate::session::is_id(
                session@,
                "sess_"@,
            ) {
                Some(bad_session(session@, "invalid --session"@))
            } else if !crate::session::is_channel(channel@) {
                Some(bad_channel(channel@))
            } else {
                None
            },
            ServeLeaseCommand::Release { session, token } => if !crate::session::is_id(
                session@,
                "sess_"@,
            ) {
                Some(bad_session(session@, "invalid --session"@))
            } else if !crate::session::is_id(token@, "lease_"@) {
                Some(bad_token(token@))
            } else {
                None
            },
        }
    }
}

/// Whether a command asks for what was asked of leases.
pub open spec fn asks_lease(args: ServeLeaseArgs, command: ControlCommand) -> bool {
    match (args.command, command) {
        (
            ServeLeaseCommand::Acquire { session, channel, steal: wanted },
            ControlCommand::LeaseAcquire { session_id, channel_id, steal },
        ) => session_id@ == session@ && channel_id@ == channel@ && steal == wanted,
        (
            ServeLeaseCommand::Release { session, token },
            ControlCommand::LeaseRelease { session_id, lease_token },
        ) => session_id@ == session@ && lease_token@ == token@,
        _ => false,
    }
}

/// The request for what was asked of leases.
pub fn lease(args: &ServeLeaseArgs) -> (out: Result<ControlCommand, String>)
    ensures
        match out {
            Ok(command) => lease_refusal(*args) is None && asks_lease(*args, command),
            Err(message) => lease_refusal(*args) == Some(message@),
        },
{
    if args.timeout.not_positive() {
        return Err(copy_of("--timeout must be positive"));
    }
    match &args.command {
        ServeLeaseCommand::Acquire { session, channel, steal } => {
            let session_id = match read_session(session.as_str(), "invalid --session") {
                Ok(read) => read,
                Err(message) => {
                    return Err(message);
                },
            };
            match read_channel(channel.as_str()) {
                Ok(channel_id) => Ok(
                    ControlCommand::LeaseAcquire { session_id, channel_id, steal: *steal },
                ),
                Err(message) => Err(message),
            }
        },
        ServeLeaseCommand::Release { session, token } => {
            let session_id = match read_session(session.as_str(), "invalid --session") {
                Ok(read) => read,
                Err(message) => {
                    return Err(message);
                },
            };
            match read_token(token.as_str()) {
                Ok(lease_token) => Ok(ControlCommand::LeaseRelease { session_id, lease_token }),
                Err(message) => Err(message),
            }
        },
    }
}

/// The request for what was asked of events.
pub fn event(args: &ServeEventArgs) -> (out: Result<ControlCommand, String>)
    ensures
        ({
            let ServeEventCommand::List { session } = args.command;
            match out {
                Ok(ControlCommand::EventList { session_id }) => !args.timeout.is_not_positive() && match (
                    session,
                    session_id,
                ) {
                    (Some(raw), Some(read)) => read@ == raw@ && crate::session::is_id(
                        raw@,
                        "sess_"@,
                    ),
                    (None, None) => true,
                    _ => false,
                },
                Ok(_) => false,
                Err(message) => if args.timeout.is_not_positive() {
                    message@ == bad_timeout()
                } else {
                    session matches Some(raw) && !crate::session::is_id(raw@, "sess_"@)
                        && message@ == bad_session(raw@, "invalid --session"@)
                },
            }
        }),
{
    if args.timeout.not_positive() {
        return Err(copy_of("--timeout must be positive"));
    }
    match &args.command {
        ServeEventCommand::List { session } => match session {
            None => Ok(ControlCommand::EventList { session_id: None }),
            Some(raw) => match read_session(raw.as_str(), "invalid --session") {
                Ok(read) => Ok(ControlCommand::EventList { session_id: Some(read) }),
                Err(message) => Err(message),
            },
        },
    }
}

// ---------------------------------------------------------------------------
// Responses
// ---------------------------------------------------------------------------

/// The daemon that answers.
#[derive(Debug)]
pub struct ControlDaemonInfo {
    pub pid: u32,
    pub socket: String,
    pub started_at_unix: u64,
}

/// A response of the daemon.
#[derive(Debug)]
pub struct ControlResponse {
    pub schema_version: u64,
    pub ok: bool,
    pub command: String,
    pub message: String,
    pub daemon: ControlDaemonInfo,
    pub shutting_down: bool,
    pub session: Option<SessionRecord>,
    pub sessions: Option<Vec<SessionRecord>>,
    pub event_id: Option<EventId>,
    pub events: Option<Vec<JournalEvent>>,
}

/// A response of the daemon, over mathematical values.
pub struct ResponseModel {
    pub ok: bool,
    pub command: Seq<char>,
    pub message: Seq<char>,
    pub shutting_down: bool,
    pub session: Option<crate::session::SessionModel>,
    pub sessions: Option<Seq<crate::session::SessionModel>>,
    pub event_id: Option<Seq<char>>,
    pub events: Option<Seq<crate::session::EventModel>>,
}

impl View for ControlResponse {
    type V = ResponseModel;

    open spec fn view(&self) -> ResponseModel {
        ResponseModel {
            ok: self.ok,
            command: self.command@,
            message: self.message@,
            shutting_down: self.shutting_down,
            session: match self.session {
                Some(session) => Some(session@),
                None => None,
            },
            sessions: match self.sessions {
                Some(sessions) => Some(crate::session::session_models(sessions@)),
                None => None,
            },
            event_id: match self.event_id {
                Some(id) => Some(id@),
                None => None,
            },
            events: match self.events {
                Some(events) => Some(crate::session::event_models(events@)),
                None => None,
            },
        }
    }
}

/// Whether a response is one of `daemon`, of this version.
pub open spec fn is_from(response: ControlResponse, daemon: ControlDaemonInfo) -> bool {
    &&& response.schema_version == CONTROL_SCHEMA_VERSION
    &&& response.daemon.pid == daemon.pid
    &&& response.daemon.socket@ == daemon.socket@
    &&& response.daemon.started_at_unix == daemon.started_at_unix
}

/// A response that holds nothing but words.
pub open spec fn said(ok: bool, command: Seq<char>, message: Seq<char>, stops: bool) -> ResponseModel {
    ResponseModel {
        ok,
        command,
        message,
        shutting_down: stops,
        session: None,
        sessions: None,
        event_id: None,
        events: None,
    }
}

fn say(ok: bool, command: &str, message: &str, stops: bool, daemon: &ControlDaemonInfo) -> (out:
    ControlResponse)
    ensures
        out@ == said(ok, command@, message@, stops),
        is_from(out, *daemon),
{
    ControlResponse {
        schema_version: CONTROL_SCHEMA_VERSION,
        ok,
        command: copy_of(command),
        message: copy_of(message),
        daemon: ControlDaemonInfo {
            pid: daemon.pid,
            socket: daemon.socket.clone(),
            started_at_unix: daemon.started_at_unix,
        },
        shutting_down: stops,
        session: None,
        sessions: None,
        event_id: None,
        events: None,
    }
}

/// The response to a request that failed.
pub fn error_response(command: &str, message: &str, daemon: &ControlDaemonInfo) -> (out:
    ControlResponse)
    ensures
        out@ == said(false, command@, message@, false),
        is_from(out, *daemon),
{
    say(false, command, message, false, daemon)
}

/// The response to a line that is no request.
pub fn invalid_request(reason: &str, daemon: &ControlDaemonInfo) -> (out: ControlResponse)
    ensures
        out@ == said(false, "unknown"@, "invalid control request: "@ + reason@, false),
        is_from(out, *daemon),
{
    error_response("unknown", concat2("invalid control request: ", reason).as_str(), daemon)
}

/// What came in on a connection.
#[derive(Debug)]
pub enum Incoming {
    /// The other side closed it without a word.
    Nothing,
    /// A line that is no request, and why.
    Unreadable(String),
    Request(ControlRequest),
}

/// What is done about a connection.
#[derive(Debug)]
pub enum StreamStep {
    Close,
    /// Send this response; it stops nothing.
    Answer(ControlResponse),
    Handle(ControlRequest),
}

/// What is done about a connection.
pub fn handle_stream(incoming: Incoming, daemon: &ControlDaemonInfo) -> (out: StreamStep)
    ensures
        match (incoming, out) {
            (Incoming::Nothing, StreamStep::Close) => true,
            (Incoming::Unreadable(reason), StreamStep::Answer(response)) => response@ == said(
                false,
                "unknown"@,
                "invalid control request: "@ + reason@,
                false,
            ) && is_from(response, *daemon),
            (Incoming::Request(request), StreamStep::Handle(same)) => same == request,
            _ => false,
        },
{
    match incoming {
        Incoming::Nothing => StreamStep::Close,
        Incoming::Unreadable(reason) => StreamStep::Answer(
            invalid_request(reason.as_str(), daemon),
        ),
        Incoming::Request(request) => StreamStep::Handle(request),
    }
}

/// Whether the daemon stops after a response: only where the response says so and
/// could be sent.
pub fn stops_after(response: &ControlResponse, sent: bool) -> (out: bool)
    ensures
        out == (sent && response@.shutting_down),
{
    sent && response.shutting_down
}

/// The line of a response, unless the daemon closed the connection without one.
pub fn received_line(line: &str, socket: &str) -> (out: Result<String, String>)
    ensures
        match out {
            Ok(text) => line@.len() > 0 && text@ == line@,
            Err(message) => line@.len() == 0 && message@ == "empty control response from "@
                + socket@,
        },
{
    if same(line, "") {
        proof {
            reveal_strlit("");
        }
        Err(concat2("empty control response from ", socket))
    } else {
        proof {
            reveal_strlit("");
            assert(line@.len() == 0 ==> line@ =~= ""@);
        }
        Ok(copy_of(line))
    }
}

/// What a command needs to know before it can be answered.
#[derive(Debug)]
pub enum Need {
    Nothing,
    /// Whether a session exists.
    Existence(SessionId),
    AllSessions,
    Session(SessionId),
    Events(Option<SessionId>),
}

/// What a command needs to know before it can be answered.
pub fn need_of(command: &ControlCommand, paths: &ManagerPaths, moment: Moment) -> (out: Need)
    ensures
        match (*command, out) {
            (ControlCommand::Ping, Need::Nothing) => true,
            (ControlCommand::Shutdown, Need::Nothing) => true,
            (ControlCommand::SessionCreate { session_id, channel_id: _ }, Need::Existence(id)) =>
                id@ == crate::session::chosen_id(session_id, paths.manager_dir@, moment),
            (ControlCommand::SessionList, Need::AllSessions) => true,
            (ControlCommand::SessionShow { session_id }, Need::Session(id)) => id@
                == session_id@,
            (
                ControlCommand::LeaseAcquire { session_id, channel_id: _, steal: _ },
                Need::Session(id),
            ) => id@ == session_id@,
            (ControlCommand::LeaseRelease { session_id, lease_token: _ }, Need::Session(id)) =>
                id@ == session_id@,
            (ControlCommand::EventList { session_id: Some(asked) }, Need::Events(Some(id))) =>
                id@ == asked@,
            (ControlCommand::EventList { session_id: None }, Need::Events(None)) => true,
            _ => false,
        },
{
    match command {
        ControlCommand::Ping => Need::Nothing,
        ControlCommand::Shutdown => Need::Nothing,
        ControlCommand::SessionCreate { session_id, channel_id: _ } => match session_id {
            Some(id) => Need::Existence(id.copy()),
            None => Need::Existence(
                crate::session::new_session_id(paths, moment.session_seed),
            ),
        },
        ControlCommand::SessionList => Need::AllSessions,
        ControlCommand::SessionShow { session_id } => Need::Session(session_id.copy()),
        ControlCommand::LeaseAcquire { session_id, channel_id: _, steal: _ } => Need::Session(
            session_id.copy(),
        ),
        ControlCommand::LeaseRelease { session_id, lease_token: _ } => Need::Session(
            session_id.copy(),
        ),
        ControlCommand::EventList { session_id } => match session_id {
            Some(id) => Need::Events(Some(id.copy())),
            None => Need::Events(None),
        },
    }
}

/// What was found for a command. An error says why it could not be read.
#[derive(Debug)]
pub enum Seen {
    Nothing,
    Existence(bool),
    AllSessions(Result<Vec<SessionRecord>, String>),
    Session(Result<SessionRecord, String>),
    Events(Result<Vec<JournalEvent>, String>),
}

/// Whether what was found is what a command needs.
pub open spec fn fits(command: ControlCommand, seen: Seen) -> bool {
    match command {
        ControlCommand::Ping | ControlCommand::Shutdown => true,
        ControlCommand::SessionCreate { .. } => seen is Existence,
        ControlCommand::SessionList => seen is AllSessions,
        ControlCommand::SessionShow { .. } => seen is Session,
        ControlCommand::LeaseAcquire { .. } => seen is Session,
        ControlCommand::LeaseRelease { .. } => seen is Session,
        ControlCommand::EventList { .. } => seen is Events,
    }
}

/// How the session of a response is kept.
#[derive(Clone, Copy, Debug, PartialEq, Eq, Structural)]
pub enum Keep {
    /// Nothing changed.
    Nothing,
    /// It is new.
    Create,
    /// It takes the place of what was there.
    Replace,
}

/// What follows from a request: the response, whether the daemon stops, and what is
/// written before the response is sent.
#[derive(Debug)]
pub struct Handled {
    pub response: ControlResponse,
    pub should_shutdown: bool,
    pub keep: Keep,
    pub journal: Option<JournalEvent>,
}

/// What follows from a request, over mathematical values.
pub struct HandledModel {
    pub response: ResponseModel,
    pub should_shutdown: bool,
    pub keep: Keep,
    pub journal: Option<crate::session::EventModel>,
}

impl View for Handled {
    type V = HandledModel;

    open spec fn view(&self) -> HandledModel {
        HandledModel {
            response: self.response@,
            should_shutdown: self.should_shutdown,
            keep: self.keep,
            journal: match self.journal {
                Some(event) => Some(event@),
                None => None,
            },
        }
    }
}

/// A response that changes nothing.
pub open spec fn only(response: ResponseModel) -> HandledModel {
    HandledModel {
        response,
        should_shutdown: response.shutting_down,
        keep: Keep::Nothing,
        journal: None,
    }
}

/// A response with a session that changed.
pub open spec fn changes(
    command: Seq<char>,
    message: Seq<char>,
    session: crate::session::SessionModel,
    event: crate::session::EventModel,
    keep: Keep,
) -> HandledModel {
    HandledModel {
        response: ResponseModel {
            session: Some(session),
            event_id: Some(event.event_id),
            ..said(true, command, message, false)
        },
        should_shutdown: false,
        keep,
        journal: Some(event),
    }
}

/// What follows from a command.
pub open spec fn answer(
    command: ControlCommand,
    manager_dir: Seq<char>,
    seen: Seen,
    moment: Moment,
) -> HandledModel {
    let name = command.name();
    match (command, seen) {
        (ControlCommand::Ping, _) => only(said(true, name, "ready"@, false)),
        (ControlCommand::Shutdown, _) => only(said(true, name, "shutting down"@, true)),
        (ControlCommand::SessionCreate { session_id, channel_id }, Seen::Existence(exists)) => {
            let id = crate::session::chosen_id(session_id, manager_dir, moment);
            if exists {
                only(said(false, name, "session already exists: "@ + id, false))
            } else {
                changes(
                    name,
                    "session created"@,
                    crate::session::created(id, channel_id@, moment.now),
                    crate::session::event_of(
                        manager_dir,
                        JournalEventKind::SessionCreated,
                        id,
                        channel_id@,
                        moment,
                    ),
                    Keep::Create,
                )
            }
        },
        (ControlCommand::SessionList, Seen::AllSessions(Ok(sessions))) => only(
            ResponseModel {
                sessions: Some(crate::session::session_models(sessions@)),
                ..said(true, name, "sessions listed"@, false)
            },
        ),
        (ControlCommand::SessionList, Seen::AllSessions(Err(reason))) => only(
            said(false, name, reason@, false),
        ),
        (_, Seen::Session(Err(reason))) => only(said(false, name, reason@, false)),
        (ControlCommand::SessionShow { .. }, Seen::Session(Ok(session))) => only(
            ResponseModel {
                session: Some(session@),
                ..said(true, name, "session found"@, false)
            },
        ),
        (
            ControlCommand::LeaseAcquire { session_id: _, channel_id, steal },
            Seen::Session(Ok(session)),
        ) => match crate::session::leased(session@, channel_id@, steal, manager_dir, moment) {
            Err(reason) => only(said(false, name, reason, false)),
            Ok(changed) => changes(
                name,
                "lease acquired"@,
                changed,
                crate::session::event_of(
                    manager_dir,
                    JournalEventKind::LeaseAcquired,
                    session@.session_id,
                    channel_id@,
                    moment,
                ),
                Keep::Replace,
            ),
        },
        (
            ControlCommand::LeaseRelease { session_id: _, lease_token },
            Seen::Session(Ok(session)),
        ) => match crate::session::released(session@, lease_token@, moment.now) {
            Err(reason) => only(said(false, name, reason, false)),
            Ok(changed) => changes(
                name,
                "lease released"@,
                changed,
                crate::session::event_of(
                    manager_dir,
                    JournalEventKind::LeaseReleased,
                    session@.session_id,
                    crate::session::holder(session@),
                    moment,
                ),
                Keep::Replace,
            ),
        },
        (ControlCommand::EventList { .. }, Seen::Events(Ok(events))) => only(
            ResponseModel {
                events: Some(crate::session::event_models(events@)),
                ..said(true, name, "events listed"@, false)
            },
        ),
        (ControlCommand::EventList { .. }, Seen::Events(Err(reason))) => only(
            said(false, name, reason@, false),
        ),
        _ => only(said(false, name, seq![], false)),
    }
}

/// What follows from a request: an error for one of another version.
pub open spec fn handled(
    request: ControlRequest,
    manager_dir: Seq<char>,
    seen: Seen,
    moment: Moment,
) -> HandledModel {
    if request.schema_version != CONTROL_SCHEMA_VERSION {
        only(
            said(
                false,
                request.command.name(),
                "unsupported control schema version: "@ + crate::numbers::decimal_of(
                    request.schema_version as nat,
                ),
                false,
            ),
        )
    } else {
        answer(request.command, manager_dir, seen, moment)
    }
}

fn plain(response: ControlResponse) -> (out: Handled)
    ensures
        out@ == only(response@),
        out.response == response,
{
    let stops = response.shutting_down;
    Handled { response, should_shutdown: stops, keep: Keep::Nothing, journal: None }
}

fn changed(
    command: &str,
    message: &str,
    session: SessionRecord,
    event: JournalEvent,
    keep: Keep,
    daemon: &ControlDaemonInfo,
) -> (out: Handled)
    ensures
        out@ == changes(command@, message@, session@, event@, keep),
        is_from(out.response, *daemon),
{
    let mut response = say(true, command, message, false, daemon);
    response.session = Some(session);
    response.event_id = Some(event.event_id.copy());
    Handled { response, should_shutdown: false, keep, journal: Some(event) }
}

/// Handles a request, given what was found for it.
pub fn handle_request(
    request: ControlRequest,
    daemon: &ControlDaemonInfo,
    paths: &ManagerPaths,
    seen: Seen,
    moment: Moment,
) -> (out: Handled)
    requires
        request.schema_version == CONTROL_SCHEMA_VERSION ==> fits(request.command, seen),
    ensures
        out@ == handled(request, paths.manager_dir@, seen, moment),
        is_from(out.response, *daemon),
{
    let name = request.command.as_str();
    if request.schema_version != CONTROL_SCHEMA_VERSION {
        return plain(
            error_response(
                name,
                concat2(
                    "unsupported control schema version: ",
                    decimal(request.schema_version).as_str(),
                ).as_str(),
                daemon,
            ),
        );
    }
    match (request.command, seen) {
        (ControlCommand::Ping, _) => plain(say(true, name, "ready", false, daemon)),
        (ControlCommand::Shutdown, _) => plain(say(true, name, "shutting down", true, daemon)),
        (ControlCommand::SessionCreate { session_id, channel_id }, Seen::Existence(exists)) => {
            let wanted = CreateSessionRequest { session_id, channel_id };
            match create_session(paths, wanted, exists, moment) {
                Ok(result) => changed(
                    name,
                    "session created",
                    result.session,
                    result.event,
                    Keep::Create,
                    daemon,
                ),
                Err(message) => plain(error_response(name, message.as_str(), daemon)),
            }
        },
        (ControlCommand::SessionList, Seen::AllSessions(Ok(sessions))) => {
            let mut response = say(true, name, "sessions listed", false, daemon);
            response.sessions = Some(sessions);
            plain(response)
        },
        (ControlCommand::SessionList, Seen::AllSessions(Err(reason))) => plain(
            error_response(name, reason.as_str(), daemon),
        ),
        (_, Seen::Session(Err(reason))) => plain(error_response(name, reason.as_str(), daemon)),
        (ControlCommand::SessionShow { session_id: _ }, Seen::Session(Ok(session))) => {
            let mut response = say(true, name, "session found", false, daemon);
            response.session = Some(session);
            plain(response)
        },
        (
            ControlCommand::LeaseAcquire { session_id, channel_id, steal },
            Seen::Session(Ok(session)),
        ) => {
            let wanted = AcquireLeaseRequest { session_id, channel_id, steal };
            match acquire_lease(paths, session, wanted, moment) {
                Ok(result) => changed(
                    name,
                    "lease acquired",
                    result.session,
                    result.event,
                    Keep::Replace,
                    daemon,
                ),
                Err(message) => plain(error_response(name, message.as_str(), daemon)),
            }
        },
        (
            ControlCommand::LeaseRelease { session_id, lease_token },
            Seen::Session(Ok(session)),
        ) => {
            let wanted = ReleaseLeaseRequest { session_id, lease_token };
            match release_lease(paths, session, wanted, moment) {
                Ok(result) => changed(
                    name,
                    "lease released",
                    result.session,
                    result.event,
                    Keep::Replace,
                    daemon,
                ),
                Err(message) => plain(error_response(name, message.as_str(), daemon)),
            }
        },
        (ControlCommand::EventList { session_id: _ }, Seen::Events(Ok(events))) => {
            let mut response = say(true, name, "events listed", false, daemon);
            response.events = Some(events);
            plain(response)
        },
        (ControlCommand::EventList { session_id: _ }, Seen::Events(Err(reason))) => plain(
            error_response(name, reason.as_str(), daemon),
        ),
        _ => {
            proof {
                assert(false);
            }
            plain(error_response(name, "", daemon))
        },
    }
}

/// What became of a request, by the response: an error where the daemon refused.
pub fn check_response(response: &ControlResponse) -> (out: Result<(), String>)
    ensures
        match out {
            Ok(_) => response.ok,
            Err(message) => !response.ok && message@ == response.message@,
        },
{
    if response.ok {
        Ok(())
    } else {
        Err(response.message.clone())
    }
}

// ---------------------------------------------------------------------------
// The daemon
// ---------------------------------------------------------------------------

/// How the daemon takes its socket.
#[derive(Clone, Copy, Debug, PartialEq, Eq, Structural)]
pub enum SocketStep {
    Bind,
    /// What is there is left over: it is removed first.
    ReplaceStale,
}

/// How the daemon takes its socket: not while another one answers on it.
pub fn daemon(socket: &str, exists: bool, answers: bool) -> (out: Result<SocketStep, String>)
    ensures
        match out {
            Ok(SocketStep::Bind) => !exists,
            Ok(SocketStep::ReplaceStale) => exists && !answers,
            Err(message) => exists && answers && message@ == "cx serve daemon already running: "@
                + socket@,
        },
{
    if !exists {
        Ok(SocketStep::Bind)
    } else if answers {
        Err(concat2("cx serve daemon already running: ", socket))
    } else {
        Ok(SocketStep::ReplaceStale)
    }
}

/// What is said of a daemon that starts.
pub fn daemon_start_lines(daemon: &ControlDaemonInfo) -> (out: Vec<String>)
    ensures
        crate::text::texts(out@) == seq![
            "cx serve daemon: ready"@,
            "pid: "@ + crate::numbers::decimal_of(daemon.pid as nat),
            "socket: "@ + daemon.socket@,
            "started_at_unix: "@ + crate::numbers::decimal_of(daemon.started_at_unix as nat),
        ],
{
    let mut out: Vec<String> = Vec::new();
    out.push(copy_of("cx serve daemon: ready"));
    out.push(concat2("pid: ", decimal(daemon.pid as u64).as_str()));
    out.push(concat2("socket: ", daemon.socket.as_str()));
    out.push(concat2("started_at_unix: ", decimal(daemon.started_at_unix).as_str()));
    proof {
        assert(crate::text::texts(out@) =~= seq![out@[0]@, out@[1]@, out@[2]@, out@[3]@]);
    }
    out
}

/// The name of a status.
pub open spec fn status_name(status: SessionStatus) -> Seq<char> {
    match status {
        SessionStatus::Active => "Active"@,
    }
}

fn status_text(status: SessionStatus) -> (out: &'static str)
    ensures
        out@ == status_name(status),
{
    match status {
        SessionStatus::Active => "Active",
    }
}

/// The name of a kind of event.
pub open spec fn kind_name(kind: JournalEventKind) -> Seq<char> {
    match kind {
        JournalEventKind::SessionCreated => "SessionCreated"@,
        JournalEventKind::LeaseAcquired => "LeaseAcquired"@,
        JournalEventKind::LeaseReleased => "LeaseReleased"@,
        JournalEventKind::ChannelMessageReceived => "ChannelMessageReceived"@,
    }
}

fn kind_text(kind: JournalEventKind) -> (out: &'static str)
    ensures
        out@ == kind_name(kind),
{
    match kind {
        JournalEventKind::SessionCreated => "SessionCreated",
        JournalEventKind::LeaseAcquired => "LeaseAcquired",
        JournalEventKind::LeaseReleased => "LeaseReleased",
        JournalEventKind::ChannelMessageReceived => "ChannelMessageReceived",
    }
}

/// The lines of a session.
pub open spec fn session_lines_of(session: crate::session::SessionModel) -> Seq<Seq<char>> {
    let lease = match session.active_lease {
        Some(held) => seq![
            "active_lease_channel: "@ + held.channel_id,
            "active_lease_epoch: "@ + crate::numbers::decimal_of(held.epoch as nat),
            "active_lease_token: "@ + held.lease_token,
        ],
        None => seq![],
    };
    seq![
        "session: "@ + session.session_id,
        "primary_channel: "@ + session.primary_channel_id,
        "current_channel: "@ + session.current_channel_id,
        "status: "@ + status_name(session.status),
        "lease_epoch: "@ + crate::numbers::decimal_of(session.lease_epoch as nat),
    ] + lease + seq![
        "created_at_unix: "@ + crate::numbers::decimal_of(session.created_at_unix as nat),
    ]
}

fn session_lines(session: &SessionRecord) -> (out: Vec<String>)
    ensures
        crate::text::texts(out@) == session_lines_of(session@),
{
    let mut out: Vec<String> = Vec::new();
    out.push(concat2("session: ", session.session_id.as_str()));
    out.push(concat2("primary_channel: ", session.primary_channel_id.as_str()));
    out.push(concat2("current_channel: ", session.current_channel_id.as_str()));
    out.push(concat2("status: ", status_text(session.status)));
    out.push(concat2("lease_epoch: ", decimal(session.lease_epoch).as_str()));
    match &session.active_lease {
        Some(held) => {
            out.push(concat2("active_lease_channel: ", held.channel_id.as_str()));
            out.push(concat2("active_lease_epoch: ", decimal(held.epoch).as_str()));
            out.push(concat2("active_lease_token: ", held.lease_token.as_str()));
        },
        None => {},
    }
    out.push(concat2("created_at_unix: ", decimal(session.created_at_unix).as_str()));
    proof {
        assert(crate::text::texts(out@) =~= session_lines_of(session@));
    }
    out
}

/// The line of a session in a list.
pub open spec fn session_row(session: crate::session::SessionModel) -> Seq<char> {
    session.session_id + "\t"@ + session.current_channel_id + "\t"@ + status_name(session.status)
        + "\t"@ + crate::numbers::decimal_of(session.created_at_unix as nat)
}

/// The line of an event in a list.
pub open spec fn event_row(event: crate::session::EventModel) -> Seq<char> {
    event.event_id + "\t"@ + kind_name(event.event_kind) + "\t"@ + event.session_id + "\t"@
        + event.channel_id + "\t"@ + crate::numbers::decimal_of(event.occurred_at_unix as nat)
}

/// The lines of a list of sessions.
pub open spec fn session_rows(sessions: Seq<crate::session::SessionModel>) -> Seq<Seq<char>> {
    if sessions.len() == 0 {
        seq!["sessions: 0"@]
    } else {
        sessions.map_values(|s: crate::session::SessionModel| session_row(s))
    }
}

/// The lines of a list of events.
pub open spec fn event_rows(events: Seq<crate::session::EventModel>) -> Seq<Seq<char>> {
    if events.len() == 0 {
        seq!["events: 0"@]
    } else {
        events.map_values(|e: crate::session::EventModel| event_row(e))
    }
}

fn rows_of_sessions(sessions: &Vec<SessionRecord>) -> (out: Vec<String>)
    ensures
        crate::text::texts(out@) == session_rows(crate::session::session_models(sessions@)),
{
    let mut out: Vec<String> = Vec::new();
    if sessions.len() == 0 {
        out.push(copy_of("sessions: 0"));
    }
    let mut i: usize = 0;
    while i < sessions.len()
        invariant
            i <= sessions.len(),
            sessions.len() == 0 ==> out@.len() == 1 && out@[0]@ == "sessions: 0"@,
            sessions.len() > 0 ==> out@.len() == i,
            forall|j: int| 0 <= j < i ==> (#[trigger] out@[j])@ == session_row(sessions@[j]@),
        decreases sessions.len() - i,
    {
        let session = &sessions[i];
        let head = concat3(session.session_id.as_str(), "\t", session.current_channel_id.as_str());
        let middle = concat3(head.as_str(), "\t", status_text(session.status));
        out.push(concat3(middle.as_str(), "\t", decimal(session.created_at_unix).as_str()));
        i += 1;
    }
    proof {
        assert(crate::text::texts(out@) =~= session_rows(
            crate::session::session_models(sessions@),
        ));
    }
    out
}

fn rows_of_events(events: &Vec<JournalEvent>) -> (out: Vec<String>)
    ensures
        crate::text::texts(out@) == event_rows(crate::session::event_models(events@)),
{
    let mut out: Vec<String> = Vec::new();
    if events.len() == 0 {
        out.push(copy_of("events: 0"));
    }
    let mut i: usize = 0;
    while i < events.len()
        invariant
            i <= events.len(),
            events.len() == 0 ==> out@.len() == 1 && out@[0]@ == "events: 0"@,
            events.len() > 0 ==> out@.len() == i,
            forall|j: int| 0 <= j < i ==> (#[trigger] out@[j])@ == event_row(events@[j]@),
        decreases events.len() - i,
    {
        let event = &events[i];
        let head = concat3(event.event_id.as_str(), "\t", kind_text(event.event_kind));
        let middle = concat3(head.as_str(), "\t", event.session_id.as_str());
        let tail = concat3(middle.as_str(), "\t", event.channel_id.as_str());
        out.push(concat3(tail.as_str(), "\t", decimal(event.occurred_at_unix).as_str()));
        i += 1;
    }
    proof {
        assert(crate::text::texts(out@) =~= event_rows(crate::session::event_models(events@)));
    }
    out
}

/// The lines of a response.
pub open spec fn response_lines(response: ControlResponse) -> Seq<Seq<char>> {
    let head = seq![
        "cx serve daemon: "@ + response@.message,
        "pid: "@ + crate::numbers::decimal_of(response.daemon.pid as nat),
        "socket: "@ + response.daemon.socket@,
    ];
    let session = match response@.session {
        Some(found) => session_lines_of(found),
        None => seq![],
    };
    let event = match response@.event_id {
        Some(id) => seq!["event: "@ + id],
        None => seq![],
    };
    let sessions = match response@.sessions {
        Some(found) => session_rows(found),
        None => seq![],
    };
    let events = match response@.events {
        Some(found) => event_rows(found),
        None => seq![],
    };
    head + session + event + sessions + events
}

/// The lines of a response.
pub fn print_response(response: &ControlResponse) -> (out: Vec<String>)
    ensures
        crate::text::texts(out@) == response_lines(*response),
{
    let mut out: Vec<String> = Vec::new();
    out.push(concat2("cx serve daemon: ", response.message.as_str()));
    out.push(concat2("pid: ", decimal(response.daemon.pid as u64).as_str()));
    out.push(concat2("socket: ", response.daemon.socket.as_str()));
    proof {
        assert(crate::text::texts(out@) =~= seq![out@[0]@, out@[1]@, out@[2]@]);
    }
    match &response.session {
        Some(session) => {
            extend(&mut out, session_lines(session));
        },
        None => {},
    }
    match &response.event_id {
        Some(id) => {
            push_text(&mut out, concat2("event: ", id.as_str()));
        },
        None => {},
    }
    match &response.sessions {
        Some(sessions) => {
            extend(&mut out, rows_of_sessions(sessions));
        },
        None => {},
    }
    match &response.events {
        Some(events) => {
            extend(&mut out, rows_of_events(events));
        },
        None => {},
    }
    proof {
        assert(crate::text::texts(out@) =~= response_lines(*response));
    }
    out
}

// ---------------------------------------------------------------------------
// Laws
// ---------------------------------------------------------------------------

/// The daemon stops exactly on a request to stop of its own version, and a response
/// says so exactly then.
pub proof fn only_shutdown_stops(
    request: ControlRequest,
    manager_dir: Seq<char>,
    seen: Seen,
    moment: Moment,
)
    ensures
        handled(request, manager_dir, seen, moment).should_shutdown <==> request.command
            == ControlCommand::Shutdown && request.schema_version == CONTROL_SCHEMA_VERSION,
        handled(request, manager_dir, seen, moment).response.shutting_down == handled(
            request,
            manager_dir,
            seen,
            moment,
        ).should_shutdown,
{
}

/// A request that is refused writes nothing, and every change is journaled under the
/// name of its session.
pub proof fn refusals_change_nothing(
    request: ControlRequest,
    manager_dir: Seq<char>,
    seen: Seen,
    moment: Moment,
)
    requires
        request.schema_version == CONTROL_SCHEMA_VERSION ==> fits(request.command, seen),
    ensures
        ({
            let result = handled(request, manager_dir, seen, moment);
            &&& !result.response.ok ==> result.keep == Keep::Nothing && result.journal is None
            &&& result.keep != Keep::Nothing <==> result.journal is Some
            &&& result.journal matches Some(event) ==> result.response.event_id == Some(
                event.event_id,
            ) && (result.response.session matches Some(session) && session.session_id
                == event.session_id)
        }),
{
}

/// Reading requests change nothing.
pub proof fn reading_changes_nothing(
    request: ControlRequest,
    manager_dir: Seq<char>,
    seen: Seen,
    moment: Moment,
)
    requires
        request.command is Ping || request.command is Shutdown || request.command is SessionList
            || request.command is SessionShow || request.command is EventList,
    ensures
        handled(request, manager_dir, seen, moment).keep == Keep::Nothing,
        handled(request, manager_dir, seen, moment).journal is None,
{
}

/// A request of this version is answered under the name of its command; only what makes
/// or changes a session is kept and noted in the journal, and only where it succeeds.
pub proof fn changes_are_kept_and_noted(
    request: ControlRequest,
    manager_dir: Seq<char>,
    seen: Seen,
    moment: Moment,
)
    requires
        request.schema_version == 1,
    ensures
        ({
            let done = handled(request, manager_dir, seen, moment);
            &&& done.response.command == request.command.name()
            &&& done.journal is Some <==> done.keep != Keep::Nothing
            &&& done.journal is Some ==> {
                &&& done.response.ok
                &&& done.response.session is Some
                &&& done.response.event_id == Some(done.journal->0.event_id)
                &&& done.journal->0.session_id == done.response.session->0.session_id
                &&& done.journal->0.occurred_at_unix == moment.now
                &&& done.keep == Keep::Create <==> request.command is SessionCreate
                &&& done.journal->0.event_kind == (match request.command {
                    ControlCommand::SessionCreate { .. } => JournalEventKind::SessionCreated,
                    ControlCommand::LeaseAcquire { .. } => JournalEventKind::LeaseAcquired,
                    _ => JournalEventKind::LeaseReleased,
                })
            }
            &&& done.journal is Some ==> request.command is SessionCreate
                || request.command is LeaseAcquire || request.command is LeaseRelease
        }),
{
    match (request.command, seen) {
        (ControlCommand::LeaseAcquire { session_id: _, channel_id, steal }, Seen::Session(Ok(s))) => {
            let changed = crate::session::leased(s@, channel_id@, steal, manager_dir, moment);
        },
        (ControlCommand::LeaseRelease { session_id: _, lease_token }, Seen::Session(Ok(s))) => {
            let changed = crate::session::released(s@, lease_token@, moment.now);
        },
        _ => {},
    }
}

/// A session is made if there is none of its name: under the name that was asked for or a
/// new one, on the channel of the request.
pub proof fn sessions_are_made_once(
    request: ControlRequest,
    manager_dir: Seq<char>,
    exists: bool,
    moment: Moment,
)
    requires
        request.schema_version == 1,
        request.command is SessionCreate,
    ensures
        ({
            let done = handled(request, manager_dir, Seen::Existence(exists), moment);
            let asked = request.command->SessionCreate_session_id;
            let channel = request.command->SessionCreate_channel_id;
            &&& done.response.ok <==> !exists
            &&& done.keep == Keep::Create <==> !exists
            &&& !exists ==> {
                let session = done.response.session->0;
                &&& done.response.session is Some
                &&& session.primary_channel_id == channel@
                &&& session.active_lease is None
                &&& asked is Some ==> session.session_id == asked->0@
                &&& asked is None ==> session.session_id.take(5) == "sess_"@
            }
        }),
{
    reveal_strlit("sess_");
    assert("sess_"@.len() == 5);
    let asked = request.command->SessionCreate_session_id;
    if asked is None {
        let id = crate::session::chosen_id(asked, manager_dir, moment);
        assert(id.take(5) =~= "sess_"@);
    }
}

/// Leases are changed as their session allows: what is answered and kept is the session
/// after the change, and where that is refused the reason is the answer.
pub proof fn lease_requests_change_sessions(
    request: ControlRequest,
    manager_dir: Seq<char>,
    session: SessionRecord,
    moment: Moment,
)
    requires
        request.schema_version == 1,
        request.command is LeaseAcquire || request.command is LeaseRelease,
    ensures
        ({
            let done = handled(request, manager_dir, Seen::Session(Ok(session)), moment);
            let change = match request.command {
                ControlCommand::LeaseAcquire { channel_id, steal, .. } => crate::session::leased(
                    session@,
                    channel_id@,
                    steal,
                    manager_dir,
                    moment,
                ),
                ControlCommand::LeaseRelease { lease_token, .. } => crate::session::released(
                    session@,
                    lease_token@,
                    moment.now,
                ),
                _ => Err(seq![]),
            };
            match change {
                Ok(after) => done.response.ok && done.response.session == Some(after) && done.keep
                    == Keep::Replace,
                Err(reason) => !done.response.ok && done.response.message == reason && done.keep
                    == Keep::Nothing,
            }
        }),
{
}

/// What is asked for is what is answered: sessions, one session, or events, as they were
/// found, or why they were not.
pub proof fn questions_are_answered(
    request: ControlRequest,
    manager_dir: Seq<char>,
    sessions: Result<Vec<SessionRecord>, String>,
    session: Result<SessionRecord, String>,
    events: Result<Vec<JournalEvent>, String>,
    moment: Moment,
)
    requires
        request.schema_version == 1,
    ensures
        request.command is SessionList ==> {
            let done = handled(request, manager_dir, Seen::AllSessions(sessions), moment).response;
            match sessions {
                Ok(found) => done.ok && done.sessions == Some(
                    crate::session::session_models(found@),
                ),
                Err(reason) => !done.ok && done.message == reason@ && done.sessions is None,
            }
        },
        request.command is SessionShow ==> {
            let done = handled(request, manager_dir, Seen::Session(session), moment).response;
            match session {
                Ok(found) => done.ok && done.session == Some(found@),
                Err(reason) => !done.ok && done.message == reason@ && done.session is None,
            }
        },
        request.command is EventList ==> {
            let done = handled(request, manager_dir, Seen::Events(events), moment).response;
            match events {
                Ok(found) => done.ok && done.events == Some(crate::session::event_models(found@)),
                Err(reason) => !done.ok && done.message == reason@ && done.events is None,
            }
        },
        request.command is Ping ==> handled(
            request,
            manager_dir,
            Seen::Nothing,
            moment,
        ).response.ok,
{
}

/// A request of another version is refused, whatever it asks for, and changes nothing.
pub proof fn other_versions_are_refused(
    request: ControlRequest,
    manager_dir: Seq<char>,
    seen: Seen,
    moment: Moment,
)
    requires
        request.schema_version != 1,
    ensures
        !handled(request, manager_dir, seen, moment).response.ok,
        handled(request, manager_dir, seen, moment).keep == Keep::Nothing,
        handled(request, manager_dir, seen, moment).journal is None,
        !handled(request, manager_dir, seen, moment).should_shutdown,
{
}

/// Arguments are refused for a time to wait that is not positive and for names that are
/// none, and for nothing else.
pub proof fn requests_are_refused_for_bad_names(args: ServeSessionArgs, lease: ServeLeaseArgs)
    ensures
        session_refusal(args) is None <==> !args.timeout.is_not_positive() && (
        match args.command {
            ServeSessionCommand::Create { id, channel } => (id matches Some(raw)
                ==> crate::session::is_id(raw@, "sess_"@)) && crate::session::is_channel(channel@),
            ServeSessionCommand::List => true,
            ServeSessionCommand::Show { session_id } => crate::session::is_id(
                session_id@,
                "sess_"@,
            ),
        }),
        lease_refusal(lease) is None <==> !lease.timeout.is_not_positive() && (
        match lease.command {
            ServeLeaseCommand::Acquire { session, channel, .. } => crate::session::is_id(
                session@,
                "sess_"@,
            ) && crate::session::is_channel(channel@),
            ServeLeaseCommand::Release { session, token } => crate::session::is_id(
                session@,
                "sess_"@,
            ) && crate::session::is_id(token@, "lease_"@),
        }),
{
}

/// A session is printed with its channels and its lease where it has one, and a list
/// has one line for each session, in order.
pub proof fn sessions_are_printed(
    session: crate::session::SessionModel,
    sessions: Seq<crate::session::SessionModel>,
    i: int,
)
    ensures
        ({
            let lines = session_lines_of(session);
            &&& lines[0] == "session: "@ + session.session_id
            &&& lines[1] == "primary_channel: "@ + session.primary_channel_id
            &&& lines[2] == "current_channel: "@ + session.current_channel_id
            &&& lines[4] == "lease_epoch: "@ + crate::numbers::decimal_of(session.lease_epoch as nat)
            &&& session.active_lease is Some ==> lines.len() == 9 && lines[5]
                == "active_lease_channel: "@ + session.active_lease->0.channel_id && lines[7]
                == "active_lease_token: "@ + session.active_lease->0.lease_token
            &&& session.active_lease is None ==> lines.len() == 6
            &&& lines.last() == "created_at_unix: "@ + crate::numbers::decimal_of(
                session.created_at_unix as nat,
            )
        }),
        sessions.len() == 0 ==> session_rows(sessions) == seq!["sessions: 0"@],
        0 <= i < sessions.len() ==> session_rows(sessions).len() == sessions.len() && session_rows(
            sessions,
        )[i] == sessions[i].session_id + "\t"@ + sessions[i].current_channel_id + "\t"@ + "Active"@
            + "\t"@ + crate::numbers::decimal_of(sessions[i].created_at_unix as nat),
{
}

/// Events are printed in order, each with what happened, to which session and through
/// which channel.
pub proof fn events_are_printed(events: Seq<crate::session::EventModel>, i: int)
    ensures
        events.len() == 0 ==> event_rows(events) == seq!["events: 0"@],
        0 <= i < events.len() ==> {
            let kind = match events[i].event_kind {
                JournalEventKind::SessionCreated => "SessionCreated"@,
                JournalEventKind::LeaseAcquired => "LeaseAcquired"@,
                JournalEventKind::LeaseReleased => "LeaseReleased"@,
                JournalEventKind::ChannelMessageReceived => "ChannelMessageReceived"@,
            };
            &&& event_rows(events).len() == events.len()
            &&& event_rows(events)[i] == events[i].event_id + "\t"@ + kind + "\t"@
                + events[i].session_id + "\t"@ + events[i].channel_id + "\t"@
                + crate::numbers::decimal_of(events[i].occurred_at_unix as nat)
        },
{
}

/// An answer is printed with who gave it first, then what it is about.
pub proof fn responses_are_printed(response: ControlResponse)
    ensures
        ({
            let lines = response_lines(response);
            &&& lines[0] == "cx serve daemon: "@ + response@.message
            &&& lines[1] == "pid: "@ + crate::numbers::decimal_of(response.daemon.pid as nat)
            &&& lines[2] == "socket: "@ + response.daemon.socket@
            &&& response@.session is Some ==> lines[3] == "session: "@
                + response@.session->0.session_id
            &&& response@.session is None && response@.event_id is Some ==> lines[3] == "event: "@
                + response@.event_id->0
            &&& response@.session is None && response@.event_id is None && response@.sessions is None
                && response@.events is None ==> lines.len() == 3
            &&& response@.events is Some ==> lines.skip(
                lines.len() - event_rows(response@.events->0).len(),
            ) == event_rows(response@.events->0)
        }),
{
    let lines = response_lines(response);
    if let Some(events) = response@.events {
        assert(lines.skip(lines.len() - event_rows(events).len()) =~= event_rows(events));
    }
}

} // verus!
