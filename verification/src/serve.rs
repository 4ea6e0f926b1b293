//! The app server that this program starts and keeps a record of.

use vstd::prelude::*;

use crate::doubles::Double;
use crate::frames::lossy_text;
use crate::numbers::decimal;
use crate::numbers::parse_number;
use crate::numbers::signed_decimal;
use crate::text::chars_of;
use crate::text::concat2;
use crate::text::concat3;
use crate::text::concat4;
use crate::text::contains_text;
use crate::text::copy_all;
use crate::text::copy_of;
use crate::text::extend;
use crate::text::has_char;
use crate::text::push_text;
use crate::text::rsplit_once;
use crate::text::same;
use crate::text::string_of;
use crate::text::strip_prefix;

verus! {

pub const SERVE_STATE_SCHEMA_VERSION: u64 = 1;

// ---------------------------------------------------------------------------
// Addresses
// ---------------------------------------------------------------------------

/// An address on this machine.
#[derive(Debug, PartialEq, Eq)]
pub struct ListenUrl {
    pub host: String,
    pub port: u16,
}

/// An address on this machine, over mathematical values.
pub struct ListenModel {
    pub host: Seq<char>,
    pub port: u16,
}

impl View for ListenUrl {
    type V = ListenModel;

    open spec fn view(&self) -> ListenModel {
        ListenModel { host: self.host@, port: self.port }
    }
}

/// The text of the error with which `str::parse::<u16>` refuses a text.
pub uninterp spec fn port_refusal(text: Seq<char>) -> Seq<char>;

/// `str::parse::<u16>` on a text that is no port: the text of its error.
#[verifier::external_body]
fn refused_port(text: &str) -> (out: String)
    requires
        crate::numbers::parsed_number(text@, u16::MAX as nat) is None,
    ensures
        out@ == port_refusal(text@),
{
    text.parse::<u16>().map_or_else(|error| error.to_string(), |port| port.to_string())
}

/// Whether a host is this machine.
pub open spec fn is_loopback(host: Seq<char>) -> bool {
    host == "127.0.0.1"@ || host == "localhost"@
}

/// The address that a text states, or why it states none.
pub open spec fn listen_of(raw: Seq<char>) -> Result<ListenModel, Seq<char>> {
    match crate::text::stripped_prefix(raw, "ws://"@) {
        None => Err("serve --listen only supports ws:// loopback URLs"@),
        Some(rest) => if rest.contains('/') {
            Err("serve --listen must not include a path"@)
        } else {
            match crate::text::split_at_last(rest, ':') {
                None => Err("serve --listen requires host:port"@),
                Some(parts) => if !is_loopback(parts.0) {
                    Err(
                        "serve --listen must bind a loopback host: 127.0.0.1 or localhost"@,
                    )
                } else {
                    match crate::numbers::parsed_number(parts.1, u16::MAX as nat) {
                        None => Err(
                            "invalid serve --listen port: "@ + parts.1 + ": "@ + port_refusal(
                                parts.1,
                            ),
                        ),
                        Some(port) => Ok(ListenModel { host: parts.0, port: port as u16 }),
                    }
                },
            }
        },
    }
}

impl ListenModel {
    /// The address as a WebSocket URL.
    pub open spec fn url(self) -> Seq<char> {
        "ws://"@ + self.host + ":"@ + crate::numbers::decimal_of(self.port as nat)
    }

    /// Where the server says that it is ready.
    pub open spec fn readyz(self) -> Seq<char> {
        "http://"@ + self.host + ":"@ + crate::numbers::decimal_of(self.port as nat) + "/readyz"@
    }
}

impl ListenUrl {
    /// Reads an address.
    pub fn parse(raw: &str) -> (out: Result<ListenUrl, String>)
        ensures
            match (listen_of(raw@), out) {
                (Ok(model), Ok(listen)) => listen@ == model,
                (Err(reason), Err(message)) => message@ == reason,
                _ => false,
            },
    {
        let rest = match strip_prefix(&chars_of(raw), "ws://") {
            None => {
                return Err(copy_of("serve --listen only supports ws:// loopback URLs"));
            },
            Some(rest) => rest,
        };
        if has_char(&rest, '/') {
            return Err(copy_of("serve --listen must not include a path"));
        }
        match rsplit_once(&rest, ':') {
            None => Err(copy_of("serve --listen requires host:port")),
            Some((host, port)) => {
                let host = string_of(&host);
                if !same(host.as_str(), "127.0.0.1") && !same(host.as_str(), "localhost") {
                    return Err(
                        copy_of(
                            "serve --listen must bind a loopback host: 127.0.0.1 or localhost",
                        ),
                    );
                }
                match parse_number(&port, u16::MAX as u64) {
                    None => {
                        let given = string_of(&port);
                        let reason = refused_port(given.as_str());
                        Err(
                            concat4(
                                "invalid serve --listen port: ",
                                given.as_str(),
                                ": ",
                                reason.as_str(),
                            ),
                        )
                    },
                    Some(n) => Ok(ListenUrl { host, port: n as u16 }),
                }
            },
        }
    }

    /// The address with a port that was found free, where it leaves the port open.
    pub fn resolve(self, free_port: u16) -> (out: ListenUrl)
        ensures
            out@.host == self@.host,
            out.port == (if self.port == 0 {
                free_port
            } else {
                self.port
            }),
    {
        if self.port != 0 {
            self
        } else {
            ListenUrl { host: self.host, port: free_port }
        }
    }

    /// The address of the server behind the proxy that listens here: on the same host,
    /// at a port that was found free.
    pub fn upstream(&self, free_port: u16) -> (out: ListenUrl)
        ensures
            out@ == (ListenModel { host: self@.host, port: free_port }),
    {
        ListenUrl { host: self.host.clone(), port: free_port }
    }

    /// The address as a WebSocket URL.
    pub fn websocket_url(&self) -> (out: String)
        ensures
            out@ == self@.url(),
    {
        concat4("ws://", self.host.as_str(), ":", decimal(self.port as u64).as_str())
    }

    /// Where the server says that it is ready.
    pub fn readyz_url(&self) -> (out: String)
        ensures
            out@ == self@.readyz(),
    {
        let head = concat4("http://", self.host.as_str(), ":", decimal(self.port as u64).as_str());
        concat2(head.as_str(), "/readyz")
    }
}

// ---------------------------------------------------------------------------
// The record of the server
// ---------------------------------------------------------------------------

/// The record of a server that was started.
#[derive(Debug)]
pub struct ServeStateFile {
    pub schema_version: u64,
    pub pid: u32,
    pub slot: String,
    pub target: Option<String>,
    pub listen_url: String,
    pub readyz_url: String,
    pub started_at_unix: u64,
}

/// A record that was read from `path`. Where the file could not be understood, `parsed`
/// says why.
pub fn check_state(parsed: Result<ServeStateFile, String>, path: &str) -> (out: Result<
    ServeStateFile,
    String,
>)
    ensures
        match (parsed, out) {
            (Ok(read), Ok(state)) => state == read && read.schema_version
                == SERVE_STATE_SCHEMA_VERSION,
            (Ok(read), Err(message)) => read.schema_version != SERVE_STATE_SCHEMA_VERSION
                && message@ == "unsupported serve state schema version: "@
                + crate::numbers::decimal_of(read.schema_version as nat),
            (Err(reason), Err(message)) => message@ == "parse "@ + path@ + ": "@ + reason@,
            (Err(_), Ok(_)) => false,
        },
{
    match parsed {
        Err(reason) => Err(concat4("parse ", path, ": ", reason.as_str())),
        Ok(state) => if state.schema_version != SERVE_STATE_SCHEMA_VERSION {
            Err(
                concat2(
                    "unsupported serve state schema version: ",
                    decimal(state.schema_version).as_str(),
                ),
            )
        } else {
            Ok(state)
        },
    }
}

/// The record of a server that is ready. Its addresses are those of the proxy, which
/// stands in front of the server, not those of the server itself.
pub fn server_record(
    pid: u32,
    slot: &str,
    target: &Option<String>,
    listen: &ListenUrl,
    now: u64,
) -> (out: ServeStateFile)
    ensures
        out.schema_version == SERVE_STATE_SCHEMA_VERSION,
        out.pid == pid,
        out.slot@ == slot@,
        crate::text::opt_text(out.target) == crate::text::opt_text(*target),
        out.listen_url@ == listen@.url(),
        out.readyz_url@ == listen@.readyz(),
        out.started_at_unix == now,
{
    ServeStateFile {
        schema_version: SERVE_STATE_SCHEMA_VERSION,
        pid,
        slot: copy_of(slot),
        target: match target {
            Some(name) => Some(copy_of(name.as_str())),
            None => None,
        },
        listen_url: listen.websocket_url(),
        readyz_url: listen.readyz_url(),
        started_at_unix: now,
    }
}

/// Whether the record is that of a process, so that the process may remove it.
pub fn is_record_of(state: &Option<ServeStateFile>, pid: u32) -> (out: bool)
    ensures
        out == (state matches Some(found) && found.pid == pid),
{
    match state {
        Some(found) => found.pid == pid,
        None => false,
    }
}

/// Whether the command line of a process, as `ps` printed it, is that of an app
/// server.
pub fn process_looks_like_app_server(success: bool, stdout: &[u8]) -> (out: bool)
    ensures
        out == (success && crate::text::has_text(
            crate::frames::lossy_of(stdout@),
            "app-server"@,
        )),
{
    success && contains_text(&chars_of(lossy_text(stdout).as_str()), "app-server")
}

/// Whether a server is ready: its process is an app server, and it says so.
pub fn state_is_ready(is_app_server: bool, says_ready: bool) -> (out: bool)
    ensures
        out == (is_app_server && says_ready),
{
    is_app_server && says_ready
}

// ---------------------------------------------------------------------------
// Starting
// ---------------------------------------------------------------------------

/// Refuses a time to wait that is not positive. Times are in seconds.
pub fn check_wait(name: &str, seconds: Double) -> (out: Result<(), String>)
    ensures
        match out {
            Ok(_) => !seconds.is_not_positive(),
            Err(message) => seconds.is_not_positive() && message@ == name@ + " must be positive"@,
        },
{
    if seconds.not_positive() {
        Err(concat2(name, " must be positive"))
    } else {
        Ok(())
    }
}

/// The arguments of Codex that start an app server.
pub fn server_args(upstream_url: &str, args: &Vec<String>) -> (out: Vec<String>)
    ensures
        crate::text::texts(out@) == seq!["app-server"@, "--listen"@, upstream_url@]
            + crate::text::texts(args@),
{
    let mut out: Vec<String> = Vec::new();
    out.push(copy_of("app-server"));
    out.push(copy_of("--listen"));
    out.push(copy_of(upstream_url));
    proof {
        assert(crate::text::texts(out@) =~= seq!["app-server"@, "--listen"@, upstream_url@]);
    }
    extend(&mut out, copy_all(args));
    out
}

/// The lines of a server that starts.
pub open spec fn start_text(
    slot: Seq<char>,
    target: Option<Seq<char>>,
    listen: Seq<char>,
    upstream: Seq<char>,
) -> Seq<Seq<char>> {
    let aim = match target {
        Some(name) => seq!["cx serve target: "@ + name],
        None => seq![],
    };
    seq!["cx serve slot: "@ + slot] + aim + seq![
        "cx serve listen: "@ + listen,
        "cx serve upstream: "@ + upstream,
    ]
}

/// The lines of a server that starts.
pub fn start_lines(slot: &str, target: &Option<String>, listen: &str, upstream: &str) -> (out: Vec<
    String,
>)
    ensures
        crate::text::texts(out@) == start_text(
            slot@,
            crate::text::opt_text(*target),
            listen@,
            upstream@,
        ),
{
    let mut out: Vec<String> = Vec::new();
    out.push(concat2("cx serve slot: ", slot));
    match target {
        Some(name) => {
            out.push(concat2("cx serve target: ", name.as_str()));
        },
        None => {},
    }
    out.push(concat2("cx serve listen: ", listen));
    out.push(concat2("cx serve upstream: ", upstream));
    proof {
        assert(crate::text::texts(out@) =~= start_text(
            slot@,
            crate::text::opt_text(*target),
            listen@,
            upstream@,
        ));
    }
    out
}

/// What is done next while a server is waited for.
#[derive(Debug)]
pub enum ReadyStep {
    Ready,
    Fail(String),
    WaitOn,
}

/// What is done next while a server is waited for. `exited` tells how the process
/// ended, if it did.
pub fn ready_step(exited: &Option<String>, answered: bool, expired: bool) -> (out: ReadyStep)
    ensures
        match (exited, out) {
            (Some(how), ReadyStep::Fail(message)) => message@
                == "codex app-server exited before ready with "@ + how@,
            (None, ReadyStep::Ready) => answered,
            (None, ReadyStep::Fail(message)) => !answered && expired && message@
                == "timed out waiting for codex app-server ready endpoint"@,
            (None, ReadyStep::WaitOn) => !answered && !expired,
            _ => false,
        },
{
    match exited {
        Some(how) => ReadyStep::Fail(
            concat2("codex app-server exited before ready with ", how.as_str()),
        ),
        None => if answered {
            ReadyStep::Ready
        } else if expired {
            ReadyStep::Fail(copy_of("timed out waiting for codex app-server ready endpoint"))
        } else {
            ReadyStep::WaitOn
        },
    }
}

/// The line of a server that is ready.
pub fn ready_line(state: &ServeStateFile) -> (out: String)
    ensures
        out@ == "cx serve ready: "@ + state.readyz_url@,
{
    concat2("cx serve ready: ", state.readyz_url.as_str())
}

/// What became of a server that was waited for: an error with the status of its
/// process where it did not succeed.
pub fn server_end(success: bool, status: &str) -> (out: Result<(), String>)
    ensures
        match out {
            Ok(_) => success,
            Err(message) => !success && message@ == "codex app-server exited with "@ + status@,
        },
{
    if success {
        Ok(())
    } else {
        Err(concat2("codex app-server exited with ", status))
    }
}

// ---------------------------------------------------------------------------
// Status
// ---------------------------------------------------------------------------

/// A report on the server.
#[derive(Debug)]
pub struct ServeStatusReport {
    pub schema_version: u64,
    pub state: String,
    pub ready: bool,
    pub state_file: String,
    pub server: Option<ServeStateFile>,
}

/// The state of the server: no record, a record of one that is ready, or of one that
/// is not.
pub open spec fn status_of(recorded: bool, ready: bool) -> Seq<char> {
    if !recorded {
        "missing"@
    } else if ready {
        "ready"@
    } else {
        "stale"@
    }
}

/// A report on the server.
pub fn status(server: Option<ServeStateFile>, ready: bool, state_file: &str) -> (out:
    ServeStatusReport)
    ensures
        out.schema_version == SERVE_STATE_SCHEMA_VERSION,
        out.state@ == status_of(server is Some, ready),
        out.ready == (server is Some && ready),
        out.state_file@ == state_file@,
        out.server == server,
{
    let recorded = server.is_some();
    let state = if !recorded {
        "missing"
    } else if ready {
        "ready"
    } else {
        "stale"
    };
    ServeStatusReport {
        schema_version: SERVE_STATE_SCHEMA_VERSION,
        state: copy_of(state),
        ready: recorded && ready,
        state_file: copy_of(state_file),
        server,
    }
}

/// The first lines of a record.
pub open spec fn record_head(server: ServeStateFile) -> Seq<Seq<char>> {
    let aim = match server.target {
        Some(name) => seq!["target: "@ + name@],
        None => seq![],
    };
    seq![
        "pid: "@ + crate::numbers::decimal_of(server.pid as nat),
        "slot: "@ + server.slot@,
    ] + aim + seq!["listen: "@ + server.listen_url@]
}

fn record_lines(server: &ServeStateFile) -> (out: Vec<String>)
    ensures
        crate::text::texts(out@) == record_head(*server),
{
    let mut out: Vec<String> = Vec::new();
    out.push(concat2("pid: ", decimal(server.pid as u64).as_str()));
    out.push(concat2("slot: ", server.slot.as_str()));
    match &server.target {
        Some(name) => {
            out.push(concat2("target: ", name.as_str()));
        },
        None => {},
    }
    out.push(concat2("listen: ", server.listen_url.as_str()));
    proof {
        assert(crate::text::texts(out@) =~= record_head(*server));
    }
    out
}

/// The lines of a report on the server.
pub open spec fn status_lines(report: ServeStatusReport) -> Seq<Seq<char>> {
    let server = match report.server {
        Some(found) => record_head(found) + seq![
            "readyz: "@ + found.readyz_url@,
            "started_at_unix: "@ + crate::numbers::decimal_of(found.started_at_unix as nat),
        ],
        None => seq![],
    };
    seq!["cx serve: "@ + report.state@, "state: "@ + report.state_file@] + server
}

/// The lines of a report on the server.
pub fn print_status(report: &ServeStatusReport) -> (out: Vec<String>)
    ensures
        crate::text::texts(out@) == status_lines(*report),
{
    let mut out: Vec<String> = Vec::new();
    out.push(concat2("cx serve: ", report.state.as_str()));
    out.push(concat2("state: ", report.state_file.as_str()));
    proof {
        assert(crate::text::texts(out@) =~= seq![out@[0]@, out@[1]@]);
    }
    match &report.server {
        Some(found) => {
            extend(&mut out, record_lines(found));
            push_text(&mut out, concat2("readyz: ", found.readyz_url.as_str()));
            push_text(
                &mut out,
                concat2("started_at_unix: ", decimal(found.started_at_unix).as_str()),
            );
        },
        None => {},
    }
    proof {
        assert(crate::text::texts(out@) =~= status_lines(*report));
    }
    out
}

// ---------------------------------------------------------------------------
// Stopping
// ---------------------------------------------------------------------------

/// A signal to a process.
#[derive(Clone, Copy, Debug, PartialEq, Eq, Structural)]
pub enum Signal {
    Terminate,
    Kill,
}

impl Signal {
    /// The signal as an argument of `kill`.
    pub fn kill_arg(self) -> (out: &'static str)
        ensures
            out@ == (match self {
                Signal::Terminate => "-TERM"@,
                Signal::Kill => "-KILL"@,
            }),
    {
        match self {
            Signal::Terminate => "-TERM",
            Signal::Kill => "-KILL",
        }
    }

    /// The name of the signal.
    pub open spec fn text(self) -> Seq<char> {
        match self {
            Signal::Terminate => "SIGTERM"@,
            Signal::Kill => "SIGKILL"@,
        }
    }

    /// The name of the signal.
    pub fn name(self) -> (out: &'static str)
        ensures
            out@ == self.text(),
    {
        match self {
            Signal::Terminate => "SIGTERM",
            Signal::Kill => "SIGKILL",
        }
    }

    /// What is said where the signal could not be sent.
    pub fn failure(self, pid: u32) -> (out: String)
        ensures
            out@ == "failed to send "@ + self.text() + " to pid "@ + crate::numbers::decimal_of(
                pid as nat,
            ),
    {
        concat4("failed to send ", self.name(), " to pid ", decimal(pid as u64).as_str())
    }
}

/// How far the server has been stopped.
#[derive(Clone, Copy, Debug, PartialEq, Eq, Structural)]
pub enum StopSeen {
    NoRecord,
    /// The record is of a server that is not ready.
    Stale,
    Ready,
    /// It was told to end, and did or did not.
    AfterTerminate(bool),
    /// It was killed, and is gone or is not.
    AfterKill(bool),
}

/// How it ended with the server.
#[derive(Clone, Copy, Debug, PartialEq, Eq, Structural)]
pub enum StopEnd {
    Missing,
    Stale,
    Stopped { forced: bool },
    TimedOut { forced: bool },
}

/// What is done next to stop the server.
#[derive(Clone, Copy, Debug, PartialEq, Eq, Structural)]
pub enum StopNext {
    Send(Signal),
    Done(StopEnd),
}

/// What is done next to stop the server: it is told to end, and killed only where
/// that was asked for.
pub open spec fn stop_next(seen: StopSeen, force: bool) -> StopNext {
    match seen {
        StopSeen::NoRecord => StopNext::Done(StopEnd::Missing),
        StopSeen::Stale => StopNext::Done(StopEnd::Stale),
        StopSeen::Ready => StopNext::Send(Signal::Terminate),
        StopSeen::AfterTerminate(stopped) => if stopped {
            StopNext::Done(StopEnd::Stopped { forced: false })
        } else if force {
            StopNext::Send(Signal::Kill)
        } else {
            StopNext::Done(StopEnd::TimedOut { forced: false })
        },
        StopSeen::AfterKill(stopped) => if stopped {
            StopNext::Done(StopEnd::Stopped { forced: true })
        } else {
            StopNext::Done(StopEnd::TimedOut { forced: true })
        },
    }
}

/// What is done next to stop the server.
pub fn stop(wait: Double, force: bool, seen: StopSeen) -> (out: Result<StopNext, String>)
    ensures
        match out {
            Ok(next) => !wait.is_not_positive() && next == stop_next(seen, force),
            Err(message) => wait.is_not_positive() && message@ == "--wait-timeout must be positive"@,
        },
{
    if wait.not_positive() {
        return Err(copy_of("--wait-timeout must be positive"));
    }
    Ok(
        match seen {
            StopSeen::NoRecord => StopNext::Done(StopEnd::Missing),
            StopSeen::Stale => StopNext::Done(StopEnd::Stale),
            StopSeen::Ready => StopNext::Send(Signal::Terminate),
            StopSeen::AfterTerminate(stopped) => if stopped {
                StopNext::Done(StopEnd::Stopped { forced: false })
            } else if force {
                StopNext::Send(Signal::Kill)
            } else {
                StopNext::Done(StopEnd::TimedOut { forced: false })
            },
            StopSeen::AfterKill(stopped) => if stopped {
                StopNext::Done(StopEnd::Stopped { forced: true })
            } else {
                StopNext::Done(StopEnd::TimedOut { forced: true })
            },
        },
    )
}

/// What is done next while a server is waited for to stop.
#[derive(Clone, Copy, Debug, PartialEq, Eq, Structural)]
pub enum StoppedStep {
    Stopped,
    TimedOut,
    WaitOn,
}

/// What is done next while a server is waited for to stop.
pub fn stopped_step(ready: bool, expired: bool) -> (out: StoppedStep)
    ensures
        out == (if !ready {
            StoppedStep::Stopped
        } else if expired {
            StoppedStep::TimedOut
        } else {
            StoppedStep::WaitOn
        }),
{
    if !ready {
        StoppedStep::Stopped
    } else if expired {
        StoppedStep::TimedOut
    } else {
        StoppedStep::WaitOn
    }
}

/// A report on a server that was to be stopped.
#[derive(Debug)]
pub struct ServeStopReport {
    pub schema_version: u64,
    pub state: String,
    pub stopped: bool,
    pub cleaned: bool,
    pub forced: bool,
    pub state_file: String,
    pub server: Option<ServeStateFile>,
}

/// The name of an end.
pub open spec fn end_name(end: StopEnd) -> Seq<char> {
    match end {
        StopEnd::Missing => "missing"@,
        StopEnd::Stale => "stale"@,
        StopEnd::Stopped { .. } => "stopped"@,
        StopEnd::TimedOut { .. } => "timeout"@,
    }
}

/// Whether a server was killed.
pub open spec fn was_forced(end: StopEnd) -> bool {
    end == (StopEnd::Stopped { forced: true }) || end == (StopEnd::TimedOut { forced: true })
}

/// A report on a server that was to be stopped. `removed` says whether its record is
/// gone.
pub fn stop_report(end: StopEnd, removed: bool, state_file: &str, server: Option<ServeStateFile>) -> (out:
    ServeStopReport)
    ensures
        out.schema_version == SERVE_STATE_SCHEMA_VERSION,
        out.state@ == end_name(end),
        out.stopped == (end is Stopped),
        out.cleaned == (removed && (end is Stale || end is Stopped)),
        out.forced == was_forced(end),
        out.state_file@ == state_file@,
        out.server == server,
{
    let mut stopped = false;
    let mut cleaned = false;
    let mut is_forced = false;
    let state = match end {
        StopEnd::Missing => "missing",
        StopEnd::Stale => {
            cleaned = removed;
            "stale"
        },
        StopEnd::Stopped { forced } => {
            stopped = true;
            cleaned = removed;
            is_forced = forced;
            "stopped"
        },
        StopEnd::TimedOut { forced } => {
            is_forced = forced;
            "timeout"
        },
    };
    ServeStopReport {
        schema_version: SERVE_STATE_SCHEMA_VERSION,
        state: copy_of(state),
        stopped,
        cleaned,
        forced: is_forced,
        state_file: copy_of(state_file),
        server,
    }
}

/// What becomes of a request to stop: an error where the server still runs.
pub fn stop_outcome(end: StopEnd) -> (out: Result<(), String>)
    ensures
        match out {
            Ok(_) => !(end is TimedOut),
            Err(message) => end is TimedOut && message@
                == "codex app-server did not stop within --wait-timeout"@,
        },
{
    match end {
        StopEnd::TimedOut { forced: _ } => Err(
            copy_of("codex app-server did not stop within --wait-timeout"),
        ),
        _ => Ok(()),
    }
}

/// A truth value as text.
pub open spec fn bool_text(value: bool) -> Seq<char> {
    if value {
        "true"@
    } else {
        "false"@
    }
}

fn bool_str(value: bool) -> (out: &'static str)
    ensures
        out@ == bool_text(value),
{
    if value {
        "true"
    } else {
        "false"
    }
}

/// The lines of a report on a server that was to be stopped.
pub open spec fn stop_lines(report: ServeStopReport) -> Seq<Seq<char>> {
    let forced = if report.forced {
        seq!["forced: true"@]
    } else {
        seq![]
    };
    let server = match report.server {
        Some(found) => record_head(found),
        None => seq![],
    };
    seq![
        "cx serve stop: "@ + report.state@,
        "state: "@ + report.state_file@,
        "stopped: "@ + bool_text(report.stopped),
        "cleaned: "@ + bool_text(report.cleaned),
    ] + forced + server
}

/// The lines of a report on a server that was to be stopped.
pub fn print_stop(report: &ServeStopReport) -> (out: Vec<String>)
    ensures
        crate::text::texts(out@) == stop_lines(*report),
{
    let mut out: Vec<String> = Vec::new();
    out.push(concat2("cx serve stop: ", report.state.as_str()));
    out.push(concat2("state: ", report.state_file.as_str()));
    out.push(concat2("stopped: ", bool_str(report.stopped)));
    out.push(concat2("cleaned: ", bool_str(report.cleaned)));
    proof {
        assert(crate::text::texts(out@) =~= seq![out@[0]@, out@[1]@, out@[2]@, out@[3]@]);
    }
    if report.forced {
        push_text(&mut out, copy_of("forced: true"));
    }
    match &report.server {
        Some(found) => {
            extend(&mut out, record_lines(found));
        },
        None => {},
    }
    proof {
        assert(crate::text::texts(out@) =~= stop_lines(*report));
    }
    out
}

// ---------------------------------------------------------------------------
// Probing
// ---------------------------------------------------------------------------

/// Asks for a server: the address, if one is given, and how long to wait.
#[derive(Debug)]
pub struct ServeProbeArgs {
    pub manager_dir: Option<String>,
    pub listen: Option<String>,
    pub timeout: Double,
    pub json: bool,
}

/// Asks a server for its threads.
#[derive(Debug)]
pub struct ServeThreadsArgs {
    pub manager_dir: Option<String>,
    pub listen: Option<String>,
    pub limit: u64,
    pub timeout: Double,
    pub json: bool,
}

/// The address that is asked: the one given, else the one on record.
pub open spec fn asked_url(
    listen: Option<Seq<char>>,
    state: Option<ServeStateFile>,
    state_file: Seq<char>,
) -> Result<Seq<char>, Seq<char>> {
    let url = match (listen, state) {
        (Some(given), _) => Ok(given),
        (None, Some(found)) => Ok(found.listen_url@),
        (None, None) => Err("serve state not found: "@ + state_file),
    };
    match url {
        Err(message) => Err(message),
        Ok(text) => match listen_of(text) {
            Err(message) => Err(message),
            Ok(_) => Ok(text),
        },
    }
}

fn find_url(listen: &Option<String>, state: &Option<ServeStateFile>, state_file: &str) -> (out:
    Result<String, String>)
    ensures
        crate::envfile::result_text(out) == asked_url(
            crate::text::opt_text(*listen),
            *state,
            state_file@,
        ),
{
    let url = match listen {
        Some(given) => given.clone(),
        None => match state {
            Some(found) => found.listen_url.clone(),
            None => {
                return Err(concat2("serve state not found: ", state_file));
            },
        },
    };
    match ListenUrl::parse(url.as_str()) {
        Ok(_) => Ok(url),
        Err(message) => Err(message),
    }
}

/// The address that a probe asks.
pub fn probe(args: &ServeProbeArgs, state: &Option<ServeStateFile>, state_file: &str) -> (out:
    Result<String, String>)
    ensures
        crate::envfile::result_text(out) == (if args.timeout.is_not_positive() {
            Err("--timeout must be positive"@)
        } else {
            asked_url(crate::text::opt_text(args.listen), *state, state_file@)
        }),
{
    if args.timeout.not_positive() {
        return Err(copy_of("--timeout must be positive"));
    }
    find_url(&args.listen, state, state_file)
}

/// The address that is asked for threads.
pub fn threads(args: &ServeThreadsArgs, state: &Option<ServeStateFile>, state_file: &str) -> (out:
    Result<String, String>)
    ensures
        crate::envfile::result_text(out) == (if args.timeout.is_not_positive() {
            Err("--timeout must be positive"@)
        } else if !(1 <= args.limit <= 100) {
            Err("--limit must be between 1 and 100"@)
        } else {
            asked_url(crate::text::opt_text(args.listen), *state, state_file@)
        }),
{
    if args.timeout.not_positive() {
        return Err(copy_of("--timeout must be positive"));
    }
    if args.limit < 1 || args.limit > 100 {
        return Err(copy_of("--limit must be between 1 and 100"));
    }
    find_url(&args.listen, state, state_file)
}

/// Refuses a server on record that is not ready. One whose address was given is
/// asked in any case.
pub fn check_ready(ready: bool, explicit_listen: bool, state_file: &str) -> (out: Result<(), String>)
    ensures
        match out {
            Ok(_) => ready || explicit_listen,
            Err(message) => !ready && !explicit_listen && message@ == "serve state is stale: "@
                + state_file@,
        },
{
    if !ready && !explicit_listen {
        Err(concat2("serve state is stale: ", state_file))
    } else {
        Ok(())
    }
}

/// The address of the server on record, whether it is ready or not.
pub fn registered_app_server(state: &Option<ServeStateFile>, state_file: &str) -> (out: Result<
    String,
    String,
>)
    ensures
        crate::envfile::result_text(out) == asked_url(None, *state, state_file@),
{
    find_url(&None, state, state_file)
}

/// The address of the server on record, which has to be ready.
pub fn ready_app_server(state: &Option<ServeStateFile>, ready: bool, state_file: &str) -> (out:
    Result<String, String>)
    ensures
        crate::envfile::result_text(out) == (match asked_url(None, *state, state_file@) {
            Err(message) => Err(message),
            Ok(url) => if ready {
                Ok(url)
            } else {
                Err("serve state is stale: "@ + state_file@)
            },
        }),
{
    match find_url(&None, state, state_file) {
        Err(message) => Err(message),
        Ok(url) => match check_ready(ready, false, state_file) {
            Ok(_) => Ok(url),
            Err(message) => Err(message),
        },
    }
}

/// What a probe found.
#[derive(Debug)]
pub struct ServeProbeReport {
    pub listen_url: String,
    pub ready: bool,
    pub state_file: Option<String>,
    pub slot: Option<String>,
    pub target: Option<String>,
    pub user_agent: String,
    pub codex_home: String,
    pub platform_family: String,
    pub platform_os: String,
    pub thread_count: u64,
}

/// A line for something that is known.
pub open spec fn known_line(label: Seq<char>, value: Option<Seq<char>>) -> Seq<Seq<char>> {
    match value {
        Some(text) => seq![label + text],
        None => seq![],
    }
}

fn push_known(out: &mut Vec<String>, label: &str, value: &Option<String>)
    ensures
        crate::text::texts(final(out)@) == crate::text::texts(old(out)@) + known_line(
            label@,
            crate::text::opt_text(*value),
        ),
{
    match value {
        Some(text) => {
            push_text(out, concat2(label, text.as_str()));
        },
        None => {},
    }
    proof {
        assert(crate::text::texts(out@) =~= crate::text::texts(old(out)@) + known_line(
            label@,
            crate::text::opt_text(*value),
        ));
    }
}

/// The lines about a server on record.
pub open spec fn about_record(
    state_file: Option<Seq<char>>,
    slot: Option<Seq<char>>,
    target: Option<Seq<char>>,
) -> Seq<Seq<char>> {
    known_line("state: "@, state_file) + known_line("slot: "@, slot) + known_line(
        "target: "@,
        target,
    )
}

/// The lines of a probe.
pub open spec fn probe_lines(report: ServeProbeReport) -> Seq<Seq<char>> {
    seq![
        "cx serve probe: ok"@,
        "listen: "@ + report.listen_url@,
        "ready: "@ + bool_text(report.ready),
    ] + about_record(
        crate::text::opt_text(report.state_file),
        crate::text::opt_text(report.slot),
        crate::text::opt_text(report.target),
    ) + seq![
        "user_agent: "@ + report.user_agent@,
        "codex_home: "@ + report.codex_home@,
        "platform: "@ + report.platform_family@ + "/"@ + report.platform_os@,
        "threads_seen: "@ + crate::numbers::decimal_of(report.thread_count as nat),
    ]
}

/// The lines of a probe.
pub fn print_probe(report: &ServeProbeReport) -> (out: Vec<String>)
    ensures
        crate::text::texts(out@) == probe_lines(*report),
{
    let mut out: Vec<String> = Vec::new();
    out.push(copy_of("cx serve probe: ok"));
    out.push(concat2("listen: ", report.listen_url.as_str()));
    out.push(concat2("ready: ", bool_str(report.ready)));
    proof {
        assert(crate::text::texts(out@) =~= seq![out@[0]@, out@[1]@, out@[2]@]);
    }
    push_known(&mut out, "state: ", &report.state_file);
    push_known(&mut out, "slot: ", &report.slot);
    push_known(&mut out, "target: ", &report.target);
    push_text(&mut out, concat2("user_agent: ", report.user_agent.as_str()));
    push_text(&mut out, concat2("codex_home: ", report.codex_home.as_str()));
    push_text(
        &mut out,
        concat4(
            "platform: ",
            report.platform_family.as_str(),
            "/",
            report.platform_os.as_str(),
        ),
    );
    push_text(&mut out, concat2("threads_seen: ", decimal(report.thread_count).as_str()));
    proof {
        assert(crate::text::texts(out@) =~= probe_lines(*report));
    }
    out
}

/// A thread of a server.
#[derive(Debug)]
pub struct ThreadReport {
    pub upstream_thread_id: String,
    pub title: Option<String>,
    pub preview: String,
    pub cwd: String,
    pub source: String,
    pub status: String,
    pub active: bool,
    pub created_at_unix: i64,
    pub updated_at_unix: i64,
}

/// The threads of a server.
#[derive(Debug)]
pub struct ServeThreadsReport {
    pub listen_url: String,
    pub ready: bool,
    pub state_file: Option<String>,
    pub slot: Option<String>,
    pub target: Option<String>,
    pub threads: Vec<ThreadReport>,
}

/// The line of a thread.
pub open spec fn thread_row(thread: ThreadReport) -> Seq<char> {
    let title = match thread.title {
        Some(text) => text@,
        None => seq![],
    };
    thread.upstream_thread_id@ + "\t"@ + thread.status@ + "\t"@ + thread.source@ + "\t"@
        + crate::numbers::signed_decimal_of(thread.updated_at_unix as int) + "\t"@ + title
}

fn row_of_thread(thread: &ThreadReport) -> (out: String)
    ensures
        out@ == thread_row(*thread),
{
    let head = concat3(thread.upstream_thread_id.as_str(), "\t", thread.status.as_str());
    let middle = concat4(
        head.as_str(),
        "\t",
        thread.source.as_str(),
        "\t",
    );
    let tail = concat3(
        middle.as_str(),
        signed_decimal(thread.updated_at_unix).as_str(),
        "\t",
    );
    match &thread.title {
        Some(title) => concat2(tail.as_str(), title.as_str()),
        None => {
            proof {
                assert(tail@ + seq![] =~= tail@);
            }
            tail
        },
    }
}

/// The lines of the threads of a server.
pub open spec fn threads_lines(report: ServeThreadsReport) -> Seq<Seq<char>> {
    seq![
        "cx serve threads: "@ + crate::numbers::decimal_of(report.threads@.len()),
        "listen: "@ + report.listen_url@,
        "ready: "@ + bool_text(report.ready),
    ] + about_record(
        crate::text::opt_text(report.state_file),
        crate::text::opt_text(report.slot),
        crate::text::opt_text(report.target),
    ) + report.threads@.map_values(|thread: ThreadReport| thread_row(thread))
}

/// The lines of the threads of a server.
pub fn print_threads(report: &ServeThreadsReport) -> (out: Vec<String>)
    ensures
        crate::text::texts(out@) == threads_lines(*report),
{
    let mut out: Vec<String> = Vec::new();
    out.push(concat2("cx serve threads: ", decimal(report.threads.len() as u64).as_str()));
    out.push(concat2("listen: ", report.listen_url.as_str()));
    out.push(concat2("ready: ", bool_str(report.ready)));
    proof {
        assert(crate::text::texts(out@) =~= seq![out@[0]@, out@[1]@, out@[2]@]);
    }
    push_known(&mut out, "state: ", &report.state_file);
    push_known(&mut out, "slot: ", &report.slot);
    push_known(&mut out, "target: ", &report.target);
    let ghost head = crate::text::texts(out@);
    let ghost rows = report.threads@.map_values(|thread: ThreadReport| thread_row(thread));
    let mut i: usize = 0;
    proof {
        assert(head + rows.take(0) =~= head);
    }
    while i < report.threads.len()
        invariant
            i <= report.threads.len(),
            rows == report.threads@.map_values(|thread: ThreadReport| thread_row(thread)),
            crate::text::texts(out@) == head + rows.take(i as int),
        decreases report.threads.len() - i,
    {
        push_text(&mut out, row_of_thread(&report.threads[i]));
        proof {
            assert(head + rows.take(i + 1) =~= (head + rows.take(i as int)).push(rows[i as int]));
        }
        i += 1;
    }
    proof {
        assert(rows.take(rows.len() as int) =~= rows);
        assert(crate::text::texts(out@) =~= threads_lines(*report));
    }
    out
}

// ---------------------------------------------------------------------------
// Laws
// ---------------------------------------------------------------------------

/// Only addresses on this machine are accepted.
pub proof fn servers_stay_on_this_machine(raw: Seq<char>)
    ensures
        listen_of(raw) matches Ok(listen) ==> is_loopback(listen.host),
{
}

proof fn lemma_last_colon(head: Seq<char>, tail: Seq<char>)
    requires
        !tail.contains(':'),
    ensures
        crate::text::find_last(head + seq![':'] + tail, ':') == head.len(),
    decreases tail.len(),
{
    let all = head + seq![':'] + tail;
    if tail.len() == 0 {
        assert(all.last() == ':');
    } else {
        assert(all.last() == tail.last());
        assert(tail.contains(tail[tail.len() - 1]));
        assert(all.drop_last() =~= head + seq![':'] + tail.drop_last());
        assert(!tail.drop_last().contains(':')) by {
            if tail.drop_last().contains(':') {
                let k = choose|k: int|
                    0 <= k < tail.drop_last().len() && tail.drop_last()[k] == ':';
                assert(tail[k] == ':');
            }
        }
        lemma_last_colon(head, tail.drop_last());
    }
}

/// An address that is written as a URL reads back as it was.
pub proof fn addresses_read_back(listen: ListenModel)
    requires
        is_loopback(listen.host),
    ensures
        listen_of(listen.url()) == Ok::<ListenModel, Seq<char>>(listen),
{
    reveal_strlit("ws://");
    reveal_strlit(":");
    reveal_strlit("127.0.0.1");
    reveal_strlit("localhost");
    let digits = crate::numbers::decimal_of(listen.port as nat);
    let url = listen.url();
    let rest = listen.host + seq![':'] + digits;
    assert(":"@ =~= seq![':']);
    assert(url =~= "ws://"@ + rest);
    assert(url.take(5) =~= "ws://"@);
    assert(url.skip(5) =~= rest);
    crate::numbers::lemma_parse_decimal(listen.port as nat, u16::MAX as nat);
    crate::numbers::lemma_decimal_parses(listen.port as nat);
    assert forall|k: int| 0 <= k < digits.len() implies crate::numbers::is_digit(
        #[trigger] digits[k],
    ) by {
    }
    assert(!digits.contains(':')) by {
        if digits.contains(':') {
            let k = choose|k: int| 0 <= k < digits.len() && digits[k] == ':';
            assert(crate::numbers::is_digit(digits[k]));
        }
    }
    assert(!rest.contains('/')) by {
        if rest.contains('/') {
            let k = choose|k: int| 0 <= k < rest.len() && rest[k] == '/';
            if k < listen.host.len() {
                assert(listen.host[k] == '/');
            } else if k > listen.host.len() {
                assert(crate::numbers::is_digit(digits[k - listen.host.len() - 1]));
            }
        }
    }
    lemma_last_colon(listen.host, digits);
    assert(rest.take(listen.host.len() as int) =~= listen.host);
    assert(rest.skip((listen.host.len() + 1) as int) =~= digits);
}

/// A server is killed only where that was asked for and only after it was told to
/// end, and after at most two signals it is over.
pub proof fn stopping_ends(seen: StopSeen, force: bool)
    ensures
        stop_next(seen, force) == StopNext::Send(Signal::Kill) ==> force && seen
            == StopSeen::AfterTerminate(false),
        stop_next(seen, force) == StopNext::Send(Signal::Terminate) ==> seen == StopSeen::Ready,
        seen is AfterKill ==> stop_next(seen, force) is Done,
{
}

proof fn lemma_find_last(s: Seq<char>, c: char)
    ensures
        -1 <= crate::text::find_last(s, c) < s.len(),
        crate::text::find_last(s, c) >= 0 ==> s[crate::text::find_last(s, c)] == c,
    decreases s.len(),
{
    if s.len() > 0 && s.last() != c {
        lemma_find_last(s.drop_last(), c);
    }
}

/// An accepted address is `ws://`, a host of this machine, a colon and a number, with
/// nothing behind it. What does not begin so is refused.
pub proof fn addresses_are_hosts_and_ports(raw: Seq<char>)
    ensures
        listen_of(raw) matches Ok(listen) ==> (exists|port: Seq<char>|
            raw == "ws://"@ + listen.host + seq![':'] + port && #[trigger]
                crate::numbers::parsed_number(port, 65535) == Some(listen.port as nat)),
        listen_of(raw) matches Ok(listen) ==> listen.host == "127.0.0.1"@ || listen.host
            == "localhost"@,
        !crate::text::has_prefix(raw, "ws://"@) ==> listen_of(raw) == Err::<
            ListenModel,
            Seq<char>,
        >("serve --listen only supports ws:// loopback URLs"@),
        crate::text::has_prefix(raw, "ws://"@) && raw.skip(5).contains('/') ==> listen_of(raw)
            == Err::<ListenModel, Seq<char>>("serve --listen must not include a path"@),
{
    reveal_strlit("ws://");
    if let Ok(listen) = listen_of(raw) {
        let rest = raw.skip(5);
        let k = crate::text::find_last(rest, ':');
        lemma_find_last(rest, ':');
        let port = rest.skip(k + 1);
        assert(raw =~= "ws://"@ + rest) by {
            assert(raw.take(5) =~= "ws://"@);
        }
        assert(rest =~= rest.take(k) + seq![':'] + port);
        assert(raw =~= "ws://"@ + listen.host + seq![':'] + port);
        assert(crate::numbers::parsed_number(port, 65535) is Some);
        lemma_parsed_number_fits(port, 65535);
        assert(crate::numbers::parsed_number(port, 65535) == Some(listen.port as nat));
    }
}

proof fn lemma_parsed_number_fits(text: Seq<char>, max: nat)
    ensures
        crate::numbers::parsed_number(text, max) matches Some(n) ==> n <= max,
{
}

/// A server that is there is told to end. Where it does, that is all; where it does
/// not, it is killed if that was asked for, and otherwise left. Without a server
/// there is nothing to do.
pub proof fn servers_are_stopped_step_by_step(force: bool, ended: bool)
    ensures
        stop_next(StopSeen::NoRecord, force) == StopNext::Done(StopEnd::Missing),
        stop_next(StopSeen::Stale, force) == StopNext::Done(StopEnd::Stale),
        stop_next(StopSeen::Ready, force) == StopNext::Send(Signal::Terminate),
        stop_next(StopSeen::AfterTerminate(true), force) == StopNext::Done(
            StopEnd::Stopped { forced: false },
        ),
        stop_next(StopSeen::AfterTerminate(false), true) == StopNext::Send(Signal::Kill),
        stop_next(StopSeen::AfterTerminate(false), false) == StopNext::Done(
            StopEnd::TimedOut { forced: false },
        ),
        stop_next(StopSeen::AfterKill(ended), force) == StopNext::Done(
            if ended {
                StopEnd::Stopped { forced: true }
            } else {
                StopEnd::TimedOut { forced: true }
            },
        ),
{
}

/// A question goes to the address that was given, else to the one on record, and
/// nowhere where there is neither. Every address that is asked could be listened on.
pub proof fn given_servers_are_asked_first(
    given: Seq<char>,
    found: ServeStateFile,
    state: Option<ServeStateFile>,
    state_file: Seq<char>,
)
    ensures
        listen_of(given) is Ok ==> asked_url(Some(given), state, state_file) == Ok::<
            Seq<char>,
            Seq<char>,
        >(given),
        listen_of(given) is Err ==> asked_url(Some(given), state, state_file) is Err,
        listen_of(found.listen_url@) is Ok ==> asked_url(None, Some(found), state_file) == Ok::<
            Seq<char>,
            Seq<char>,
        >(found.listen_url@),
        listen_of(found.listen_url@) is Err ==> asked_url(None, Some(found), state_file) is Err,
        asked_url(None, None, state_file) == Err::<Seq<char>, Seq<char>>(
            "serve state not found: "@ + state_file,
        ),
{
}

/// A server is missing where none is on record, ready where it answers, and stale
/// otherwise. Whether it was stopped, and how, is told apart in the same way.
pub proof fn servers_are_told_apart(ready: bool, forced: bool)
    ensures
        status_of(false, ready) == "missing"@,
        status_of(true, true) == "ready"@,
        status_of(true, false) == "stale"@,
        end_name(StopEnd::Missing) == "missing"@,
        end_name(StopEnd::Stale) == "stale"@,
        end_name(StopEnd::Stopped { forced }) == "stopped"@,
        end_name(StopEnd::TimedOut { forced }) == "timeout"@,
        was_forced(StopEnd::Stopped { forced }) == forced,
        was_forced(StopEnd::TimedOut { forced }) == forced,
        !was_forced(StopEnd::Missing) && !was_forced(StopEnd::Stale),
{
}

/// What is printed of a server names its state, its process, its slot, its target
/// where it has one, and its address.
pub proof fn servers_are_printed(report: ServeStatusReport, server: ServeStateFile)
    requires
        report.server == Some(server),
    ensures
        status_lines(report)[0] == "cx serve: "@ + report.state@,
        status_lines(report).contains("state: "@ + report.state_file@),
        status_lines(report).contains("pid: "@ + crate::numbers::decimal_of(server.pid as nat)),
        status_lines(report).contains("slot: "@ + server.slot@),
        server.target matches Some(name) ==> status_lines(report).contains("target: "@ + name@),
        status_lines(report).contains("listen: "@ + server.listen_url@),
        status_lines(report).contains("readyz: "@ + server.readyz_url@),
        status_lines(report).len() == 7 + (if server.target is Some {
            1int
        } else {
            0int
        }),
{
    let lines = status_lines(report);
    assert(lines[1] == "state: "@ + report.state_file@);
    assert(lines[2] == "pid: "@ + crate::numbers::decimal_of(server.pid as nat));
    assert(lines[3] == "slot: "@ + server.slot@);
    if let Some(name) = server.target {
        assert(lines[4] == "target: "@ + name@);
    }
    assert(lines[lines.len() - 3] == "listen: "@ + server.listen_url@);
    assert(lines[lines.len() - 2] == "readyz: "@ + server.readyz_url@);
}

/// What is printed when a server is stopped says whether it was, whether its record
/// is gone, and that it was killed where it was.
pub proof fn stops_are_printed(report: ServeStopReport)
    ensures
        stop_lines(report)[0] == "cx serve stop: "@ + report.state@,
        stop_lines(report)[1] == "state: "@ + report.state_file@,
        report.stopped ==> stop_lines(report)[2] == "stopped: "@ + "true"@,
        !report.stopped ==> stop_lines(report)[2] == "stopped: "@ + "false"@,
        report.cleaned ==> stop_lines(report)[3] == "cleaned: "@ + "true"@,
        !report.cleaned ==> stop_lines(report)[3] == "cleaned: "@ + "false"@,
        report.forced ==> stop_lines(report)[4] == "forced: true"@,
        report.server is None ==> stop_lines(report).len() == 4 + (if report.forced {
            1int
        } else {
            0int
        }),
        report.server matches Some(server) ==> stop_lines(report).last() == "listen: "@
            + server.listen_url@,
{
}

/// The threads of a server are printed in their order, one on a line: its name, its
/// state, where it comes from, when it changed, and its title.
pub proof fn threads_are_printed_in_order(report: ServeThreadsReport, i: int)
    requires
        0 <= i < report.threads@.len(),
    ensures
        ({
            let lines = threads_lines(report);
            let thread = report.threads@[i];
            let title = if thread.title is Some {
                thread.title->0@
            } else {
                seq![]
            };
            &&& lines[0] == "cx serve threads: "@ + crate::numbers::decimal_of(
                report.threads@.len(),
            )
            &&& lines[1] == "listen: "@ + report.listen_url@
            &&& lines.len() >= 3 + report.threads@.len()
            &&& lines[lines.len() - report.threads@.len() + i] == thread.upstream_thread_id@ + "\t"@
                + thread.status@ + "\t"@ + thread.source@ + "\t"@
                + crate::numbers::signed_decimal_of(thread.updated_at_unix as int) + "\t"@ + title
        }),
{
}

/// What is printed of a question names the address first, what is known of the
/// record, and what the server said of itself.
pub proof fn answers_are_printed(report: ServeProbeReport)
    ensures
        ({
            let lines = probe_lines(report);
            let n = lines.len() as int;
            &&& lines[0] == "cx serve probe: ok"@
            &&& lines[1] == "listen: "@ + report.listen_url@
            &&& lines[2] == "ready: "@ + (if report.ready {
                "true"@
            } else {
                "false"@
            })
            &&& report.state_file is Some ==> lines[3] == "state: "@ + report.state_file->0@
            &&& report.state_file is None && report.slot is Some ==> lines[3] == "slot: "@
                + report.slot->0@
            &&& report.target is Some ==> lines[n - 5] == "target: "@ + report.target->0@
            &&& lines[n - 4] == "user_agent: "@ + report.user_agent@
            &&& lines[n - 3] == "codex_home: "@ + report.codex_home@
            &&& lines[n - 2] == "platform: "@ + report.platform_family@ + "/"@ + report.platform_os@
            &&& lines[n - 1] == "threads_seen: "@ + crate::numbers::decimal_of(
                report.thread_count as nat,
            )
        }),
{
}

/// What is printed at the start names the slot first, the target where there is one,
/// and both addresses last.
pub proof fn starts_are_printed(
    slot: Seq<char>,
    target: Option<Seq<char>>,
    listen: Seq<char>,
    upstream: Seq<char>,
)
    ensures
        ({
            let lines = start_text(slot, target, listen, upstream);
            let n = lines.len() as int;
            &&& n == 3 + (if target is Some {
                1int
            } else {
                0int
            })
            &&& lines[0] == "cx serve slot: "@ + slot
            &&& target is Some ==> lines[1] == "cx serve target: "@ + target->0
            &&& lines[n - 2] == "cx serve listen: "@ + listen
            &&& lines[n - 1] == "cx serve upstream: "@ + upstream
        }),
{
}

} // verus!
