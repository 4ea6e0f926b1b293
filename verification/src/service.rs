//! The background service: a supervisor with the processes that it keeps running.

use vstd::prelude::*;

use crate::cli::ServiceSpecArgs;
use crate::lines::join;
use crate::lines::split_lines;
use crate::lines::trim_text;
use crate::numbers::decimal;
use crate::numbers::signed_decimal;
use crate::paths::absolute;
use crate::paths::join_path;
use crate::serve::StopEnd;
use crate::text::chars_of;
use crate::text::concat2;
use crate::text::concat3;
use crate::text::concat4;
use crate::text::contains_text;
use crate::text::copy_of;
use crate::text::extend;
use crate::text::opt_copy;
use crate::text::push_text;
use crate::text::string_of;

verus! {

pub const SERVICE_STATE_SCHEMA_VERSION: u64 = 1;

pub const SERVICE_TOKEN_SCHEMA_VERSION: u64 = 1;

pub const LAUNCHD_LABEL: &'static str = "dev.xiaotian.cx.service";

/// In seconds.
pub const CHILD_RESTART_BASE_DELAY: u64 = 2;

/// In seconds.
pub const CHILD_RESTART_MAX_DELAY: u64 = 60;

/// In thousandths of a second.
pub const CHILD_RESTART_STABLE_RUNTIME: u64 = 300000;

// ---------------------------------------------------------------------------
// Restarts
// ---------------------------------------------------------------------------

/// How often a process has failed in a row.
#[derive(Clone, Copy, Debug, PartialEq, Eq, Structural)]
pub struct RestartPolicy {
    pub consecutive_failures: u32,
}

impl Default for RestartPolicy {
    fn default() -> (out: RestartPolicy)
        ensures
            out.consecutive_failures == 0,
    {
        RestartPolicy { consecutive_failures: 0 }
    }
}

/// Two to the power of `n`.
pub open spec fn power2(n: nat) -> nat
    decreases n,
{
    if n == 0 {
        1
    } else {
        2 * power2((n - 1) as nat)
    }
}

/// The seconds before the next start: twice as many after each failure, up to a cap.
pub open spec fn delay_of(failures: nat) -> nat {
    let doubled = CHILD_RESTART_BASE_DELAY as nat * power2(failures);
    if doubled < CHILD_RESTART_MAX_DELAY {
        doubled
    } else {
        CHILD_RESTART_MAX_DELAY as nat
    }
}

proof fn lemma_power2_grows(a: nat, b: nat)
    requires
        a <= b,
    ensures
        power2(a) <= power2(b),
        power2(a) >= 1,
    decreases b,
{
    if a < b {
        lemma_power2_grows(a, (b - 1) as nat);
    } else if a > 0 {
        lemma_power2_grows((a - 1) as nat, (a - 1) as nat);
    }
}

/// The seconds before the next start.
pub fn restart_delay_for_failure(consecutive_failures: u32) -> (out: u64)
    ensures
        out == delay_of(consecutive_failures as nat),
{
    proof {
        reveal_with_fuel(power2, 6);
        assert(power2(5) == 32);
        if consecutive_failures >= 5 {
            lemma_power2_grows(5, consecutive_failures as nat);
        }
    }
    if consecutive_failures == 0 {
        2
    } else if consecutive_failures == 1 {
        4
    } else if consecutive_failures == 2 {
        8
    } else if consecutive_failures == 3 {
        16
    } else if consecutive_failures == 4 {
        32
    } else {
        CHILD_RESTART_MAX_DELAY
    }
}

/// The failures that count after a process ran for a while: none where it ran long
/// enough.
pub open spec fn counted(failures: u32, runtime_millis: u64) -> u32 {
    if runtime_millis >= CHILD_RESTART_STABLE_RUNTIME {
        0
    } else {
        failures
    }
}

/// One more failure, as far as they can be counted.
pub open spec fn one_more(failures: u32) -> u32 {
    if failures == u32::MAX {
        u32::MAX
    } else {
        (failures + 1) as u32
    }
}

impl RestartPolicy {
    /// Counts the end of a process that ran for `runtime_millis`, and returns the
    /// seconds before the next start.
    pub fn record_exit(&mut self, runtime_millis: u64) -> (out: u64)
        ensures
            out == delay_of(counted(old(self).consecutive_failures, runtime_millis) as nat),
            final(self).consecutive_failures == one_more(
                counted(old(self).consecutive_failures, runtime_millis),
            ),
    {
        if runtime_millis >= CHILD_RESTART_STABLE_RUNTIME {
            self.consecutive_failures = 0;
        }
        let delay = restart_delay_for_failure(self.consecutive_failures);
        if self.consecutive_failures < u32::MAX {
            self.consecutive_failures = self.consecutive_failures + 1;
        }
        delay
    }
}

// ---------------------------------------------------------------------------
// Processes that are kept running
// ---------------------------------------------------------------------------

/// A process that is kept running. Moments are in thousandths of a second on a clock
/// that never goes back.
#[derive(Debug)]
pub struct ManagedChild {
    pub name: String,
    pub running: bool,
    pub pid: u32,
    pub started_at_unix: u64,
    pub started_at: Option<u64>,
    pub restarts: u64,
    pub last_exit: Option<String>,
    pub restart_at: Option<u64>,
    pub restart_policy: RestartPolicy,
}

/// A process that is kept running, over mathematical values.
pub struct ChildModel {
    pub name: Seq<char>,
    pub running: bool,
    pub pid: u32,
    pub started_at_unix: u64,
    pub started_at: Option<u64>,
    pub restarts: u64,
    pub last_exit: Option<Seq<char>>,
    pub restart_at: Option<u64>,
    pub failures: u32,
}

impl View for ManagedChild {
    type V = ChildModel;

    open spec fn view(&self) -> ChildModel {
        ChildModel {
            name: self.name@,
            running: self.running,
            pid: self.pid,
            started_at_unix: self.started_at_unix,
            started_at: self.started_at,
            restarts: self.restarts,
            last_exit: crate::text::opt_text(self.last_exit),
            restart_at: self.restart_at,
            failures: self.restart_policy.consecutive_failures,
        }
    }
}

/// A process that was started just now.
pub open spec fn started(name: Seq<char>, pid: u32, now_unix: u64, now: u64) -> ChildModel {
    ChildModel {
        name,
        running: true,
        pid,
        started_at_unix: now_unix,
        started_at: Some(now),
        restarts: 0,
        last_exit: None,
        restart_at: None,
        failures: 0,
    }
}

/// A process that was started just now.
pub fn spawn_managed(name: &str, pid: u32, now_unix: u64, now: u64) -> (out: ManagedChild)
    ensures
        out@ == started(name@, pid, now_unix, now),
{
    ManagedChild {
        name: copy_of(name),
        running: true,
        pid,
        started_at_unix: now_unix,
        started_at: Some(now),
        restarts: 0,
        last_exit: None,
        restart_at: None,
        restart_policy: RestartPolicy { consecutive_failures: 0 },
    }
}

/// The moment `delay` seconds after `now`, as far as moments can be counted.
pub open spec fn moment_after(now: u64, delay: nat) -> u64 {
    if now + 1000 * delay > u64::MAX {
        u64::MAX
    } else {
        (now + 1000 * delay) as u64
    }
}

fn later(now: u64, delay: u64) -> (out: u64)
    requires
        delay <= 60,
    ensures
        out == moment_after(now, delay as nat),
{
    let millis: u64 = 1000 * delay;
    if now > u64::MAX - millis {
        u64::MAX
    } else {
        now + millis
    }
}

/// How long a process has run.
pub open spec fn runtime_of(child: ChildModel, now: u64) -> u64 {
    match child.started_at {
        Some(then) => if now > then {
            (now - then) as u64
        } else {
            0
        },
        None => 0,
    }
}

/// What is said of a start that is to come.
pub open spec fn delay_text(verb: Seq<char>, delay: nat) -> Seq<char> {
    "; "@ + verb + " in "@ + crate::numbers::decimal_of(delay) + "s"@
}

/// A process that has ended as `status` says.
pub open spec fn exited(child: ChildModel, status: Seq<char>, now: u64) -> ChildModel {
    let failures = counted(child.failures, runtime_of(child, now));
    let delay = delay_of(failures as nat);
    ChildModel {
        running: false,
        pid: 0,
        started_at: None,
        restarts: if child.restarts == u64::MAX {
            u64::MAX
        } else {
            (child.restarts + 1) as u64
        },
        last_exit: Some(status + delay_text("restarting"@, delay)),
        restart_at: Some(moment_after(now, delay)),
        failures: one_more(failures),
        ..child
    }
}

/// The line of the log for a process that has ended.
pub open spec fn exit_line(child: ChildModel, status: Seq<char>, now: u64) -> Seq<char> {
    let delay = delay_of(counted(child.failures, runtime_of(child, now)) as nat);
    child.name + " child exited with "@ + status + delay_text("restarting"@, delay)
}

fn pause_text(verb: &str, delay: u64) -> (out: String)
    ensures
        out@ == delay_text(verb@, delay as nat),
{
    let head = concat4("; ", verb, " in ", decimal(delay).as_str());
    concat2(head.as_str(), "s")
}

/// Takes note of the end of a process that ran, and returns the line for the log.
pub fn note_exit(child: &mut ManagedChild, status: &str, now: u64) -> (out: String)
    ensures
        final(child)@ == exited(old(child)@, status@, now),
        out@ == exit_line(old(child)@, status@, now),
{
    let runtime: u64 = match child.started_at {
        Some(then) => if now > then {
            now - then
        } else {
            0
        },
        None => 0,
    };
    proof {
        assert(runtime == runtime_of(child@, now));
        lemma_delay_is_bounded(counted(child@.failures, runtime) as nat);
    }
    let delay = child.restart_policy.record_exit(runtime);
    let pause = pause_text("restarting", delay);
    child.last_exit = Some(concat2(status, pause.as_str()));
    child.running = false;
    child.pid = 0;
    child.started_at = None;
    if child.restarts < u64::MAX {
        child.restarts = child.restarts + 1;
    }
    child.restart_at = Some(later(now, delay));
    concat4(child.name.as_str(), " child exited with ", status, pause.as_str())
}

proof fn lemma_delay_is_bounded(failures: nat)
    ensures
        2 <= delay_of(failures) <= 60,
{
    lemma_power2_grows(0, failures);
}

/// Whether it is time to start a process again.
pub fn restart_is_due(child: &ManagedChild, now: u64) -> (out: bool)
    ensures
        out == (child@.restart_at matches Some(then) && now >= then),
{
    match child.restart_at {
        Some(then) => now >= then,
        None => false,
    }
}

/// A process that was started again. What is known of its former runs is kept.
pub open spec fn restarted(child: ChildModel, pid: u32, now_unix: u64, now: u64) -> ChildModel {
    ChildModel {
        restarts: child.restarts,
        last_exit: child.last_exit,
        failures: child.failures,
        ..started(child.name, pid, now_unix, now)
    }
}

/// Takes note of a process that was started again.
pub fn note_restart(child: &mut ManagedChild, pid: u32, now_unix: u64, now: u64)
    ensures
        final(child)@ == restarted(old(child)@, pid, now_unix, now),
{
    child.running = true;
    child.pid = pid;
    child.started_at_unix = now_unix;
    child.started_at = Some(now);
    child.restart_at = None;
}

/// A process that could not be started again.
pub open spec fn not_restarted(child: ChildModel, reason: Seq<char>, now: u64) -> ChildModel {
    let delay = delay_of(child.failures as nat);
    ChildModel {
        restart_at: Some(moment_after(now, delay)),
        last_exit: Some("restart failed: "@ + reason + delay_text("retrying"@, delay)),
        failures: one_more(child.failures),
        ..child
    }
}

/// Takes note of a process that could not be started again, and returns the line for
/// the log.
pub fn note_restart_failure(child: &mut ManagedChild, reason: &str, now: u64) -> (out: String)
    ensures
        final(child)@ == not_restarted(old(child)@, reason@, now),
        out@ == old(child)@.name + " child restart failed: "@ + reason@ + delay_text(
            "retrying"@,
            delay_of(old(child)@.failures as nat),
        ),
{
    proof {
        lemma_delay_is_bounded(child@.failures as nat);
    }
    let delay = child.restart_policy.record_exit(0);
    let pause = pause_text("retrying", delay);
    child.restart_at = Some(later(now, delay));
    child.last_exit = Some(concat3("restart failed: ", reason, pause.as_str()));
    concat4(child.name.as_str(), " child restart failed: ", reason, pause.as_str())
}

/// What happened to a process between two looks.
#[derive(Debug)]
pub enum ChildEvent {
    /// It was looked at: `Some` says how it has ended.
    Polled(Option<String>),
    /// It was started again.
    Started { pid: u32, now_unix: u64 },
    StartFailed(String),
}

/// What the supervisor does next for a process.
#[derive(Debug)]
pub struct ChildAction {
    /// A line for the log.
    pub log: Option<String>,
    pub start: bool,
}

/// A process after something happened to it. Only one that runs can end.
pub open spec fn child_after(child: ChildModel, event: ChildEvent, now: u64) -> ChildModel {
    match event {
        ChildEvent::Polled(Some(status)) => if child.running {
            exited(child, status@, now)
        } else {
            child
        },
        ChildEvent::Polled(None) => child,
        ChildEvent::Started { pid, now_unix } => restarted(child, pid, now_unix, now),
        ChildEvent::StartFailed(reason) => not_restarted(child, reason@, now),
    }
}

/// The line of the log for something that happened to a process.
pub open spec fn child_log(child: ChildModel, event: ChildEvent, now: u64) -> Option<Seq<char>> {
    match event {
        ChildEvent::Polled(Some(status)) => if child.running {
            Some(exit_line(child, status@, now))
        } else {
            None
        },
        ChildEvent::Polled(None) => None,
        ChildEvent::Started { .. } => None,
        ChildEvent::StartFailed(reason) => Some(
            child.name + " child restart failed: "@ + reason@ + delay_text(
                "retrying"@,
                delay_of(child.failures as nat),
            ),
        ),
    }
}

/// Whether the supervisor starts a process after it was looked at.
pub open spec fn child_starts(child: ChildModel, event: ChildEvent, now: u64) -> bool {
    event is Polled && (child_after(child, event, now).restart_at matches Some(then) && now >= then)
}

/// One step of the supervisor for a process.
pub fn supervise(child: &mut ManagedChild, event: ChildEvent, now: u64) -> (out: ChildAction)
    ensures
        final(child)@ == child_after(old(child)@, event, now),
        crate::text::opt_text(out.log) == child_log(old(child)@, event, now),
        out.start == child_starts(old(child)@, event, now),
{
    match event {
        ChildEvent::Polled(status) => {
            let mut log: Option<String> = None;
            if child.running {
                match status {
                    Some(how) => {
                        log = Some(note_exit(child, how.as_str(), now));
                    },
                    None => {},
                }
            }
            ChildAction { log, start: restart_is_due(child, now) }
        },
        ChildEvent::Started { pid, now_unix } => {
            note_restart(child, pid, now_unix, now);
            ChildAction { log: None, start: false }
        },
        ChildEvent::StartFailed(reason) => {
            let log = note_restart_failure(child, reason.as_str(), now);
            ChildAction { log: Some(log), start: false }
        },
    }
}

// ---------------------------------------------------------------------------
// The record of the service
// ---------------------------------------------------------------------------

/// A process in the record of the service.
#[derive(Debug)]
pub struct ServiceChildState {
    pub name: String,
    pub pid: u32,
    pub started_at_unix: u64,
    pub restarts: u64,
    pub last_exit: Option<String>,
}

/// The record of the service.
#[derive(Debug)]
pub struct ServiceStateFile {
    pub schema_version: u64,
    pub pid: u32,
    pub process_group_id: Option<u32>,
    pub started_at_unix: u64,
    pub log_file: String,
    pub children: Vec<ServiceChildState>,
}

/// The record of a process that is kept running.
pub fn child_state(child: &ManagedChild) -> (out: ServiceChildState)
    ensures
        out.name@ == child@.name,
        out.pid == child@.pid,
        out.started_at_unix == child@.started_at_unix,
        out.restarts == child@.restarts,
        crate::text::opt_text(out.last_exit) == child@.last_exit,
{
    ServiceChildState {
        name: child.name.clone(),
        pid: child.pid,
        started_at_unix: child.started_at_unix,
        restarts: child.restarts,
        last_exit: opt_copy(&child.last_exit),
    }
}

/// A worker of the broker.
#[derive(Debug)]
pub struct WorkerRecord {
    pub slot: String,
    pub pid: u32,
    pub started_at_unix: u64,
    pub generation: u64,
    /// How it is doing, unless it is ready.
    pub trouble: Option<String>,
}

/// Whether a record is that of a worker.
pub open spec fn is_worker_state(state: ServiceChildState, worker: WorkerRecord) -> bool {
    &&& state.name@ == "worker:"@ + worker.slot@
    &&& state.pid == worker.pid
    &&& state.started_at_unix == worker.started_at_unix
    &&& state.restarts == worker.generation
    &&& crate::text::opt_text(state.last_exit) == crate::text::opt_text(worker.trouble)
}

/// The record of the service: its workers, then its adapter.
pub fn service_state(
    pid: u32,
    process_group_id: Option<u32>,
    started_at_unix: u64,
    log_file: &str,
    workers: &Vec<WorkerRecord>,
    telegram: &Option<ManagedChild>,
) -> (out: ServiceStateFile)
    ensures
        out.schema_version == SERVICE_STATE_SCHEMA_VERSION,
        out.pid == pid,
        out.process_group_id == process_group_id,
        out.started_at_unix == started_at_unix,
        out.log_file@ == log_file@,
        out.children@.len() == workers@.len() + (if telegram is Some {
            1int
        } else {
            0int
        }),
        forall|i: int|
            0 <= i < workers@.len() ==> is_worker_state(#[trigger] out.children@[i], workers@[i]),
        telegram matches Some(child) ==> {
            let last = out.children@.last();
            &&& last.name@ == child@.name
            &&& last.pid == child@.pid
            &&& last.started_at_unix == child@.started_at_unix
            &&& last.restarts == child@.restarts
            &&& crate::text::opt_text(last.last_exit) == child@.last_exit
        },
{
    let mut children: Vec<ServiceChildState> = Vec::new();
    let mut i: usize = 0;
    while i < workers.len()
        invariant
            i <= workers.len(),
            children@.len() == i,
            forall|j: int|
                0 <= j < i ==> is_worker_state(#[trigger] children@[j], workers@[j]),
        decreases workers.len() - i,
    {
        let worker = &workers[i];
        children.push(
            ServiceChildState {
                name: concat2("worker:", worker.slot.as_str()),
                pid: worker.pid,
                started_at_unix: worker.started_at_unix,
                restarts: worker.generation,
                last_exit: opt_copy(&worker.trouble),
            },
        );
        i += 1;
    }
    match telegram {
        Some(child) => {
            children.push(child_state(child));
        },
        None => {},
    }
    ServiceStateFile {
        schema_version: SERVICE_STATE_SCHEMA_VERSION,
        pid,
        process_group_id,
        started_at_unix,
        log_file: copy_of(log_file),
        children,
    }
}

/// A record that was read from `path`. Where the file could not be understood, `parsed`
/// says why.
pub fn check_state(parsed: Result<ServiceStateFile, String>, path: &str) -> (out: Result<
    ServiceStateFile,
    String,
>)
    ensures
        match (parsed, out) {
            (Ok(read), Ok(state)) => state == read && read.schema_version
                == SERVICE_STATE_SCHEMA_VERSION,
            (Ok(read), Err(message)) => read.schema_version != SERVICE_STATE_SCHEMA_VERSION
                && message@ == "unsupported service state schema version: "@
                + crate::numbers::decimal_of(read.schema_version as nat),
            (Err(reason), Err(message)) => message@ == "parse "@ + path@ + ": "@ + reason@,
            (Err(_), Ok(_)) => false,
        },
{
    match parsed {
        Err(reason) => Err(concat4("parse ", path, ": ", reason.as_str())),
        Ok(state) => if state.schema_version != SERVICE_STATE_SCHEMA_VERSION {
            Err(
                concat2(
                    "unsupported service state schema version: ",
                    decimal(state.schema_version).as_str(),
                ),
            )
        } else {
            Ok(state)
        },
    }
}

/// What is done next while a service is waited for to start.
#[derive(Debug)]
pub enum StartStep {
    /// It has written its record.
    Started,
    Fail(String),
    WaitOn,
}

/// What is done next while a service is waited for to start. `recorded` is the
/// process on record, and `exited` tells how the supervisor ended, if it did.
pub fn start_step(supervisor: u32, recorded: Option<u32>, exited: &Option<String>) -> (out:
    StartStep)
    ensures
        match out {
            StartStep::Started => recorded == Some(supervisor),
            StartStep::Fail(message) => recorded != Some(supervisor) && (exited matches Some(how)
                && message@ == "cx service supervisor exited before writing state: "@ + how@),
            StartStep::WaitOn => recorded != Some(supervisor) && exited is None,
        },
{
    match recorded {
        Some(pid) => {
            if pid == supervisor {
                return StartStep::Started;
            }
        },
        None => {},
    }
    match exited {
        Some(how) => StartStep::Fail(
            concat2("cx service supervisor exited before writing state: ", how.as_str()),
        ),
        None => StartStep::WaitOn,
    }
}

// ---------------------------------------------------------------------------
// Processes
// ---------------------------------------------------------------------------

/// Whether a number can be that of a process.
pub open spec fn is_pid(pid: u32) -> bool {
    0 < pid <= i32::MAX
}

/// The number of a process as the system takes it.
pub fn valid_pid(pid: u32) -> (out: Option<i32>)
    ensures
        match out {
            Some(n) => is_pid(pid) && n == pid,
            None => !is_pid(pid),
        },
{
    if pid == 0 || pid > 0x7fff_ffff {
        None
    } else {
        Some(pid as i32)
    }
}

/// What became of a signal.
#[derive(Clone, Copy, Debug, PartialEq, Eq, Structural)]
pub enum SignalAnswer {
    Delivered,
    /// The process is there, but belongs to someone else.
    NotPermitted,
    Failed,
}

/// Whether an answer tells that a process is there.
pub open spec fn tells_of_process(answer: SignalAnswer) -> bool {
    answer == SignalAnswer::Delivered || answer == SignalAnswer::NotPermitted
}

/// Whether a process is there. `probe` sends it a signal that does nothing; it is not
/// asked about a number that cannot be that of a process.
pub fn process_exists<F: FnOnce(i32) -> SignalAnswer>(pid: u32, probe: F) -> (out: bool)
    requires
        forall|n: i32| #[trigger] call_requires(probe, (n,)),
    ensures
        !is_pid(pid) ==> !out,
        is_pid(pid) ==> exists|answer: SignalAnswer|
            #[trigger] call_ensures(probe, (pid as i32,), answer) && out == tells_of_process(
                answer,
            ),
{
    match valid_pid(pid) {
        None => false,
        Some(n) => {
            let answer = probe(n);
            proof {
                assert(n == pid as i32);
                assert(call_ensures(probe, (pid as i32,), answer));
            }
            match answer {
                SignalAnswer::Delivered => true,
                SignalAnswer::NotPermitted => true,
                SignalAnswer::Failed => false,
            }
        },
    }
}

/// Whether a command line is that of the supervisor.
pub open spec fn is_supervisor(command: Option<Seq<char>>) -> bool {
    match command {
        Some(line) => crate::text::has_text(line, "service"@) && crate::text::has_text(
            line,
            "run"@,
        ),
        None => false,
    }
}

/// Whether a command line is that of the supervisor.
pub fn process_looks_like_service_supervisor(command: &Option<String>) -> (out: bool)
    ensures
        out == is_supervisor(crate::text::opt_text(*command)),
{
    match command {
        Some(line) => {
            let chars = chars_of(line.as_str());
            contains_text(&chars, "service") && contains_text(&chars, "run")
        },
        None => false,
    }
}

/// The group of the service on record, if it is still its own: the process is in that
/// group, and is the supervisor.
pub open spec fn verified_group(
    recorded: Option<u32>,
    actual: Option<u32>,
    command: Option<Seq<char>>,
) -> Option<u32> {
    match recorded {
        Some(group) => if actual == Some(group) && is_supervisor(command) {
            Some(group)
        } else {
            None
        },
        None => None,
    }
}

/// The group of the service on record, if it is still its own.
pub fn verified_service_process_group(
    state: &ServiceStateFile,
    actual: Option<u32>,
    command: &Option<String>,
) -> (out: Option<u32>)
    ensures
        out == verified_group(state.process_group_id, actual, crate::text::opt_text(*command)),
{
    match state.process_group_id {
        None => None,
        Some(group) => match actual {
            None => None,
            Some(found) => if found == group && process_looks_like_service_supervisor(command) {
                Some(group)
            } else {
                None
            },
        },
    }
}

/// Whether the service on record still runs: by its group where that is still its
/// own, else by its process.
pub fn service_state_is_current(
    group: Option<u32>,
    group_exists: bool,
    process_exists: bool,
    is_supervisor: bool,
) -> (out: bool)
    ensures
        out == (if group is Some {
            group_exists
        } else {
            process_exists && is_supervisor
        }),
{
    if group.is_some() {
        group_exists
    } else {
        process_exists && is_supervisor
    }
}

/// Whether a service has stopped: its group is gone, or, without a group, it and all
/// its processes are.
pub fn service_stopped(
    group: Option<u32>,
    group_exists: bool,
    service_alive: bool,
    any_child_alive: bool,
) -> (out: bool)
    ensures
        out == (if group is Some {
            !group_exists
        } else {
            !service_alive && !any_child_alive
        }),
{
    if group.is_some() {
        !group_exists
    } else {
        !service_alive && !any_child_alive
    }
}

/// Whom a signal is sent to.
#[derive(Clone, Copy, Debug, PartialEq, Eq, Structural)]
pub enum SignalTarget {
    Group(u32),
    Process(u32),
}

/// Whom a signal for the service is sent to: its group, unless that is the caller's
/// own, each of its processes, and the supervisor last.
pub open spec fn signal_targets(
    state: ServiceStateFile,
    group: Option<u32>,
    own_group: Option<u32>,
) -> Seq<SignalTarget> {
    let first = match group {
        Some(id) => if own_group == Some(id) {
            seq![]
        } else {
            seq![SignalTarget::Group(id)]
        },
        None => seq![],
    };
    first + state.children@.map_values(
        |child: ServiceChildState| SignalTarget::Process(child.pid),
    ) + seq![SignalTarget::Process(state.pid)]
}

/// Whom a signal for the service is sent to.
pub fn signal_service(state: &ServiceStateFile, group: Option<u32>, own_group: Option<u32>) -> (out:
    Vec<SignalTarget>)
    ensures
        out@ == signal_targets(*state, group, own_group),
{
    let mut out: Vec<SignalTarget> = Vec::new();
    match group {
        Some(id) => {
            let own = match own_group {
                Some(mine) => mine == id,
                None => false,
            };
            if !own {
                out.push(SignalTarget::Group(id));
            }
        },
        None => {},
    }
    let ghost first = out@;
    let ghost all = state.children@.map_values(
        |child: ServiceChildState| SignalTarget::Process(child.pid),
    );
    let mut i: usize = 0;
    proof {
        assert(first + all.take(0) =~= first);
    }
    while i < state.children.len()
        invariant
            i <= state.children.len(),
            all == state.children@.map_values(
                |child: ServiceChildState| SignalTarget::Process(child.pid),
            ),
            out@ == first + all.take(i as int),
        decreases state.children.len() - i,
    {
        out.push(SignalTarget::Process(state.children[i].pid));
        proof {
            assert(first + all.take(i + 1) =~= (first + all.take(i as int)).push(all[i as int]));
        }
        i += 1;
    }
    out.push(SignalTarget::Process(state.pid));
    proof {
        assert(all.take(all.len() as int) =~= all);
        assert(out@ =~= signal_targets(*state, group, own_group));
    }
    out
}

/// The number with which `kill` is told whom to signal: that of a process, or that of
/// a group with its sign turned. There is none for a number that no process can have.
pub fn kill_number(target: SignalTarget) -> (out: Option<i32>)
    ensures
        match (target, out) {
            (SignalTarget::Process(id), Some(number)) => 0 < id <= i32::MAX && number == id,
            (SignalTarget::Group(id), Some(number)) => 0 < id <= i32::MAX && number == -id,
            (SignalTarget::Process(id), None) => id == 0 || id > i32::MAX,
            (SignalTarget::Group(id), None) => id == 0 || id > i32::MAX,
        },
{
    match target {
        SignalTarget::Process(id) => if 0 < id && id <= i32::MAX as u32 {
            Some(id as i32)
        } else {
            None
        },
        SignalTarget::Group(id) => if 0 < id && id <= i32::MAX as u32 {
            Some(-(id as i32))
        } else {
            None
        },
    }
}

// ---------------------------------------------------------------------------
// Reports
// ---------------------------------------------------------------------------

/// A report on the service.
#[derive(Debug)]
pub struct ServiceStatusReport {
    pub schema_version: u64,
    pub state: String,
    pub state_file: String,
    pub log_file: String,
    pub service: Option<ServiceStateFile>,
}

/// A report on the service: no record, a record of one that runs, or of one that does
/// not.
pub fn status(
    service: Option<ServiceStateFile>,
    current: bool,
    state_file: &str,
    log_file: &str,
) -> (out: ServiceStatusReport)
    ensures
        out.schema_version == SERVICE_STATE_SCHEMA_VERSION,
        out.state@ == (if service is None {
            "missing"@
        } else if current {
            "running"@
        } else {
            "stale"@
        }),
        out.state_file@ == state_file@,
        out.log_file@ == log_file@,
        out.service == service,
{
    let state = if service.is_none() {
        "missing"
    } else if current {
        "running"
    } else {
        "stale"
    };
    ServiceStatusReport {
        schema_version: SERVICE_STATE_SCHEMA_VERSION,
        state: copy_of(state),
        state_file: copy_of(state_file),
        log_file: copy_of(log_file),
        service,
    }
}

/// A report on a service that was to be started.
pub fn start_report(
    already: bool,
    service: Option<ServiceStateFile>,
    state_file: &str,
    log_file: &str,
) -> (out: ServiceStatusReport)
    ensures
        out.schema_version == SERVICE_STATE_SCHEMA_VERSION,
        out.state@ == (if already {
            "already-running"@
        } else if service is Some {
            "started"@
        } else {
            "starting"@
        }),
        out.state_file@ == state_file@,
        out.log_file@ == log_file@,
        out.service == service,
{
    let state = if already {
        "already-running"
    } else if service.is_some() {
        "started"
    } else {
        "starting"
    };
    ServiceStatusReport {
        schema_version: SERVICE_STATE_SCHEMA_VERSION,
        state: copy_of(state),
        state_file: copy_of(state_file),
        log_file: copy_of(log_file),
        service,
    }
}

/// The lines of a process on record.
pub open spec fn child_lines_of(child: ServiceChildState) -> Seq<Seq<char>> {
    let line = "child: "@ + child.name@ + "\tpid="@ + crate::numbers::decimal_of(child.pid as nat)
        + "\trestarts="@ + crate::numbers::decimal_of(child.restarts as nat);
    match child.last_exit {
        Some(how) => seq![line, "child_last_exit: "@ + child.name@ + "\t"@ + how@],
        None => seq![line],
    }
}

fn child_lines(child: &ServiceChildState) -> (out: Vec<String>)
    ensures
        crate::text::texts(out@) == child_lines_of(*child),
{
    let head = concat4(
        "child: ",
        child.name.as_str(),
        "\tpid=",
        decimal(child.pid as u64).as_str(),
    );
    let mut out: Vec<String> = Vec::new();
    out.push(concat3(head.as_str(), "\trestarts=", decimal(child.restarts).as_str()));
    match &child.last_exit {
        Some(how) => {
            out.push(concat4("child_last_exit: ", child.name.as_str(), "\t", how.as_str()));
        },
        None => {},
    }
    proof {
        assert(crate::text::texts(out@) =~= child_lines_of(*child));
    }
    out
}

/// The lines of all processes on record.
pub open spec fn all_child_lines(children: Seq<ServiceChildState>) -> Seq<Seq<char>>
    decreases children.len(),
{
    if children.len() == 0 {
        seq![]
    } else {
        all_child_lines(children.drop_last()) + child_lines_of(children.last())
    }
}

/// The lines of a record.
pub open spec fn record_lines(service: ServiceStateFile) -> Seq<Seq<char>> {
    let group = match service.process_group_id {
        Some(id) => seq!["process_group_id: "@ + crate::numbers::decimal_of(id as nat)],
        None => seq![],
    };
    seq!["pid: "@ + crate::numbers::decimal_of(service.pid as nat)] + group + seq![
        "started_at_unix: "@ + crate::numbers::decimal_of(service.started_at_unix as nat),
    ] + all_child_lines(service.children@)
}

fn service_lines(service: &ServiceStateFile) -> (out: Vec<String>)
    ensures
        crate::text::texts(out@) == record_lines(*service),
{
    let mut out: Vec<String> = Vec::new();
    out.push(concat2("pid: ", decimal(service.pid as u64).as_str()));
    match service.process_group_id {
        Some(id) => {
            out.push(concat2("process_group_id: ", decimal(id as u64).as_str()));
        },
        None => {},
    }
    out.push(concat2("started_at_unix: ", decimal(service.started_at_unix).as_str()));
    let ghost head = crate::text::texts(out@);
    let ghost all = service.children@;
    let mut i: usize = 0;
    proof {
        assert(all.take(0) =~= seq![]);
        assert(head + all_child_lines(all.take(0)) =~= head);
    }
    while i < service.children.len()
        invariant
            i <= service.children.len(),
            all == service.children@,
            crate::text::texts(out@) == head + all_child_lines(all.take(i as int)),
        decreases service.children.len() - i,
    {
        let ghost before = all_child_lines(all.take(i as int));
        proof {
            assert(all.take(i + 1).drop_last() =~= all.take(i as int));
            assert(all.take(i + 1).last() == all[i as int]);
        }
        extend(&mut out, child_lines(&service.children[i]));
        proof {
            assert(head + before + child_lines_of(all[i as int]) =~= head + (before
                + child_lines_of(all[i as int])));
        }
        i += 1;
    }
    proof {
        assert(all.take(all.len() as int) =~= all);
        assert(crate::text::texts(out@) =~= record_lines(*service));
    }
    out
}

/// The lines of a report.
pub open spec fn report_lines(report: ServiceStatusReport) -> Seq<Seq<char>> {
    let service = match report.service {
        Some(found) => record_lines(found),
        None => seq![],
    };
    seq![
        "cx service: "@ + report.state@,
        "state: "@ + report.state_file@,
        "log: "@ + report.log_file@,
    ] + service
}

/// The lines of a report.
pub fn print_status(report: &ServiceStatusReport) -> (out: Vec<String>)
    ensures
        crate::text::texts(out@) == report_lines(*report),
{
    let mut out: Vec<String> = Vec::new();
    out.push(concat2("cx service: ", report.state.as_str()));
    out.push(concat2("state: ", report.state_file.as_str()));
    out.push(concat2("log: ", report.log_file.as_str()));
    proof {
        assert(crate::text::texts(out@) =~= seq![out@[0]@, out@[1]@, out@[2]@]);
    }
    match &report.service {
        Some(found) => {
            extend(&mut out, service_lines(found));
        },
        None => {},
    }
    proof {
        assert(crate::text::texts(out@) =~= report_lines(*report));
    }
    out
}

/// The lines of a report on a service that was to be stopped. `removed` says whether
/// its record is gone.
pub open spec fn stop_lines(end: StopEnd, removed: bool, state_file: Seq<char>) -> Seq<Seq<char>> {
    let forced = if crate::serve::was_forced(end) {
        seq!["forced: true"@]
    } else {
        seq![]
    };
    seq![
        "cx service stop: "@ + crate::serve::end_name(end),
        "state: "@ + state_file,
        "stopped: "@ + crate::serve::bool_text(end is Stopped),
        "cleaned: "@ + crate::serve::bool_text(removed && end is Stopped),
    ] + forced
}

/// The lines of a report on a service that was to be stopped.
pub fn print_stop(end: StopEnd, removed: bool, state_file: &str) -> (out: Vec<String>)
    ensures
        crate::text::texts(out@) == stop_lines(end, removed, state_file@),
{
    let mut stopped = false;
    let mut is_forced = false;
    let state = match end {
        StopEnd::Missing => "missing",
        StopEnd::Stale => "stale",
        StopEnd::Stopped { forced } => {
            stopped = true;
            is_forced = forced;
            "stopped"
        },
        StopEnd::TimedOut { forced } => {
            is_forced = forced;
            "timeout"
        },
    };
    let mut out: Vec<String> = Vec::new();
    out.push(concat2("cx service stop: ", state));
    out.push(concat2("state: ", state_file));
    out.push(
        concat2(
            "stopped: ",
            if stopped {
                "true"
            } else {
                "false"
            },
        ),
    );
    out.push(
        concat2(
            "cleaned: ",
            if removed && stopped {
                "true"
            } else {
                "false"
            },
        ),
    );
    if is_forced {
        out.push(copy_of("forced: true"));
    }
    proof {
        assert(crate::text::texts(out@) =~= stop_lines(end, removed, state_file@));
    }
    out
}

/// What becomes of a request to stop: an error where the service still runs.
pub fn stop_outcome(end: StopEnd) -> (out: Result<(), String>)
    ensures
        match out {
            Ok(_) => !(end is TimedOut),
            Err(message) => end is TimedOut && message@
                == "cx service did not stop within --wait-timeout"@,
        },
{
    match end {
        StopEnd::TimedOut { forced: _ } => Err(
            copy_of("cx service did not stop within --wait-timeout"),
        ),
        _ => Ok(()),
    }
}

/// The last lines of a log.
pub open spec fn last_of(lines: Seq<Seq<char>>, count: nat) -> Seq<Seq<char>> {
    if lines.len() <= count {
        lines
    } else {
        lines.skip(lines.len() - count)
    }
}

/// The last lines of a log.
pub fn read_last_lines(content: &str, line_count: usize) -> (out: Vec<String>)
    ensures
        crate::text::texts(out@) == last_of(
            crate::lines::lines_of(content@),
            line_count as nat,
        ),
{
    let lines = split_lines(&chars_of(content));
    let ghost all = crate::lines::lines_of(content@);
    proof {
        assert(all.len() == lines@.len());
    }
    let start: usize = if lines.len() <= line_count {
        0
    } else {
        lines.len() - line_count
    };
    let mut out: Vec<String> = Vec::new();
    let mut i: usize = start;
    while i < lines.len()
        invariant
            start <= i <= lines.len(),
            out@.len() == i - start,
            forall|j: int| 0 <= j < i - start ==> (#[trigger] out@[j])@ == lines@[start + j]@,
        decreases lines.len() - i,
    {
        out.push(string_of(&lines[i]));
        i += 1;
    }
    proof {
        assert(crate::text::texts(out@) =~= last_of(all, line_count as nat)) by {
            let result = last_of(all, line_count as nat);
            assert forall|j: int| 0 <= j < result.len() implies crate::text::texts(out@)[j]
                == #[trigger] result[j] by {
                assert(all[start + j] == lines@[start + j]@);
            }
        }
    }
    out
}

/// A line of the log.
pub fn log_line(now_unix: u64, message: &str) -> (out: String)
    ensures
        out@ == "["@ + crate::numbers::decimal_of(now_unix as nat) + "] "@ + message@,
{
    concat4("[", decimal(now_unix).as_str(), "] ", message)
}

// ---------------------------------------------------------------------------
// Tokens
// ---------------------------------------------------------------------------

/// The tokens of the service.
#[derive(Debug)]
pub struct ServiceTokenFile {
    pub schema_version: u64,
    pub telegram: Option<String>,
}

/// Tokens that were read from `path`. Where the file could not be understood, `parsed`
/// says why.
pub fn check_tokens(parsed: Result<ServiceTokenFile, String>, path: &str) -> (out: Result<
    ServiceTokenFile,
    String,
>)
    ensures
        match (parsed, out) {
            (Ok(read), Ok(tokens)) => tokens == read && read.schema_version
                == SERVICE_TOKEN_SCHEMA_VERSION,
            (Ok(read), Err(message)) => read.schema_version != SERVICE_TOKEN_SCHEMA_VERSION
                && message@ == "unsupported service token schema version: "@
                + crate::numbers::decimal_of(read.schema_version as nat),
            (Err(reason), Err(message)) => message@ == "parse "@ + path@ + ": "@ + reason@,
            (Err(_), Ok(_)) => false,
        },
{
    match parsed {
        Err(reason) => Err(concat4("parse ", path, ": ", reason.as_str())),
        Ok(tokens) => if tokens.schema_version != SERVICE_TOKEN_SCHEMA_VERSION {
            Err(
                concat2(
                    "unsupported service token schema version: ",
                    decimal(tokens.schema_version).as_str(),
                ),
            )
        } else {
            Ok(tokens)
        },
    }
}

/// The token that was typed: what is left of the input without white space around
/// it.
pub fn token_from_input(input: &str) -> (out: Result<String, String>)
    ensures
        match out {
            Ok(token) => token@ == crate::lines::trimmed(input@) && token@.len() > 0,
            Err(message) => crate::lines::trimmed(input@).len() == 0 && message@
                == "token stdin is empty"@,
        },
{
    let token = trim_text(input);
    if token.as_str().unicode_len() == 0 {
        Err(copy_of("token stdin is empty"))
    } else {
        Ok(token)
    }
}

/// The tokens of the service with one that was stored.
pub fn stored_token(token: String) -> (out: ServiceTokenFile)
    ensures
        out.schema_version == SERVICE_TOKEN_SCHEMA_VERSION,
        crate::text::opt_text(out.telegram) == Some(token@),
{
    ServiceTokenFile { schema_version: SERVICE_TOKEN_SCHEMA_VERSION, telegram: Some(token) }
}

/// The tokens of the service without the one that was deleted, if there are any.
pub fn deleted_token(tokens: Option<ServiceTokenFile>) -> (out: Option<ServiceTokenFile>)
    ensures
        match (tokens, out) {
            (Some(before), Some(after)) => after.schema_version == before.schema_version
                && after.telegram is None,
            (None, None) => true,
            _ => false,
        },
{
    match tokens {
        Some(before) => Some(
            ServiceTokenFile { schema_version: before.schema_version, telegram: None },
        ),
        None => None,
    }
}

/// The lines that say whether a token is stored. The token itself is not shown.
pub fn token_status_lines(tokens: &Option<ServiceTokenFile>, token_file: &str) -> (out: Vec<String>)
    ensures
        crate::text::texts(out@) == seq![
            if tokens matches Some(found) && found.telegram is Some {
                "cx service token: configured"@
            } else {
                "cx service token: missing"@
            },
            "token_file: "@ + token_file@,
        ],
{
    let configured = match tokens {
        Some(found) => found.telegram.is_some(),
        None => false,
    };
    let mut out: Vec<String> = Vec::new();
    if configured {
        out.push(copy_of("cx service token: configured"));
    } else {
        out.push(copy_of("cx service token: missing"));
    }
    out.push(concat2("token_file: ", token_file));
    proof {
        assert(crate::text::texts(out@) =~= seq![out@[0]@, out@[1]@]);
    }
    out
}

/// The token that is handed to the adapter: none where the environment has one, else
/// the one that is stored.
pub fn telegram_token(env_is_set: bool, env_name: &str, tokens: &Option<ServiceTokenFile>) -> (out:
    Result<Option<String>, String>)
    ensures
        match out {
            Ok(None) => env_is_set,
            Ok(Some(token)) => !env_is_set && (tokens matches Some(found)
                && crate::text::opt_text(found.telegram) == Some(token@)),
            Err(message) => !env_is_set && match tokens {
                None => message@ == env_name@
                    + " is not set and no service token is configured; pipe the token into `cx service token set telegram` or use --no-telegram"@,
                Some(found) => found.telegram is None && message@
                    == "Telegram service token is not configured"@,
            },
        },
{
    if env_is_set {
        return Ok(None);
    }
    match tokens {
        None => Err(
            concat2(
                env_name,
                " is not set and no service token is configured; pipe the token into `cx service token set telegram` or use --no-telegram",
            ),
        ),
        Some(found) => match &found.telegram {
            Some(token) => Ok(Some(token.clone())),
            None => Err(copy_of("Telegram service token is not configured")),
        },
    }
}

// ---------------------------------------------------------------------------
// Arguments
// ---------------------------------------------------------------------------

/// An argument with its value, where there is one.
pub open spec fn opt_arg(name: Seq<char>, value: Option<Seq<char>>) -> Seq<Seq<char>> {
    match value {
        Some(text) => seq![name, text],
        None => seq![],
    }
}

/// A flag, where it is set.
pub open spec fn flag_arg(name: Seq<char>, set: bool) -> Seq<Seq<char>> {
    if set {
        seq![name]
    } else {
        seq![]
    }
}

/// The chats that are allowed. The number stands behind an equals sign, so that a
/// negative one is not read as an option.
pub open spec fn chat_args(chats: Seq<i64>) -> Seq<Seq<char>> {
    chats.map_values(
        |chat: i64| "--allow-chat="@ + crate::numbers::signed_decimal_of(chat as int),
    )
}

fn push_opt(argv: &mut Vec<String>, name: &str, value: &Option<String>)
    ensures
        crate::text::texts(final(argv)@) == crate::text::texts(old(argv)@) + opt_arg(
            name@,
            crate::text::opt_text(*value),
        ),
{
    match value {
        Some(text) => {
            push_text(argv, copy_of(name));
            push_text(argv, text.clone());
        },
        None => {},
    }
    proof {
        assert(crate::text::texts(argv@) =~= crate::text::texts(old(argv)@) + opt_arg(
            name@,
            crate::text::opt_text(*value),
        ));
    }
}

fn push_flag(argv: &mut Vec<String>, name: &str, set: bool)
    ensures
        crate::text::texts(final(argv)@) == crate::text::texts(old(argv)@) + flag_arg(name@, set),
{
    if set {
        push_text(argv, copy_of(name));
    }
    proof {
        assert(crate::text::texts(argv@) =~= crate::text::texts(old(argv)@) + flag_arg(
            name@,
            set,
        ));
    }
}

fn push_pair(argv: &mut Vec<String>, name: &str, value: &str)
    ensures
        crate::text::texts(final(argv)@) == crate::text::texts(old(argv)@) + seq![name@, value@],
{
    push_text(argv, copy_of(name));
    push_text(argv, copy_of(value));
    proof {
        assert(crate::text::texts(argv@) =~= crate::text::texts(old(argv)@) + seq![name@, value@]);
    }
}

fn push_chats(argv: &mut Vec<String>, chats: &Vec<i64>)
    ensures
        crate::text::texts(final(argv)@) == crate::text::texts(old(argv)@) + chat_args(chats@),
{
    let ghost head = crate::text::texts(argv@);
    let ghost all = chat_args(chats@);
    let mut i: usize = 0;
    proof {
        assert(head + all.take(0) =~= head);
    }
    while i < chats.len()
        invariant
            i <= chats.len(),
            all == chat_args(chats@),
            head == crate::text::texts(old(argv)@),
            crate::text::texts(argv@) == head + all.take(i as int),
        decreases chats.len() - i,
    {
        push_text(argv, concat2("--allow-chat=", signed_decimal(chats[i]).as_str()));
        proof {
            assert(head + all.take(i + 1) =~= (head + all.take(i as int)).push(all[i as int]));
        }
        i += 1;
    }
    proof {
        assert(all.take(all.len() as int) =~= all);
    }
}

/// The arguments that both the supervisor and the adapter are given at the end.
pub open spec fn adapter_args(spec: ServiceSpecArgs) -> Seq<Seq<char>> {
    chat_args(spec.allow_chats@) + flag_arg("--acquire-lease"@, spec.acquire_lease) + flag_arg(
        "--steal"@,
        spec.steal,
    ) + flag_arg("--log-updates"@, spec.log_updates)
}

fn push_adapter_args(argv: &mut Vec<String>, spec: &ServiceSpecArgs)
    ensures
        crate::text::texts(final(argv)@) == crate::text::texts(old(argv)@) + adapter_args(*spec),
{
    push_chats(argv, &spec.allow_chats);
    push_flag(argv, "--acquire-lease", spec.acquire_lease);
    push_flag(argv, "--steal", spec.steal);
    push_flag(argv, "--log-updates", spec.log_updates);
    proof {
        assert(crate::text::texts(argv@) =~= crate::text::texts(old(argv)@) + adapter_args(*spec));
    }
}

/// The arguments of the supervisor.
pub open spec fn spec_args(spec: ServiceSpecArgs) -> Seq<Seq<char>> {
    opt_arg("--manager-dir"@, crate::text::opt_text(spec.manager_dir)) + opt_arg(
        "--codex-bin"@,
        crate::text::opt_text(spec.codex_bin),
    ) + opt_arg("--slot"@, crate::text::opt_text(spec.slot)) + opt_arg(
        "--target"@,
        crate::text::opt_text(spec.target),
    ) + seq!["--listen"@, spec.listen@] + flag_arg("--no-telegram"@, spec.no_telegram) + seq![
        "--telegram-bot-token-env"@,
        spec.telegram_bot_token_env@,
    ] + seq!["--app-server-timeout"@, spec.app_server_timeout@]
        + adapter_args(spec)
}

/// Adds the arguments of the supervisor.
pub fn append_spec_argv(argv: &mut Vec<String>, spec: &ServiceSpecArgs)
    ensures
        crate::text::texts(final(argv)@) == crate::text::texts(old(argv)@) + spec_args(*spec),
{
    let mut more: Vec<String> = Vec::new();
    push_opt(&mut more, "--manager-dir", &spec.manager_dir);
    proof {
        assert(crate::text::texts(more@) =~= opt_arg(
            "--manager-dir"@,
            crate::text::opt_text(spec.manager_dir),
        ));
    }
    push_opt(&mut more, "--codex-bin", &spec.codex_bin);
    push_opt(&mut more, "--slot", &spec.slot);
    push_opt(&mut more, "--target", &spec.target);
    push_pair(&mut more, "--listen", spec.listen.as_str());
    push_flag(&mut more, "--no-telegram", spec.no_telegram);
    push_pair(&mut more, "--telegram-bot-token-env", spec.telegram_bot_token_env.as_str());
    push_pair(
        &mut more,
        "--app-server-timeout",
        spec.app_server_timeout.as_str(),
    );
    push_adapter_args(&mut more, spec);
    extend(argv, more);
}

/// The arguments of the adapter.
pub fn telegram_args(spec: &ServiceSpecArgs) -> (out: Vec<String>)
    ensures
        crate::text::texts(out@) == seq!["channel"@, "telegram"@, "run"@] + opt_arg(
            "--manager-dir"@,
            crate::text::opt_text(spec.manager_dir),
        ) + seq!["--bot-token-env"@, spec.telegram_bot_token_env@] + seq![
            "--app-server-timeout"@,
            spec.app_server_timeout@,
        ] + adapter_args(*spec),
{
    let mut out: Vec<String> = Vec::new();
    out.push(copy_of("channel"));
    out.push(copy_of("telegram"));
    out.push(copy_of("run"));
    proof {
        assert(crate::text::texts(out@) =~= seq!["channel"@, "telegram"@, "run"@]);
    }
    push_opt(&mut out, "--manager-dir", &spec.manager_dir);
    push_pair(&mut out, "--bot-token-env", spec.telegram_bot_token_env.as_str());
    push_pair(
        &mut out,
        "--app-server-timeout",
        spec.app_server_timeout.as_str(),
    );
    push_adapter_args(&mut out, spec);
    out
}

/// The command line of the supervisor.
pub fn supervisor_argv(exe: &str, spec: &ServiceSpecArgs) -> (out: Vec<String>)
    ensures
        crate::text::texts(out@) == seq![exe@, "service"@, "run"@] + spec_args(*spec),
{
    let mut out: Vec<String> = Vec::new();
    out.push(copy_of(exe));
    out.push(copy_of("service"));
    out.push(copy_of("run"));
    proof {
        assert(crate::text::texts(out@) =~= seq![exe@, "service"@, "run"@]);
    }
    append_spec_argv(&mut out, spec);
    out
}

/// A path of Codex that can be started from anywhere: one from the root, else the one
/// found on the search path, else one below the current directory.
pub fn resolve_launchable_command_path(
    path: &str,
    on_path: &Option<String>,
    current_dir: &str,
    is_file_here: bool,
) -> (out: Result<String, String>)
    ensures
        crate::envfile::result_text(out) == (if crate::paths::is_absolute(path@) {
            Ok(path@)
        } else {
            match on_path {
                Some(found) => Ok(found@),
                None => if is_file_here {
                    Ok(crate::paths::joined_path(current_dir@, path@))
                } else {
                    Err(
                        "unable to resolve codex executable "@ + path@
                            + "; pass --codex-bin /absolute/path"@,
                    )
                },
            }
        }),
{
    if absolute(path) {
        return Ok(copy_of(path));
    }
    match on_path {
        Some(found) => Ok(found.clone()),
        None => if is_file_here {
            Ok(join_path(current_dir, path))
        } else {
            Err(
                concat3(
                    "unable to resolve codex executable ",
                    path,
                    "; pass --codex-bin /absolute/path",
                ),
            )
        },
    }
}

// ---------------------------------------------------------------------------
// Installation
// ---------------------------------------------------------------------------

/// A character as it stands in the text of XML.
pub open spec fn xml_char(c: char) -> Seq<char> {
    if c == '&' {
        "&amp;"@
    } else if c == '<' {
        "&lt;"@
    } else if c == '>' {
        "&gt;"@
    } else if c == '"' {
        "&quot;"@
    } else if c == '\'' {
        "&apos;"@
    } else {
        seq![c]
    }
}

/// A text as it stands in XML.
pub open spec fn xml_text(text: Seq<char>) -> Seq<char>
    decreases text.len(),
{
    if text.len() == 0 {
        seq![]
    } else {
        xml_text(text.drop_last()) + xml_char(text.last())
    }
}

fn push_chars(out: &mut Vec<char>, text: &str)
    ensures
        final(out)@ == old(out)@ + text@,
{
    let mut more = chars_of(text);
    out.append(&mut more);
}

/// A text as it stands in XML.
pub fn xml_escape(value: &str) -> (out: String)
    ensures
        out@ == xml_text(value@),
{
    let chars = chars_of(value);
    let mut out: Vec<char> = Vec::new();
    let mut i: usize = 0;
    proof {
        assert(value@.take(0) =~= seq![]);
    }
    while i < chars.len()
        invariant
            i <= chars.len(),
            chars@ == value@,
            out@ == xml_text(value@.take(i as int)),
        decreases chars.len() - i,
    {
        let c = chars[i];
        let ghost before = out@;
        proof {
            assert(value@.take(i + 1).drop_last() =~= value@.take(i as int));
            assert(value@.take(i + 1).last() == c);
        }
        if c == '&' {
            push_chars(&mut out, "&amp;");
        } else if c == '<' {
            push_chars(&mut out, "&lt;");
        } else if c == '>' {
            push_chars(&mut out, "&gt;");
        } else if c == '"' {
            push_chars(&mut out, "&quot;");
        } else if c == '\'' {
            push_chars(&mut out, "&apos;");
        } else {
            out.push(c);
            proof {
                assert(out@ =~= before + seq![c]);
            }
        }
        i += 1;
    }
    proof {
        assert(value@.take(value@.len() as int) =~= value@);
    }
    string_of(&out)
}

/// An argument in the file of the service.
pub open spec fn plist_arg(arg: Seq<char>) -> Seq<char> {
    "    <string>"@ + xml_text(arg) + "</string>"@
}

/// The file that tells the system how to run the service.
pub open spec fn plist_of(argv: Seq<Seq<char>>, stdout: Seq<char>, stderr: Seq<char>) -> Seq<char> {
    "<?xml version=\"1.0\" encoding=\"UTF-8\"?>\n<!DOCTYPE plist PUBLIC \"-//Apple//DTD PLIST 1.0//EN\" \"http://www.apple.com/DTDs/PropertyList-1.0.dtd\">\n<plist version=\"1.0\">\n<dict>\n  <key>Label</key>\n  <string>"@
        + "dev.xiaotian.cx.service"@
        + "</string>\n  <key>ProgramArguments</key>\n  <array>\n"@ + crate::lines::joined(
        argv.map_values(|arg: Seq<char>| plist_arg(arg)),
        "\n"@,
    )
        + "\n  </array>\n  <key>RunAtLoad</key>\n  <true/>\n  <key>StandardOutPath</key>\n  <string>"@
        + xml_text(stdout) + "</string>\n  <key>StandardErrorPath</key>\n  <string>"@ + xml_text(
        stderr,
    ) + "</string>\n</dict>\n</plist>\n"@
}

/// The file that tells the system how to run the service.
pub fn launchd_plist(argv: &Vec<String>, stdout: &str, stderr: &str) -> (out: String)
    ensures
        out@ == plist_of(crate::text::texts(argv@), stdout@, stderr@),
{
    let ghost rows = crate::text::texts(argv@).map_values(|arg: Seq<char>| plist_arg(arg));
    let mut args: Vec<String> = Vec::new();
    let mut i: usize = 0;
    while i < argv.len()
        invariant
            i <= argv.len(),
            args@.len() == i,
            forall|j: int| 0 <= j < i ==> (#[trigger] args@[j])@ == plist_arg(argv@[j]@),
        decreases argv.len() - i,
    {
        args.push(
            concat3("    <string>", xml_escape(argv[i].as_str()).as_str(), "</string>"),
        );
        i += 1;
    }
    proof {
        assert(crate::text::texts(args@) =~= rows);
    }
    let head = concat4(
        "<?xml version=\"1.0\" encoding=\"UTF-8\"?>\n<!DOCTYPE plist PUBLIC \"-//Apple//DTD PLIST 1.0//EN\" \"http://www.apple.com/DTDs/PropertyList-1.0.dtd\">\n<plist version=\"1.0\">\n<dict>\n  <key>Label</key>\n  <string>",
        LAUNCHD_LABEL,
        "</string>\n  <key>ProgramArguments</key>\n  <array>\n",
        join(&args, "\n").as_str(),
    );
    let middle = concat4(
        head.as_str(),
        "\n  </array>\n  <key>RunAtLoad</key>\n  <true/>\n  <key>StandardOutPath</key>\n  <string>",
        xml_escape(stdout).as_str(),
        "</string>\n  <key>StandardErrorPath</key>\n  <string>",
    );
    concat3(middle.as_str(), xml_escape(stderr).as_str(), "</string>\n</dict>\n</plist>\n")
}

/// The domain of a user, as the system names it.
pub fn launchctl_target(uid: &str) -> (out: String)
    ensures
        out@ == "gui/"@ + crate::lines::trimmed(uid@),
{
    concat2("gui/", trim_text(uid).as_str())
}

/// The service of a user, as the system names it.
pub fn launchctl_service(target: &str) -> (out: String)
    ensures
        out@ == target@ + "/"@ + "dev.xiaotian.cx.service"@,
{
    concat3(target, "/", LAUNCHD_LABEL)
}

/// What is said of a service that was to be removed.
pub fn uninstall_line(plist: &str, was_there: bool) -> (out: String)
    ensures
        out@ == (if was_there {
            "removed launchd service: "@
        } else {
            "launchd service not installed: "@
        }) + plist@,
{
    if was_there {
        concat2("removed launchd service: ", plist)
    } else {
        concat2("launchd service not installed: ", plist)
    }
}

// ---------------------------------------------------------------------------
// Laws
// ---------------------------------------------------------------------------

/// The more often a process fails in a row, the longer it waits, but never longer
/// than the cap and never shorter than at first.
pub proof fn delays_grow_to_the_cap(a: nat, b: nat)
    requires
        a <= b,
    ensures
        CHILD_RESTART_BASE_DELAY <= delay_of(a) <= delay_of(b) <= CHILD_RESTART_MAX_DELAY,
{
    lemma_power2_grows(a, b);
}

/// A process that ran long enough waits as if it had never failed.
pub proof fn stable_runs_start_over(failures: u32, runtime_millis: u64)
    requires
        runtime_millis >= CHILD_RESTART_STABLE_RUNTIME,
    ensures
        delay_of(counted(failures, runtime_millis) as nat) == CHILD_RESTART_BASE_DELAY,
{
    assert(power2(0) == 1);
}

/// A process either runs or waits for its next start, and every step keeps that.
pub open spec fn is_kept(child: ChildModel) -> bool {
    if child.running {
        child.restart_at is None && child.started_at is Some
    } else {
        child.restart_at is Some && child.pid == 0
    }
}

/// A process that was started is kept, and every step keeps it so. A start is only
/// tried for one that does not run.
pub proof fn children_are_kept(
    name: Seq<char>,
    pid: u32,
    now_unix: u64,
    child: ChildModel,
    event: ChildEvent,
    now: u64,
)
    requires
        is_kept(child),
        event is StartFailed ==> !child.running,
    ensures
        is_kept(started(name, pid, now_unix, now)),
        is_kept(child_after(child, event, now)),
        child_starts(child, event, now) ==> !child_after(child, event, now).running,
{
}

/// Restarts are counted, never forgotten.
pub proof fn restarts_only_grow(child: ChildModel, event: ChildEvent, now: u64)
    ensures
        child_after(child, event, now).restarts >= child.restarts,
        child_after(child, event, now).name == child.name,
{
}

/// A text in XML holds none of the characters that could end it.
pub proof fn xml_text_is_plain(text: Seq<char>, i: int)
    requires
        0 <= i < xml_text(text).len(),
    ensures
        xml_text(text)[i] != '<',
        xml_text(text)[i] != '>',
        xml_text(text)[i] != '"',
        xml_text(text)[i] != '\'',
    decreases text.len(),
{
    reveal_strlit("&amp;");
    reveal_strlit("&lt;");
    reveal_strlit("&gt;");
    reveal_strlit("&quot;");
    reveal_strlit("&apos;");
    let before = xml_text(text.drop_last());
    if i < before.len() {
        xml_text_is_plain(text.drop_last(), i);
    } else {
        assert(xml_text(text)[i] == xml_char(text.last())[i - before.len()]);
    }
}

/// The first pause is two seconds, each is twice the one before, and none is longer
/// than a minute.
pub proof fn pauses_double_up_to_a_minute(failures: nat)
    ensures
        delay_of(0) == 2,
        2 * delay_of(failures) < 60 ==> delay_of(failures + 1) == 2 * delay_of(failures),
        2 * delay_of(failures) >= 60 ==> delay_of(failures + 1) == 60,
{
    assert(power2(0) == 1);
    assert(power2(failures + 1) == 2 * power2(failures));
}

/// A child that ended is started again after a pause: two seconds where it had run for
/// five minutes, and longer the more often it ended before that.
pub proof fn ended_children_wait(child: ChildModel, status: Seq<char>, now: u64, then: u64)
    requires
        child.started_at == Some(then),
        then <= now,
        now <= u64::MAX - 60000,
        child.restarts < u64::MAX,
        child.failures < u32::MAX,
    ensures
        ({
            let after = exited(child, status, now);
            &&& !after.running && after.pid == 0 && after.started_at is None
            &&& after.name == child.name
            &&& after.restarts == child.restarts + 1
            &&& after.restart_at is Some && now + 2000 <= after.restart_at->0 <= now + 60000
            &&& now - then >= 300000 ==> after.failures == 1 && after.restart_at == Some(
                (now + 2000) as u64,
            )
            &&& now - then < 300000 ==> after.failures == child.failures + 1 && after.restart_at
                == Some((now + 1000 * delay_of(child.failures as nat)) as u64)
            &&& after.last_exit is Some && crate::text::has_prefix(after.last_exit->0, status)
        }),
{
    delays_grow_to_the_cap(0, child.failures as nat);
    pauses_double_up_to_a_minute(0);
    let after = exited(child, status, now);
    let text = after.last_exit->0;
    assert(text.take(status.len() as int) =~= status);
}

/// A child is started when its pause is over, and not while it runs.
pub proof fn children_start_after_their_pause(child: ChildModel, now: u64, then: u64)
    ensures
        child.restart_at == Some(then) ==> (child_starts(child, ChildEvent::Polled(None), now)
            <==> now >= then),
        child.restart_at is None ==> !child_starts(child, ChildEvent::Polled(None), now),
        child_after(child, ChildEvent::Polled(None), now) == child,
        child_log(child, ChildEvent::Polled(None), now) is None,
{
}

/// A child that is started again runs from then on, and what is known of its past is
/// kept. One that could not be started waits once more, longer than before.
pub proof fn started_children_run(
    child: ChildModel,
    pid: u32,
    now_unix: u64,
    reason: String,
    now: u64,
)
    requires
        now <= u64::MAX - 60000,
        child.failures < u32::MAX,
    ensures
        ({
            let after = child_after(child, ChildEvent::Started { pid, now_unix }, now);
            &&& after.running && after.pid == pid && after.started_at == Some(now)
            &&& after.started_at_unix == now_unix
            &&& after.restart_at is None
            &&& after.name == child.name && after.restarts == child.restarts
            &&& after.failures == child.failures && after.last_exit == child.last_exit
        }),
        ({
            let after = child_after(child, ChildEvent::StartFailed(reason), now);
            &&& after.failures == child.failures + 1
            &&& after.restart_at == Some((now + 1000 * delay_of(child.failures as nat)) as u64)
            &&& after.running == child.running && after.restarts == child.restarts
        }),
        child_log(child, ChildEvent::StartFailed(reason), now) matches Some(line)
            && crate::text::has_prefix(line, child.name + " child restart failed: "@ + reason@),
{
    delays_grow_to_the_cap(child.failures as nat, child.failures as nat);
    let line = child_log(child, ChildEvent::StartFailed(reason), now)->0;
    let head = child.name + " child restart failed: "@ + reason@;
    assert(line.take(head.len() as int) =~= head);
}

/// An end that is noticed is logged with the child's name and how it ended.
pub proof fn ends_are_logged(child: ChildModel, status: String, now: u64)
    requires
        child.running,
    ensures
        child_log(child, ChildEvent::Polled(Some(status)), now) matches Some(line)
            && crate::text::has_prefix(line, child.name + " child exited with "@ + status@),
        !child_after(child, ChildEvent::Polled(Some(status)), now).running,
{
    let line = child_log(child, ChildEvent::Polled(Some(status)), now)->0;
    let head = child.name + " child exited with "@ + status@;
    assert(line.take(head.len() as int) =~= head);
}

/// A group is trusted exactly where it is on record, the process is in it, and its
/// command line is that of a service.
pub proof fn groups_are_trusted_where_all_agrees(
    recorded: Option<u32>,
    actual: Option<u32>,
    command: Option<Seq<char>>,
    group: u32,
)
    ensures
        verified_group(recorded, actual, command) == Some(group) <==> recorded == Some(group)
            && actual == Some(group) && command is Some && crate::text::has_text(
            command->0,
            "service"@,
        ) && crate::text::has_text(command->0, "run"@),
{
}

/// A signal goes to the group unless that is one's own, to every child, and to the
/// service itself last.
pub proof fn signals_reach_everyone(
    state: ServiceStateFile,
    group: Option<u32>,
    own_group: Option<u32>,
    i: int,
)
    requires
        0 <= i < state.children@.len(),
    ensures
        ({
            let targets = signal_targets(state, group, own_group);
            let foreign = group is Some && own_group != group;
            &&& targets.len() == state.children@.len() + 1 + (if foreign {
                1int
            } else {
                0int
            })
            &&& foreign ==> targets[0] == SignalTarget::Group(group->0)
            &&& targets[targets.len() - 2 - i] == SignalTarget::Process(
                state.children@[state.children@.len() - 1 - i].pid,
            )
            &&& targets.last() == SignalTarget::Process(state.pid)
        }),
{
}

/// The last lines are the end of the text, as many as were asked for where there are
/// that many.
pub proof fn last_lines_are_the_end(lines: Seq<Seq<char>>, count: nat, i: int)
    ensures
        last_of(lines, count).len() == (if count < lines.len() {
            count
        } else {
            lines.len()
        }),
        0 <= i < last_of(lines, count).len() ==> last_of(lines, count)[i] == lines[lines.len()
            - last_of(lines, count).len() + i],
{
}

/// A text is written for XML character by character, and five characters are written
/// otherwise than they are.
pub proof fn xml_is_written_by_character(a: Seq<char>, b: Seq<char>, c: char)
    ensures
        xml_text(a + b) == xml_text(a) + xml_text(b),
        xml_text(seq!['&']) == "&amp;"@,
        xml_text(seq!['<']) == "&lt;"@,
        xml_text(seq!['>']) == "&gt;"@,
        xml_text(seq!['"']) == "&quot;"@,
        xml_text(seq!['\'']) == "&apos;"@,
        c != '&' && c != '<' && c != '>' && c != '"' && c != '\'' ==> xml_text(seq![c]) == seq![c],
        xml_text(seq![]) == Seq::<char>::empty(),
    decreases b.len(),
{
    reveal_with_fuel(xml_text, 2);
    assert(seq!['&'].drop_last() =~= seq![]);
    assert(seq!['<'].drop_last() =~= seq![]);
    assert(seq!['>'].drop_last() =~= seq![]);
    assert(seq!['"'].drop_last() =~= seq![]);
    assert(seq!['\''].drop_last() =~= seq![]);
    assert(seq![c].drop_last() =~= seq![]);
    assert(Seq::<char>::empty() + "&amp;"@ =~= "&amp;"@);
    assert(Seq::<char>::empty() + "&lt;"@ =~= "&lt;"@);
    assert(Seq::<char>::empty() + "&gt;"@ =~= "&gt;"@);
    assert(Seq::<char>::empty() + "&quot;"@ =~= "&quot;"@);
    assert(Seq::<char>::empty() + "&apos;"@ =~= "&apos;"@);
    assert(Seq::<char>::empty() + seq![c] =~= seq![c]);
    if b.len() == 0 {
        assert(a + b =~= a);
        assert(xml_text(b) =~= seq![]);
    } else {
        assert((a + b).drop_last() =~= a + b.drop_last());
        xml_is_written_by_character(a, b.drop_last(), c);
        assert(xml_text(a + b) =~= xml_text(a) + xml_text(b));
    }
}

/// Whether `name` stands in `args` with `value` behind it.
pub open spec fn has_option(args: Seq<Seq<char>>, name: Seq<char>, value: Seq<char>) -> bool {
    exists|i: int| 0 <= i < args.len() - 1 && #[trigger] args[i] == name && args[i + 1] == value
}

/// One where `given` holds, and nothing otherwise.
pub open spec fn count_of(given: bool) -> int {
    if given {
        1
    } else {
        0
    }
}

/// What stands in `head` stands in `head` with `part` behind it, and so does `part`.
proof fn lemma_more_args(head: Seq<Seq<char>>, part: Seq<Seq<char>>)
    ensures
        forall|name: Seq<char>, value: Seq<char>|
            has_option(head, name, value) ==> #[trigger] has_option(head + part, name, value),
        forall|name: Seq<char>|
            head.contains(name) || part.contains(name) ==> #[trigger] (head + part).contains(name),
        part.len() == 2 ==> has_option(head + part, part[0], part[1]),
{
    let all = head + part;
    assert forall|name: Seq<char>, value: Seq<char>| has_option(head, name, value) implies #[trigger]
        has_option(head + part, name, value) by {
        let i = choose|i: int|
            0 <= i < head.len() - 1 && #[trigger] head[i] == name && head[i + 1] == value;
        assert(all[i] == name && all[i + 1] == value);
    }
    assert forall|name: Seq<char>| head.contains(name) || part.contains(name) implies #[trigger] (
    head + part).contains(name) by {
        if head.contains(name) {
            let i = choose|i: int| 0 <= i < head.len() && head[i] == name;
            assert(all[i] == name);
        } else {
            let i = choose|i: int| 0 <= i < part.len() && part[i] == name;
            assert(all[head.len() + i] == name);
        }
    }
    if part.len() == 2 {
        let at = head.len() as int;
        assert(all[at] == part[0] && all[at + 1] == part[1]);
    }
}

/// The rules for incoming messages are handed on: each chat, and each flag that is
/// set.
pub proof fn adapters_are_told_their_rules(spec: ServiceSpecArgs, chat: int)
    requires
        -1 <= chat < spec.allow_chats@.len(),
    ensures
        ({
            let args = adapter_args(spec);
            &&& spec.acquire_lease ==> args.contains("--acquire-lease"@)
            &&& spec.steal ==> args.contains("--steal"@)
            &&& spec.log_updates ==> args.contains("--log-updates"@)
            &&& chat >= 0 ==> args[chat] == "--allow-chat="@ + crate::numbers::signed_decimal_of(
                spec.allow_chats@[chat] as int,
            )
            &&& args.len() == spec.allow_chats@.len() + count_of(spec.acquire_lease) + count_of(
                spec.steal,
            ) + count_of(spec.log_updates)
        }),
{
    let chats = chat_args(spec.allow_chats@);
    let lease = flag_arg("--acquire-lease"@, spec.acquire_lease);
    let steal = flag_arg("--steal"@, spec.steal);
    let log = flag_arg("--log-updates"@, spec.log_updates);
    assert(spec.acquire_lease ==> lease[0] == "--acquire-lease"@);
    assert(spec.steal ==> steal[0] == "--steal"@);
    assert(spec.log_updates ==> log[0] == "--log-updates"@);
    lemma_more_args(chats, lease);
    lemma_more_args(chats + lease, steal);
    lemma_more_args(chats + lease + steal, log);
}

/// A service is told all that was given for it: each option with its value, each flag
/// that is set, the rules for messages last, and nothing else.
pub proof fn services_are_told_their_settings(spec: ServiceSpecArgs)
    ensures
        ({
            let args = spec_args(spec);
            &&& spec.manager_dir is Some ==> has_option(args, "--manager-dir"@, spec.manager_dir->0@)
            &&& spec.codex_bin is Some ==> has_option(args, "--codex-bin"@, spec.codex_bin->0@)
            &&& spec.slot is Some ==> has_option(args, "--slot"@, spec.slot->0@)
            &&& spec.target is Some ==> has_option(args, "--target"@, spec.target->0@)
            &&& has_option(args, "--listen"@, spec.listen@)
            &&& has_option(args, "--telegram-bot-token-env"@, spec.telegram_bot_token_env@)
            &&& has_option(args, "--app-server-timeout"@, spec.app_server_timeout@)
            &&& spec.no_telegram ==> args.contains("--no-telegram"@)
            &&& args.len() == 6 + 2 * (count_of(spec.manager_dir is Some) + count_of(
                spec.codex_bin is Some,
            ) + count_of(spec.slot is Some) + count_of(spec.target is Some)) + count_of(
                spec.no_telegram,
            ) + adapter_args(spec).len()
            &&& args.skip(args.len() - adapter_args(spec).len()) == adapter_args(spec)
        }),
{
    let a = opt_arg("--manager-dir"@, crate::text::opt_text(spec.manager_dir));
    let b = opt_arg("--codex-bin"@, crate::text::opt_text(spec.codex_bin));
    let c = opt_arg("--slot"@, crate::text::opt_text(spec.slot));
    let d = opt_arg("--target"@, crate::text::opt_text(spec.target));
    let e = seq!["--listen"@, spec.listen@];
    let f = flag_arg("--no-telegram"@, spec.no_telegram);
    let g = seq!["--telegram-bot-token-env"@, spec.telegram_bot_token_env@];
    let h = seq!["--app-server-timeout"@, spec.app_server_timeout@];
    let x = adapter_args(spec);
    assert(spec.no_telegram ==> f[0] == "--no-telegram"@);
    assert(seq![] + a =~= a);
    lemma_more_args(seq![], a);
    lemma_more_args(a, b);
    lemma_more_args(a + b, c);
    lemma_more_args(a + b + c, d);
    lemma_more_args(a + b + c + d, e);
    lemma_more_args(a + b + c + d + e, f);
    lemma_more_args(a + b + c + d + e + f, g);
    lemma_more_args(a + b + c + d + e + f + g, h);
    let head = a + b + c + d + e + f + g + h;
    lemma_more_args(head, x);
    let args = spec_args(spec);
    assert(args == head + x);
    assert(args.skip(args.len() - x.len()) =~= x);
}

/// What is printed of a service names its state first, and each child in its order.
pub proof fn services_are_printed(report: ServiceStatusReport, service: ServiceStateFile)
    requires
        report.service == Some(service),
    ensures
        ({
            let lines = report_lines(report);
            &&& lines[0] == "cx service: "@ + report.state@
            &&& lines[1] == "state: "@ + report.state_file@
            &&& lines[2] == "log: "@ + report.log_file@
            &&& lines[3] == "pid: "@ + crate::numbers::decimal_of(service.pid as nat)
            &&& service.process_group_id is Some ==> lines[4] == "process_group_id: "@
                + crate::numbers::decimal_of(service.process_group_id->0 as nat)
            &&& lines[4 + count_of(service.process_group_id is Some)] == "started_at_unix: "@
                + crate::numbers::decimal_of(service.started_at_unix as nat)
            &&& lines.skip(5 + count_of(service.process_group_id is Some)) == all_child_lines(
                service.children@,
            )
        }),
{
    let lines = report_lines(report);
    assert(lines.skip(5 + count_of(service.process_group_id is Some)) =~= all_child_lines(
        service.children@,
    ));
}

/// A child's line holds its name, its process and how often it was started again, and
/// a second line how it last ended where it did.
pub proof fn children_are_printed_in_order(
    children: Seq<ServiceChildState>,
    child: ServiceChildState,
)
    ensures
        ({
            let before = all_child_lines(children);
            let lines = all_child_lines(children.push(child));
            let first = "child: "@ + child.name@ + "\tpid="@ + crate::numbers::decimal_of(
                child.pid as nat,
            ) + "\trestarts="@ + crate::numbers::decimal_of(child.restarts as nat);
            &&& child.last_exit is None ==> lines == before.push(first)
            &&& child.last_exit is Some ==> lines == before.push(first).push(
                "child_last_exit: "@ + child.name@ + "\t"@ + child.last_exit->0@,
            )
        }),
        all_child_lines(seq![]) == Seq::<Seq<char>>::empty(),
{
    assert(children.push(child).drop_last() =~= children);
    assert(children.push(child).last() == child);
    let before = all_child_lines(children);
    let lines = all_child_lines(children.push(child));
    let first = "child: "@ + child.name@ + "\tpid="@ + crate::numbers::decimal_of(child.pid as nat)
        + "\trestarts="@ + crate::numbers::decimal_of(child.restarts as nat);
    if child.last_exit is None {
        assert(lines =~= before.push(first));
    } else {
        assert(lines =~= before.push(first).push(
            "child_last_exit: "@ + child.name@ + "\t"@ + child.last_exit->0@,
        ));
    }
}

/// What is printed when a service is stopped says whether it was, and that its record
/// is gone only where it was stopped.
pub proof fn service_stops_are_printed(removed: bool, forced: bool, state_file: Seq<char>)
    ensures
        ({
            let lines = stop_lines(StopEnd::Stopped { forced }, removed, state_file);
            &&& lines[0] == "cx service stop: "@ + "stopped"@
            &&& lines[1] == "state: "@ + state_file
            &&& lines[2] == "stopped: "@ + "true"@
            &&& lines[3] == "cleaned: "@ + (if removed {
                "true"@
            } else {
                "false"@
            })
            &&& lines.len() == 4 + count_of(forced)
            &&& forced ==> lines[4] == "forced: true"@
        }),
        ({
            let lines = stop_lines(StopEnd::TimedOut { forced }, removed, state_file);
            &&& lines[0] == "cx service stop: "@ + "timeout"@
            &&& lines[2] == "stopped: "@ + "false"@
            &&& lines[3] == "cleaned: "@ + "false"@
            &&& lines.len() == 4 + count_of(forced)
        }),
        ({
            let lines = stop_lines(StopEnd::Missing, removed, state_file);
            &&& lines[0] == "cx service stop: "@ + "missing"@
            &&& lines[2] == "stopped: "@ + "false"@
            &&& lines.len() == 4
        }),
{
}

proof fn lemma_joined_holds(items: Seq<Seq<char>>, sep: Seq<char>, i: int)
    requires
        0 <= i < items.len(),
    ensures
        crate::text::has_text(crate::lines::joined(items, sep), items[i]),
    decreases items.len(),
{
    let all = crate::lines::joined(items, sep);
    if items.len() == 1 {
        assert(all.subrange(0, all.len() as int) =~= all);
        assert(crate::text::occurs_at(all, items[0], 0));
    } else if i == items.len() - 1 {
        let at = all.len() - items[i].len();
        assert(all.subrange(at, all.len() as int) =~= items[i]);
        assert(crate::text::occurs_at(all, items[i], at));
    } else {
        let head = crate::lines::joined(items.drop_last(), sep);
        lemma_joined_holds(items.drop_last(), sep, i);
        let at = choose|at: int| crate::text::occurs_at(head, items[i], at);
        assert(all.subrange(at, at + items[i].len()) =~= head.subrange(at, at + items[i].len()));
        assert(crate::text::occurs_at(all, items[i], at));
    }
}

proof fn lemma_part_holds(head: Seq<char>, part: Seq<char>, tail: Seq<char>, text: Seq<char>)
    requires
        crate::text::has_text(part, text),
    ensures
        crate::text::has_text(head + part + tail, text),
{
    let at = choose|at: int| crate::text::occurs_at(part, text, at);
    let all = head + part + tail;
    let from = head.len() + at;
    assert(all.subrange(from, from + text.len()) =~= part.subrange(at, at + text.len()));
    assert(crate::text::occurs_at(all, text, from));
}

/// A description for launchd holds every word of the command line, and both files that
/// output goes to, the plain output before the errors.
pub proof fn descriptions_hold_the_command(
    argv: Seq<Seq<char>>,
    stdout: Seq<char>,
    stderr: Seq<char>,
    i: int,
)
    requires
        0 <= i < argv.len(),
    ensures
        crate::text::has_text(
            plist_of(argv, stdout, stderr),
            "    <string>"@ + xml_text(argv[i]) + "</string>"@,
        ),
        crate::text::has_text(
            plist_of(argv, stdout, stderr),
            "\n  </array>\n  <key>RunAtLoad</key>\n  <true/>\n  <key>StandardOutPath</key>\n  <string>"@
                + xml_text(stdout) + "</string>\n  <key>StandardErrorPath</key>\n  <string>"@
                + xml_text(stderr) + "</string>\n</dict>\n</plist>\n"@,
        ),
{
    let lines = argv.map_values(|arg: Seq<char>| plist_arg(arg));
    let body = crate::lines::joined(lines, "\n"@);
    let all = plist_of(argv, stdout, stderr);
    let head =
        "<?xml version=\"1.0\" encoding=\"UTF-8\"?>\n<!DOCTYPE plist PUBLIC \"-//Apple//DTD PLIST 1.0//EN\" \"http://www.apple.com/DTDs/PropertyList-1.0.dtd\">\n<plist version=\"1.0\">\n<dict>\n  <key>Label</key>\n  <string>"@
        + "dev.xiaotian.cx.service"@ + "</string>\n  <key>ProgramArguments</key>\n  <array>\n"@;
    let tail =
        "\n  </array>\n  <key>RunAtLoad</key>\n  <true/>\n  <key>StandardOutPath</key>\n  <string>"@
        + xml_text(stdout) + "</string>\n  <key>StandardErrorPath</key>\n  <string>"@ + xml_text(
        stderr,
    ) + "</string>\n</dict>\n</plist>\n"@;
    assert(all =~= head + body + tail);
    lemma_joined_holds(lines, "\n"@, i);
    assert(lines[i] == "    <string>"@ + xml_text(argv[i]) + "</string>"@);
    lemma_part_holds(head, body, tail, lines[i]);
    let from = head.len() + body.len();
    assert(all.subrange(from as int, (from + tail.len()) as int) =~= tail);
    assert(crate::text::occurs_at(all, tail, from as int));
}

} // verus!
