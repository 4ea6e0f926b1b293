//! Starting Codex in a slot.

use vstd::prelude::*;

use crate::doubles::Double;
use crate::envfile::extend_env;
use crate::envfile::read_env_file;
use crate::envfile::set_env;
use crate::envfile::EnvMap;
use crate::keychain::inject_pat_env_from_keychain;
use crate::lines::trim_text;
use crate::numbers::parse_number;
use crate::paths::join_path;
use crate::paths::single_component;
use crate::paths::ManagerPaths;
use crate::provider::resolve;
use crate::selector::choose_result;
use crate::selector::SlotQueryOptions;
use crate::selector::DEFAULT_SLOT_QUERY_JOBS;
use crate::selector::DEFAULT_SLOT_QUERY_RETRIES;
use crate::slot::read_override_lines;
use crate::target::slots_or_rotation;
use crate::target::TargetSpec;
use crate::text::chars_of;
use crate::text::concat2;
use crate::text::concat4;
use crate::text::copy_all;
use crate::text::copy_of;
use crate::text::extend;
use crate::text::push_text;
use crate::text::split_all;
use crate::text::string_of;
use crate::textmap::TextMap;
use crate::usage::SlotResult;

verus! {

// ---------------------------------------------------------------------------
// Commands
// ---------------------------------------------------------------------------

/// How Codex is started.
pub struct CodexCommandSpec {
    pub program: String,
    pub codex_home: String,
    pub envs: EnvMap,
    pub args: Vec<String>,
    pub slot: String,
    pub target_name: Option<String>,
}

/// How Codex is started, over mathematical values.
pub struct CommandView {
    pub program: Seq<char>,
    pub codex_home: Seq<char>,
    pub envs: Map<Seq<char>, Seq<char>>,
    pub args: Seq<Seq<char>>,
    pub slot: Seq<char>,
    pub target_name: Option<Seq<char>>,
}

impl View for CodexCommandSpec {
    type V = CommandView;

    open spec fn view(&self) -> CommandView {
        CommandView {
            program: self.program@,
            codex_home: self.codex_home@,
            envs: crate::envfile::env_of(self.envs),
            args: crate::text::texts(self.args@),
            slot: self.slot@,
            target_name: crate::text::opt_text(self.target_name),
        }
    }
}

/// Settings as arguments: each behind `-c`.
pub open spec fn override_args(overrides: Seq<Seq<char>>) -> Seq<Seq<char>>
    decreases overrides.len(),
{
    if overrides.len() == 0 {
        seq![]
    } else {
        override_args(overrides.drop_last()).push("-c"@).push(overrides.last())
    }
}

/// Settings as arguments, before the arguments for Codex.
pub fn command_args(overrides: &Vec<String>, codex_args: &Vec<String>) -> (out: Vec<String>)
    ensures
        crate::text::texts(out@) == override_args(crate::text::texts(overrides@))
            + crate::text::texts(codex_args@),
{
    let ghost all = crate::text::texts(overrides@);
    let mut out: Vec<String> = Vec::new();
    let mut i: usize = 0;
    proof {
        assert(crate::text::texts(out@) =~= override_args(all.take(0)));
    }
    while i < overrides.len()
        invariant
            i <= overrides.len(),
            all == crate::text::texts(overrides@),
            crate::text::texts(out@) == override_args(all.take(i as int)),
        decreases overrides.len() - i,
    {
        proof {
            assert(all.take(i + 1).drop_last() =~= all.take(i as int));
            assert(all.take(i + 1).last() == overrides@[i as int]@);
        }
        push_text(&mut out, copy_of("-c"));
        push_text(&mut out, overrides[i].clone());
        i += 1;
    }
    proof {
        assert(all.take(all.len() as int) =~= all);
    }
    extend(&mut out, copy_all(codex_args));
    out
}

/// The files of a slot that a run reads.
pub struct SlotFiles {
    pub home_is_dir: bool,
    pub overrides: Option<String>,
    pub env: Option<String>,
    pub keychain: Option<String>,
    /// The configuration of the base home.
    pub config: Option<String>,
}

/// The variables of a slot.
pub open spec fn slot_env(content: Option<Seq<char>>) -> Map<Seq<char>, Seq<char>> {
    match content {
        Some(text) => crate::envfile::env_of_lines(crate::lines::lines_of(text)),
        None => Map::empty(),
    }
}

/// The settings of a slot.
pub open spec fn slot_overrides(content: Option<Seq<char>>) -> Seq<Seq<char>> {
    match content {
        Some(text) => crate::slot::listed(crate::lines::lines_of(text)),
        None => seq![],
    }
}

/// The settings of a slot with those of a target behind them.
pub open spec fn run_overrides(
    content: Option<Seq<char>>,
    target: Option<crate::target::TargetModel>,
) -> Seq<Seq<char>> {
    match target {
        Some(found) => slot_overrides(content) + found.overrides,
        None => slot_overrides(content),
    }
}

/// The variables of a run: those of the slot, those of the target in their place,
/// and the shared index in place of all.
pub open spec fn run_env(
    content: Option<Seq<char>>,
    target: Option<crate::target::TargetModel>,
    sqlite_home: Seq<char>,
) -> Map<Seq<char>, Seq<char>> {
    let merged = match target {
        Some(found) => slot_env(content).union_prefer_right(found.env),
        None => slot_env(content),
    };
    merged.insert("CODEX_SQLITE_HOME"@, sqlite_home)
}

/// How Codex starts in a slot, before a token of the keychain is added.
pub open spec fn slot_command(
    paths: ManagerPaths,
    real_codex: Seq<char>,
    slot: Seq<char>,
    target: Option<crate::target::TargetModel>,
    codex_args: Seq<Seq<char>>,
    files: SlotFiles,
) -> Result<CommandView, Seq<char>> {
    let home = paths.slot_home_text(slot);
    let overrides = run_overrides(crate::text::opt_text(files.overrides), target);
    let config = crate::paths::joined_path(paths.base_codex_home@, "config.toml"@);
    if !files.home_is_dir {
        Err("missing slot home for "@ + slot + ": "@ + home)
    } else {
        match crate::provider::resolved(crate::text::opt_text(files.config), config, overrides) {
            Err(message) => Err(message),
            Ok(more) => Ok(
                CommandView {
                    program: real_codex,
                    codex_home: home,
                    envs: run_env(
                        crate::text::opt_text(files.env),
                        target,
                        crate::paths::joined_path(paths.base_codex_home@, "sqlite"@),
                    ),
                    args: override_args(overrides + more) + codex_args,
                    slot,
                    target_name: match target {
                        Some(found) => Some(found.name),
                        None => None,
                    },
                },
            ),
        }
    }
}

/// The outcome of a command, over mathematical values.
pub open spec fn command_result(out: Result<CodexCommandSpec, String>) -> Result<
    CommandView,
    Seq<char>,
> {
    match out {
        Ok(spec) => Ok(spec@),
        Err(message) => Err(message@),
    }
}

/// How Codex starts in a slot, before a token of the keychain is added.
pub fn slot_command_spec(
    paths: &ManagerPaths,
    real_codex: &str,
    slot: &str,
    target: &Option<TargetSpec>,
    codex_args: &Vec<String>,
    files: &SlotFiles,
) -> (out: Result<CodexCommandSpec, String>)
    ensures
        command_result(out) == slot_command(
            *paths,
            real_codex@,
            slot@,
            crate::target::opt_target(*target),
            crate::text::texts(codex_args@),
            *files,
        ),
{
    let home = paths.slot_home(slot);
    if !files.home_is_dir {
        return Err(concat4("missing slot home for ", slot, ": ", home.as_str()));
    }
    let mut overrides = read_override_lines(&files.overrides);
    let mut envs = match &files.env {
        Some(text) => read_env_file(text.as_str()),
        None => {
            let none: EnvMap = TextMap::new();
            proof {
                assert(crate::envfile::env_of(none) =~= Map::empty());
            }
            none
        },
    };
    let target_name = match target {
        Some(found) => {
            extend(&mut overrides, copy_all(&found.overrides));
            extend_env(&mut envs, &found.env);
            Some(found.name.clone())
        },
        None => None,
    };
    let config = join_path(paths.base_codex_home.as_str(), "config.toml");
    let more = match resolve(&files.config, config.as_str(), &overrides) {
        Ok(lines) => lines,
        Err(message) => {
            return Err(message);
        },
    };
    extend(&mut overrides, more);
    set_env(&mut envs, "CODEX_SQLITE_HOME", paths.shared_sqlite_home().as_str());
    Ok(
        CodexCommandSpec {
            program: copy_of(real_codex),
            codex_home: home,
            envs,
            args: command_args(&overrides, codex_args),
            slot: copy_of(slot),
            target_name,
        },
    )
}

/// Whether `out` is `command` with the variables that the keychain leads to.
pub open spec fn with_keychain<F: FnOnce(&str, &str) -> Result<Option<String>, String>>(
    fetch: F,
    conf_content: Option<Seq<char>>,
    command: CommandView,
    parent: Seq<Seq<char>>,
    out: Result<CodexCommandSpec, String>,
) -> bool {
    match out {
        Ok(spec) => spec@ == (CommandView { envs: spec@.envs, ..command })
            && crate::keychain::follows_keychain(
            fetch,
            conf_content,
            command.slot,
            command.envs,
            spec@.envs,
            parent,
            Ok(()),
        ),
        Err(message) => crate::keychain::follows_keychain(
            fetch,
            conf_content,
            command.slot,
            command.envs,
            command.envs,
            parent,
            Err(message),
        ),
    }
}

/// How Codex starts in a slot. `parent` names the variables of the environment, and
/// `fetch` asks the keychain for a service and an account.
pub fn build_slot_command_spec<F: FnOnce(&str, &str) -> Result<Option<String>, String>>(
    paths: &ManagerPaths,
    real_codex: &str,
    slot: &str,
    target: &Option<TargetSpec>,
    codex_args: &Vec<String>,
    files: &SlotFiles,
    parent: &Vec<String>,
    fetch: F,
) -> (out: Result<CodexCommandSpec, String>)
    requires
        forall|s: &str, a: &str| #[trigger] call_requires(fetch, (s, a)),
    ensures
        match slot_command(
            *paths,
            real_codex@,
            slot@,
            crate::target::opt_target(*target),
            crate::text::texts(codex_args@),
            *files,
        ) {
            Err(reason) => out matches Err(message) && message@ == reason,
            Ok(command) => with_keychain(
                fetch,
                crate::text::opt_text(files.keychain),
                command,
                crate::text::texts(parent@),
                out,
            ),
        },
{
    let spec = slot_command_spec(paths, real_codex, slot, target, codex_args, files);
    match spec {
        Err(message) => Err(message),
        Ok(mut spec) => {
            let ghost before = spec@;
            match inject_pat_env_from_keychain(
                &files.keychain,
                slot,
                &mut spec.envs,
                parent,
                fetch,
            ) {
                Ok(_) => Ok(spec),
                Err(message) => Err(message),
            }
        },
    }
}

/// How Codex starts in the base home.
pub open spec fn default_command(
    paths: ManagerPaths,
    real_codex: Seq<char>,
    codex_args: Seq<Seq<char>>,
    config: Option<Seq<char>>,
) -> Result<CommandView, Seq<char>> {
    let path = crate::paths::joined_path(paths.base_codex_home@, "config.toml"@);
    match crate::provider::resolved(config, path, seq![]) {
        Err(message) => Err(message),
        Ok(overrides) => Ok(
            CommandView {
                program: real_codex,
                codex_home: paths.base_codex_home@,
                envs: map![
                    "CODEX_SQLITE_HOME"@ => crate::paths::joined_path(
                        paths.base_codex_home@,
                        "sqlite"@,
                    ),
                ],
                args: override_args(overrides) + codex_args,
                slot: "default"@,
                target_name: None,
            },
        ),
    }
}

/// How Codex starts in the base home, where there are no slots.
pub fn build_default_command_spec(
    paths: &ManagerPaths,
    real_codex: &str,
    codex_args: &Vec<String>,
    config: &Option<String>,
) -> (out: Result<CodexCommandSpec, String>)
    ensures
        command_result(out) == default_command(
            *paths,
            real_codex@,
            crate::text::texts(codex_args@),
            crate::text::opt_text(*config),
        ),
{
    let none: Vec<String> = Vec::new();
    proof {
        assert(crate::text::texts(none@) =~= seq![]);
    }
    let path = join_path(paths.base_codex_home.as_str(), "config.toml");
    let overrides = match resolve(config, path.as_str(), &none) {
        Ok(lines) => lines,
        Err(message) => {
            return Err(message);
        },
    };
    let mut envs: EnvMap = TextMap::new();
    proof {
        assert(crate::envfile::env_of(envs) =~= Map::empty());
    }
    set_env(&mut envs, "CODEX_SQLITE_HOME", paths.shared_sqlite_home().as_str());
    proof {
        assert(crate::envfile::env_of(envs) =~= map![
            "CODEX_SQLITE_HOME"@ => crate::paths::joined_path(paths.base_codex_home@, "sqlite"@),
        ]);
    }
    Ok(
        CodexCommandSpec {
            program: copy_of(real_codex),
            codex_home: paths.base_codex_home.clone(),
            envs,
            args: command_args(&overrides, codex_args),
            slot: copy_of("default"),
            target_name: None,
        },
    )
}

/// How Codex logs in for a slot.
pub fn login_command_spec(
    paths: &ManagerPaths,
    real_codex: &str,
    slot: &str,
    args: &Vec<String>,
) -> (out: CodexCommandSpec)
    ensures
        out@ == (CommandView {
            program: real_codex@,
            codex_home: paths.slot_home_text(slot@),
            envs: map![
                "CODEX_SQLITE_HOME"@ => crate::paths::joined_path(
                    paths.base_codex_home@,
                    "sqlite"@,
                ),
            ],
            args: seq!["login"@] + crate::text::texts(args@),
            slot: slot@,
            target_name: None,
        }),
{
    let mut envs: EnvMap = TextMap::new();
    proof {
        assert(crate::envfile::env_of(envs) =~= Map::empty());
    }
    set_env(&mut envs, "CODEX_SQLITE_HOME", paths.shared_sqlite_home().as_str());
    proof {
        assert(crate::envfile::env_of(envs) =~= map![
            "CODEX_SQLITE_HOME"@ => crate::paths::joined_path(paths.base_codex_home@, "sqlite"@),
        ]);
    }
    let mut all: Vec<String> = Vec::new();
    all.push(copy_of("login"));
    proof {
        assert(crate::text::texts(all@) =~= seq!["login"@]);
    }
    extend(&mut all, copy_all(args));
    CodexCommandSpec {
        program: copy_of(real_codex),
        codex_home: paths.slot_home(slot),
        envs,
        args: all,
        slot: copy_of(slot),
        target_name: None,
    }
}

/// What is said of a run that starts, unless it is quiet.
pub open spec fn launch_text(command: CommandView, quiet: bool) -> Seq<Seq<char>> {
    if quiet {
        seq![]
    } else {
        match command.target_name {
            Some(target) => seq!["codex slot: "@ + command.slot, "codex target: "@ + target],
            None => seq!["codex slot: "@ + command.slot],
        }
    }
}

/// What is said of a run that starts.
pub fn launch_lines(spec: &CodexCommandSpec, quiet: bool) -> (out: Vec<String>)
    ensures
        crate::text::texts(out@) == launch_text(spec@, quiet),
{
    let mut out: Vec<String> = Vec::new();
    if !quiet {
        out.push(concat2("codex slot: ", spec.slot.as_str()));
        match &spec.target_name {
            Some(target) => {
                out.push(concat2("codex target: ", target.as_str()));
            },
            None => {},
        }
    }
    proof {
        assert(crate::text::texts(out@) =~= launch_text(spec@, quiet));
    }
    out
}

// ---------------------------------------------------------------------------
// Choosing a slot
// ---------------------------------------------------------------------------

/// What a run has to do for its slot.
#[derive(Debug)]
pub enum SlotNeed {
    Given(String),
    /// Ask these slots for their usage.
    Query(Vec<String>),
}

/// What a run has to do for its slot.
pub fn runtime_need(
    slot: &Option<String>,
    target: &Option<TargetSpec>,
    rotation: &Vec<String>,
) -> (out: Result<SlotNeed, String>)
    ensures
        ({
            let candidates = crate::target::slots_of(
                crate::target::opt_target(*target),
                crate::text::texts(rotation@),
            );
            match (slot, out) {
                (Some(given), Ok(SlotNeed::Given(name))) => name@ == given@,
                (None, Ok(SlotNeed::Query(names))) => candidates.len() > 0 && crate::text::texts(
                    names@,
                ) == candidates,
                (None, Err(message)) => candidates.len() == 0 && message@
                    == "no configured slots"@,
                _ => false,
            }
        }),
{
    match slot {
        Some(given) => Ok(SlotNeed::Given(given.clone())),
        None => {
            let candidates = slots_or_rotation(target, rotation);
            proof {
                assert(crate::text::texts(candidates@).len() == candidates@.len());
            }
            if candidates.len() == 0 {
                Err(copy_of("no configured slots"))
            } else {
                Ok(SlotNeed::Query(candidates))
            }
        },
    }
}

/// The slot that a run starts in.
pub fn choose_launch_result<'a>(results: &'a Vec<SlotResult>) -> (out: Option<&'a SlotResult>)
    ensures
        match out {
            Some(result) => exists|i: int|
                crate::selector::is_choice(results@, seq![], i) && 0 <= i < results@.len()
                    && results@[i] == *result,
            None => forall|i: int| !#[trigger] crate::selector::is_choice(results@, seq![], i),
        },
{
    choose_result(results)
}

/// The name of the slot that a run starts in.
pub fn selected_slot(results: &Vec<SlotResult>) -> (out: Result<String, String>)
    ensures
        match out {
            Ok(name) => exists|i: int|
                #[trigger] crate::selector::is_choice(results@, seq![], i) && 0 <= i
                    < results@.len() && results@[i]@.slot == name@,
            Err(message) => message@ == "no usable Codex slot found"@ && forall|i: int|
                !#[trigger] crate::selector::is_choice(results@, seq![], i),
        },
{
    match choose_launch_result(results) {
        Some(result) => Ok(result.slot.clone()),
        None => Err(copy_of("no usable Codex slot found")),
    }
}

/// A count from the environment.
pub open spec fn count_from(text: Option<Seq<char>>, default: nat) -> nat {
    match text {
        Some(value) => match crate::numbers::parsed_number(value, usize::MAX as nat) {
            Some(n) => n,
            None => default,
        },
        None => default,
    }
}

fn read_count(text: &Option<String>, default: usize) -> (out: usize)
    ensures
        out == count_from(crate::text::opt_text(*text), default as nat),
{
    match text {
        Some(value) => match parse_number(&chars_of(value.as_str()), usize::MAX as u64) {
            Some(n) => n as usize,
            None => default,
        },
        None => default,
    }
}

/// How a run asks slots for their usage, by the environment.
pub fn usage_query_options(
    timeout: Double,
    jobs: &Option<String>,
    retries: &Option<String>,
) -> (out: SlotQueryOptions)
    ensures
        out.timeout == timeout,
        ({
            let asked = count_from(
                crate::text::opt_text(*jobs),
                DEFAULT_SLOT_QUERY_JOBS as nat,
            );
            out.jobs == (if asked == 0 {
                1
            } else {
                asked
            })
        }),
        out.retries == count_from(
            crate::text::opt_text(*retries),
            DEFAULT_SLOT_QUERY_RETRIES as nat,
        ),
{
    SlotQueryOptions::new(
        timeout,
        read_count(jobs, DEFAULT_SLOT_QUERY_JOBS),
        read_count(retries, DEFAULT_SLOT_QUERY_RETRIES),
    )
}

// ---------------------------------------------------------------------------
// Finding Codex
// ---------------------------------------------------------------------------

/// The places where a command may be: below each directory of the search path.
pub open spec fn command_places(command: Seq<char>, path_env: Option<Seq<char>>) -> Seq<Seq<char>> {
    match path_env {
        Some(dirs) => if crate::paths::is_single_component(command) {
            crate::text::parts_of(dirs, ':').map_values(
                |dir: Seq<char>| crate::paths::joined_path(dir, command),
            )
        } else {
            seq![]
        },
        None => seq![],
    }
}

/// Whether `f` may answer `yes` for `path`.
pub open spec fn answers<F: Fn(&str) -> bool>(f: F, path: Seq<char>, yes: bool) -> bool {
    exists|s: &str| s@ == path && #[trigger] call_ensures(f, (s,), yes)
}

fn places_of(command: &str, path_env: &Option<String>) -> (out: Vec<String>)
    ensures
        crate::text::texts(out@) == command_places(command@, crate::text::opt_text(*path_env)),
{
    let mut out: Vec<String> = Vec::new();
    match path_env {
        Some(dirs) => {
            if single_component(command) {
                let parts = split_all(&chars_of(dirs.as_str()), ':');
                let ghost all = crate::text::parts_of(dirs@, ':');
                proof {
                    assert(all.len() == parts@.len());
                }
                let mut i: usize = 0;
                while i < parts.len()
                    invariant
                        i <= parts.len(),
                        all == parts@.map_values(|part: Vec<char>| part@),
                        out@.len() == i,
                        forall|j: int|
                            0 <= j < i ==> (#[trigger] out@[j])@ == crate::paths::joined_path(
                                all[j],
                                command@,
                            ),
                    decreases parts.len() - i,
                {
                    out.push(join_path(string_of(&parts[i]).as_str(), command));
                    i += 1;
                }
            }
        },
        None => {},
    }
    proof {
        assert(crate::text::texts(out@) =~= command_places(
            command@,
            crate::text::opt_text(*path_env),
        ));
    }
    out
}

/// Whether `found` is the first of `places` for which `is_file` says yes.
pub open spec fn is_first_file<F: Fn(&str) -> bool>(
    is_file: F,
    places: Seq<Seq<char>>,
    found: Option<Seq<char>>,
) -> bool {
    match found {
        Some(path) => exists|k: int|
            {
                &&& 0 <= k < places.len()
                &&& #[trigger] places[k] == path
                &&& answers(is_file, path, true)
                &&& forall|j: int| 0 <= j < k ==> answers(is_file, #[trigger] places[j], false)
            },
        None => forall|j: int|
            0 <= j < places.len() ==> answers(is_file, #[trigger] places[j], false),
    }
}

/// The first of `places` for which `is_file` says yes.
pub fn first_file<F: Fn(&str) -> bool>(places: &Vec<String>, is_file: F) -> (out: Option<String>)
    requires
        forall|s: &str| #[trigger] call_requires(is_file, (s,)),
    ensures
        is_first_file(is_file, crate::text::texts(places@), crate::text::opt_text(out)),
{
    let ghost all = crate::text::texts(places@);
    let mut i: usize = 0;
    while i < places.len()
        invariant
            i <= places.len(),
            all == crate::text::texts(places@),
            forall|s: &str| #[trigger] call_requires(is_file, (s,)),
            forall|j: int| 0 <= j < i ==> answers(is_file, #[trigger] all[j], false),
        decreases places.len() - i,
    {
        let path = places[i].as_str();
        let yes = is_file(path);
        proof {
            assert(call_ensures(is_file, (path,), yes));
            assert(all[i as int] == path@);
        }
        if yes {
            return Some(places[i].clone());
        }
        i += 1;
    }
    None
}

/// Finds a command on the search path. A command with directories is not searched.
pub fn find_executable_on_path_with_env<F: Fn(&str) -> bool>(
    command: &str,
    path_env: &Option<String>,
    is_file: F,
) -> (out: Option<String>)
    requires
        forall|s: &str| #[trigger] call_requires(is_file, (s,)),
    ensures
        is_first_file(
            is_file,
            command_places(command@, crate::text::opt_text(*path_env)),
            crate::text::opt_text(out),
        ),
{
    first_file(&places_of(command, path_env), is_file)
}

/// Where Codex is looked for at last.
pub open spec fn fallback_places(home: Seq<char>) -> Seq<Seq<char>> {
    seq![
        "/opt/homebrew/bin/codex"@,
        "/usr/local/bin/codex"@,
        crate::paths::joined_path(home, ".local/bin/codex"@),
        crate::paths::joined_path(home, ".local/share/mise/installs/codex/0.125.0/codex"@),
    ]
}

/// Where Codex is looked for at last.
pub fn default_codex_bin_candidates(home: &str) -> (out: Vec<String>)
    ensures
        crate::text::texts(out@) == fallback_places(home@),
{
    let mut out: Vec<String> = Vec::new();
    out.push(copy_of("/opt/homebrew/bin/codex"));
    out.push(copy_of("/usr/local/bin/codex"));
    out.push(join_path(home, ".local/bin/codex"));
    out.push(join_path(home, ".local/share/mise/installs/codex/0.125.0/codex"));
    proof {
        assert(crate::text::texts(out@) =~= fallback_places(home@));
    }
    out
}

/// How far the search for Codex has come.
#[derive(Debug)]
pub enum BinSeen {
    Nothing,
    /// What `mise which codex` printed, if it succeeded.
    Mise(Option<String>),
    /// What the search path holds.
    Path(Option<String>),
    /// Which of the last places holds a file.
    Fallback(Option<String>),
}

/// What is done next to find Codex.
#[derive(Debug)]
pub enum BinStep {
    Use(String),
    AskMise,
    SearchPath,
    TryFallbacks,
}

/// What is done next to find Codex: the program that was asked for is used, else
/// that of the environment, of `mise`, of the search path, of the last places, and
/// at last the bare name.
pub fn resolve_codex_bin(asked: &Option<String>, from_env: &Option<String>, seen: &BinSeen) -> (out:
    BinStep)
    ensures
        match (asked, from_env, seen, out) {
            (Some(path), _, _, BinStep::Use(used)) => used@ == path@,
            (None, Some(path), _, BinStep::Use(used)) => used@ == path@,
            (None, None, BinSeen::Nothing, BinStep::AskMise) => true,
            (None, None, BinSeen::Mise(Some(text)), BinStep::Use(used)) => used@
                == crate::lines::trimmed(text@) && used@.len() > 0,
            (None, None, BinSeen::Mise(Some(text)), BinStep::SearchPath) => crate::lines::trimmed(
                text@,
            ).len() == 0,
            (None, None, BinSeen::Mise(None), BinStep::SearchPath) => true,
            (None, None, BinSeen::Path(Some(path)), BinStep::Use(used)) => used@ == path@,
            (None, None, BinSeen::Path(None), BinStep::TryFallbacks) => true,
            (None, None, BinSeen::Fallback(Some(path)), BinStep::Use(used)) => used@ == path@,
            (None, None, BinSeen::Fallback(None), BinStep::Use(used)) => used@ == "codex"@,
            _ => false,
        },
{
    match asked {
        Some(path) => {
            return BinStep::Use(path.clone());
        },
        None => {},
    }
    match from_env {
        Some(path) => {
            return BinStep::Use(path.clone());
        },
        None => {},
    }
    match seen {
        BinSeen::Nothing => BinStep::AskMise,
        BinSeen::Mise(None) => BinStep::SearchPath,
        BinSeen::Mise(Some(text)) => {
            let path = trim_text(text.as_str());
            if path.as_str().unicode_len() == 0 {
                BinStep::SearchPath
            } else {
                BinStep::Use(path)
            }
        },
        BinSeen::Path(None) => BinStep::TryFallbacks,
        BinSeen::Path(Some(path)) => BinStep::Use(path.clone()),
        BinSeen::Fallback(None) => BinStep::Use(copy_of("codex")),
        BinSeen::Fallback(Some(path)) => BinStep::Use(path.clone()),
    }
}

// ---------------------------------------------------------------------------
// Laws
// ---------------------------------------------------------------------------

/// Every run of a slot uses the shared index, whatever its files and its target say.
pub proof fn runs_share_their_index(
    paths: ManagerPaths,
    real_codex: Seq<char>,
    slot: Seq<char>,
    target: Option<crate::target::TargetModel>,
    codex_args: Seq<Seq<char>>,
    files: SlotFiles,
)
    ensures
        slot_command(paths, real_codex, slot, target, codex_args, files) matches Ok(command)
            ==> command.envs.dom().contains("CODEX_SQLITE_HOME"@)
            && command.envs["CODEX_SQLITE_HOME"@] == crate::paths::joined_path(
            paths.base_codex_home@,
            "sqlite"@,
        ),
{
}

/// The arguments for Codex come last and unchanged.
pub proof fn codex_args_come_last(
    paths: ManagerPaths,
    real_codex: Seq<char>,
    slot: Seq<char>,
    target: Option<crate::target::TargetModel>,
    codex_args: Seq<Seq<char>>,
    files: SlotFiles,
)
    ensures
        slot_command(paths, real_codex, slot, target, codex_args, files) matches Ok(command)
            ==> command.args.len() >= codex_args.len() && command.args.skip(
            command.args.len() - codex_args.len(),
        ) == codex_args,
{
    match slot_command(paths, real_codex, slot, target, codex_args, files) {
        Ok(command) => {
            assert(command.args.skip(command.args.len() - codex_args.len()) =~= codex_args);
        },
        Err(_) => {},
    }
}

/// Whether the argument at `at` is `-c`, with a setting behind it.
pub open spec fn is_setting(args: Seq<Seq<char>>, at: int, setting: Seq<char>) -> bool {
    0 <= at < args.len() - 1 && args[at] == "-c"@ && args[at + 1] == setting
}

/// Whether the arguments from `at` on are settings, each behind `-c`, in order.
pub open spec fn settings_at(args: Seq<Seq<char>>, at: int, settings: Seq<Seq<char>>) -> bool {
    forall|k: int|
        #![trigger settings[k]]
        0 <= k < settings.len() ==> is_setting(args, at + 2 * k, settings[k])
}

proof fn lemma_override_at(overrides: Seq<Seq<char>>, k: int)
    requires
        0 <= k < overrides.len(),
    ensures
        override_args(overrides).len() == 2 * overrides.len(),
        override_args(overrides)[2 * k] == "-c"@,
        override_args(overrides)[2 * k + 1] == overrides[k],
    decreases overrides.len(),
{
    let rest = overrides.drop_last();
    lemma_override_len(rest);
    if k < rest.len() {
        lemma_override_at(rest, k);
    }
}

proof fn lemma_override_len(overrides: Seq<Seq<char>>)
    ensures
        override_args(overrides).len() == 2 * overrides.len(),
    decreases overrides.len(),
{
    if overrides.len() > 0 {
        lemma_override_len(overrides.drop_last());
    }
}

proof fn lemma_settings_at(all: Seq<Seq<char>>, args: Seq<Seq<char>>, from: int, part: Seq<Seq<char>>)
    requires
        0 <= from,
        from + part.len() <= all.len(),
        all.subrange(from, from + part.len()) == part,
    ensures
        settings_at(override_args(all) + args, 2 * from, part),
{
    lemma_override_len(all);
    let line = override_args(all) + args;
    assert forall|k: int| #![trigger part[k]] 0 <= k < part.len() implies is_setting(
        line,
        2 * from + 2 * k,
        part[k],
    ) by {
        lemma_override_at(all, from + k);
        assert(all.subrange(from, from + part.len())[k] == all[from + k]);
    }
}

/// Codex gets every setting of the slot's file, then every one of the target, then the
/// provider under the name `cx`, and then its own arguments; each setting stands behind
/// a `-c`, and nothing else is added.
pub proof fn settings_reach_codex(
    paths: ManagerPaths,
    real_codex: Seq<char>,
    slot: Seq<char>,
    target: Option<crate::target::TargetModel>,
    codex_args: Seq<Seq<char>>,
    files: SlotFiles,
)
    ensures
        slot_command(paths, real_codex, slot, target, codex_args, files) matches Ok(command) ==> {
            let of_slot = match files.overrides {
                Some(text) => crate::slot::listed(crate::lines::lines_of(text@)),
                None => seq![],
            };
            let of_target = match target {
                Some(found) => found.overrides,
                None => seq![],
            };
            let n = 2 * (of_slot.len() + of_target.len()) as int;
            &&& settings_at(command.args, 0, of_slot)
            &&& settings_at(command.args, 2 * (of_slot.len() as int), of_target)
            &&& command.args.len() == n + 4 + codex_args.len()
            &&& command.args[n] == "-c"@
            &&& command.args[n + 1] == "model_provider = \"cx\""@
            &&& command.args[n + 2] == "-c"@
            &&& "model_providers.cx = "@ == command.args[n + 3].take(
                "model_providers.cx = "@.len() as int,
            )
            &&& command.args.skip(n + 4) == codex_args
        },
{
    match slot_command(paths, real_codex, slot, target, codex_args, files) {
        Ok(command) => {
            let of_slot = match files.overrides {
                Some(text) => crate::slot::listed(crate::lines::lines_of(text@)),
                None => seq![],
            };
            let of_target = match target {
                Some(found) => found.overrides,
                None => seq![],
            };
            let own = run_overrides(crate::text::opt_text(files.overrides), target);
            assert(own =~= of_slot + of_target);
            let config = crate::paths::joined_path(paths.base_codex_home@, "config.toml"@);
            let more = crate::provider::resolved(
                crate::text::opt_text(files.config),
                config,
                own,
            )->Ok_0;
            assert(more.len() == 2);
            let all = own + more;
            assert(all.subrange(0, 0 + of_slot.len() as int) =~= of_slot);
            lemma_settings_at(all, codex_args, 0, of_slot);
            let s = of_slot.len() as int;
            assert(all.subrange(s, s + of_target.len()) =~= of_target);
            lemma_settings_at(all, codex_args, s, of_target);
            let n = (of_slot.len() + of_target.len()) as int;
            assert(all[n] == more[0]);
            assert(all[n + 1] == more[1]);
            lemma_override_at(all, n);
            lemma_override_at(all, n + 1);
            assert(more[1].take("model_providers.cx = "@.len() as int)
                =~= "model_providers.cx = "@);
            assert(command.args.skip(2 * n + 4) =~= codex_args);
        },
        Err(_) => {},
    }
}

/// A run sees a variable of the target as the target sets it, and any other as the
/// slot's file sets it; only where the shared index is has its own place.
pub proof fn targets_set_variables_over_slots(
    paths: ManagerPaths,
    real_codex: Seq<char>,
    slot: Seq<char>,
    target: Option<crate::target::TargetModel>,
    codex_args: Seq<Seq<char>>,
    files: SlotFiles,
    name: Seq<char>,
)
    requires
        name != "CODEX_SQLITE_HOME"@,
    ensures
        slot_command(paths, real_codex, slot, target, codex_args, files) matches Ok(command) ==> {
            let of_slot = match files.env {
                Some(text) => crate::envfile::env_of_lines(crate::lines::lines_of(text@)),
                None => Map::empty(),
            };
            let set_by_target = target matches Some(found) && found.env.dom().contains(name);
            &&& command.envs.dom().contains(name) == (set_by_target || of_slot.dom().contains(name))
            &&& set_by_target ==> command.envs[name] == target->0.env[name]
            &&& !set_by_target && of_slot.dom().contains(name) ==> command.envs[name]
                == of_slot[name]
        },
{
}

/// A run starts the given program in the home of its slot and names slot and target;
/// without that home it does not start.
pub proof fn runs_start_in_their_slot(
    paths: ManagerPaths,
    real_codex: Seq<char>,
    slot: Seq<char>,
    target: Option<crate::target::TargetModel>,
    codex_args: Seq<Seq<char>>,
    files: SlotFiles,
)
    ensures
        slot_command(paths, real_codex, slot, target, codex_args, files) matches Ok(command) ==> {
            &&& files.home_is_dir
            &&& command.program == real_codex
            &&& command.codex_home == paths.slot_home_text(slot)
            &&& command.slot == slot
            &&& command.target_name is Some == target is Some
            &&& target matches Some(found) ==> command.target_name == Some(found.name)
        },
        !files.home_is_dir ==> slot_command(
            paths,
            real_codex,
            slot,
            target,
            codex_args,
            files,
        ) is Err,
{
}

/// A run without slots starts in the base home with the shared index, the provider under
/// the name `cx`, and the arguments for Codex behind that.
pub proof fn default_runs_use_the_base_home(
    paths: ManagerPaths,
    real_codex: Seq<char>,
    codex_args: Seq<Seq<char>>,
    config: Option<Seq<char>>,
)
    ensures
        default_command(paths, real_codex, codex_args, config) matches Ok(command) ==> {
            &&& command.program == real_codex
            &&& command.codex_home == paths.base_codex_home@
            &&& command.envs.dom().contains("CODEX_SQLITE_HOME"@)
            &&& command.envs["CODEX_SQLITE_HOME"@] == crate::paths::joined_path(
                paths.base_codex_home@,
                "sqlite"@,
            )
            &&& command.args.len() == 4 + codex_args.len()
            &&& command.args[0] == "-c"@
            &&& command.args[1] == "model_provider = \"cx\""@
            &&& command.args.skip(4) == codex_args
            &&& command.target_name is None
        },
{
    match default_command(paths, real_codex, codex_args, config) {
        Ok(command) => {
            let path = crate::paths::joined_path(paths.base_codex_home@, "config.toml"@);
            let more = crate::provider::resolved(config, path, seq![])->Ok_0;
            assert(more.len() == 2);
            lemma_override_at(more, 0);
            assert(more[0] == "model_provider = \"cx\""@);
            assert(command.args.skip(4) =~= codex_args);
        },
        Err(_) => {},
    }
}

/// What is said of a run names its slot, and its target where it has one; a quiet run
/// says nothing.
pub proof fn launches_are_announced(command: CommandView)
    ensures
        launch_text(command, true).len() == 0,
        launch_text(command, false).len() == (if command.target_name is Some {
            2int
        } else {
            1int
        }),
        launch_text(command, false)[0] == "codex slot: "@ + command.slot,
        command.target_name matches Some(name) ==> launch_text(command, false)[1]
            == "codex target: "@ + name,
{
}

/// A count of the environment is used where it is one, and else what is used by default.
pub proof fn counts_come_from_the_environment(text: Seq<char>, default: nat)
    ensures
        count_from(None, default) == default,
        crate::numbers::parsed_number(text, usize::MAX as nat) matches Some(n) ==> count_from(
            Some(text),
            default,
        ) == n,
        crate::numbers::parsed_number(text, usize::MAX as nat) is None ==> count_from(
            Some(text),
            default,
        ) == default,
{
}

/// A command is looked for in each directory of the search path, in their order; one with
/// directories of its own is not.
pub proof fn commands_are_sought_along_the_path(command: Seq<char>, dirs: Seq<char>, k: int)
    ensures
        command_places(command, None).len() == 0,
        !crate::paths::is_single_component(command) ==> command_places(command, Some(dirs)).len()
            == 0,
        crate::paths::is_single_component(command) ==> {
            &&& command_places(command, Some(dirs)).len() == crate::text::parts_of(dirs, ':').len()
            &&& 0 <= k < crate::text::parts_of(dirs, ':').len() ==> command_places(
                command,
                Some(dirs),
            )[k] == crate::paths::joined_path(crate::text::parts_of(dirs, ':')[k], command)
        },
{
}

/// The program is the first that is there of those that were looked for.
pub proof fn the_first_program_is_used<F: Fn(&str) -> bool>(
    is_file: F,
    places: Seq<Seq<char>>,
    path: Seq<char>,
)
    ensures
        is_first_file(is_file, places, Some(path)) ==> places.contains(path) && answers(
            is_file,
            path,
            true,
        ),
        is_first_file(is_file, places, None) ==> forall|j: int|
            0 <= j < places.len() ==> answers(is_file, #[trigger] places[j], false),
        is_first_file(is_file, seq![path] + places, None) ==> answers(is_file, path, false),
{
    if is_first_file(is_file, seq![path] + places, None) {
        let all = seq![path] + places;
        assert(all[0] == path);
        assert(answers(is_file, all[0], false));
    }
}

/// Where the path names no program it is looked for where it is usually put, outside
/// the home before in it.
pub proof fn programs_are_looked_for_where_they_are_put(home: Seq<char>)
    requires
        home.len() > 0,
        home.last() != '/',
    ensures
        fallback_places(home).len() == 4,
        fallback_places(home)[0] == "/opt/homebrew/bin/codex"@,
        fallback_places(home)[1] == "/usr/local/bin/codex"@,
        fallback_places(home)[2] == home + "/.local/bin/codex"@,
        crate::text::has_prefix(fallback_places(home)[3], home),
{
    reveal_strlit(".local/bin/codex");
    reveal_strlit("/.local/bin/codex");
    reveal_strlit(".local/share/mise/installs/codex/0.125.0/codex");
    let places = fallback_places(home);
    assert(places[2] =~= home + "/.local/bin/codex"@);
    assert(places[3].take(home.len() as int) =~= home);
}

} // verus!
