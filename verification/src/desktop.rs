//! Starting the desktop app in a slot.

use vstd::prelude::*;

use crate::envfile::extend_env;
use crate::envfile::read_env_file;
use crate::envfile::set_env;
use crate::envfile::EnvMap;
use crate::frames::lossy_text;
use crate::json::parse_json;
use crate::keychain::inject_pat_env_from_keychain;
use crate::lines::join;
use crate::lines::split_lines;
use crate::lines::trim;
use crate::lines::trim_text;
use crate::numbers::decimal;
use crate::numbers::parse_number;
use crate::paths::absolute;
use crate::paths::extension;
use crate::paths::file_stem;
use crate::paths::join_path;
use crate::paths::parent;
use crate::paths::ManagerPaths;
use crate::provider::new_table;
use crate::provider::resolve;
use crate::run::first_file;
use crate::settings::merge_toml_value;
use crate::settings::parse_toml;
use crate::settings::render_pretty;
use crate::settings::Toml;
use crate::slot::read_override_lines;
use crate::target::TargetSpec;
use crate::text::chars_of;
use crate::text::concat2;
use crate::text::concat3;
use crate::text::concat4;
use crate::text::copy_all;
use crate::text::copy_of;
use crate::text::extend;
use crate::text::push_text;
use crate::text::same;
use crate::text::string_of;
use crate::text::strip_prefix;
use crate::textmap::TextMap;

verus! {

pub const DEFAULT_DESKTOP_BIN: &'static str = "/Applications/ChatGPT.app/Contents/MacOS/ChatGPT";

pub const LEGACY_DESKTOP_BIN: &'static str = "/Applications/Codex.app/Contents/MacOS/Codex";

// ---------------------------------------------------------------------------
// Apps that run already
// ---------------------------------------------------------------------------

/// A desktop app that runs, by its processes.
#[derive(Debug, PartialEq, Eq)]
pub struct RunningDesktop {
    pub pids: Vec<u32>,
}

/// Numbers as texts.
pub open spec fn pid_texts(pids: Seq<u32>) -> Seq<Seq<char>> {
    pids.map_values(|pid: u32| crate::numbers::decimal_of(pid as nat))
}

/// How processes are named.
pub open spec fn pids_shown(pids: Seq<u32>) -> Seq<char> {
    if pids.len() == 0 {
        "pid unknown"@
    } else if pids.len() == 1 {
        "pid "@ + crate::numbers::decimal_of(pids[0] as nat)
    } else {
        "pids "@ + crate::lines::joined(pid_texts(pids), ", "@)
    }
}

impl RunningDesktop {
    /// How the processes are named.
    pub fn display(&self) -> (out: String)
        ensures
            out@ == pids_shown(self.pids@),
    {
        if self.pids.len() == 0 {
            return copy_of("pid unknown");
        }
        if self.pids.len() == 1 {
            return concat2("pid ", decimal(self.pids[0] as u64).as_str());
        }
        let mut texts: Vec<String> = Vec::new();
        let mut i: usize = 0;
        while i < self.pids.len()
            invariant
                i <= self.pids.len(),
                texts@.len() == i,
                forall|j: int|
                    0 <= j < i ==> (#[trigger] texts@[j])@ == crate::numbers::decimal_of(
                        self.pids@[j] as nat,
                    ),
            decreases self.pids.len() - i,
        {
            texts.push(decimal(self.pids[i] as u64));
            i += 1;
        }
        proof {
            assert(crate::text::texts(texts@) =~= pid_texts(self.pids@));
        }
        concat2("pids ", join(&texts, ", ").as_str())
    }
}

/// Why an app that runs already stops a start.
pub open spec fn running_text(pids: Seq<u32>) -> Seq<char> {
    "ChatGPT Desktop is already running ("@ + pids_shown(pids)
        + "). Quit it before running `cx desktop`, or pass --allow-parallel to bypass this guard."@
}

/// Refuses a start while the app runs already.
pub fn ensure_no_running_desktop(allow_parallel: bool, running: Option<RunningDesktop>) -> (out:
    Result<(), String>)
    ensures
        match out {
            Ok(_) => allow_parallel || running is None,
            Err(message) => !allow_parallel && (running matches Some(found) && message@
                == running_text(found.pids@)),
        },
{
    if allow_parallel {
        return Ok(());
    }
    match running {
        None => Ok(()),
        Some(found) => Err(
            concat3(
                "ChatGPT Desktop is already running (",
                found.display().as_str(),
                "). Quit it before running `cx desktop`, or pass --allow-parallel to bypass this guard.",
            ),
        ),
    }
}

/// Refuses a start while the app runs already. `running` is only asked where that
/// matters.
pub fn ensure_desktop_not_running_with<F: FnOnce() -> Result<Option<RunningDesktop>, String>>(
    allow_parallel: bool,
    running: F,
) -> (out: Result<(), String>)
    requires
        !allow_parallel ==> call_requires(running, ()),
    ensures
        allow_parallel ==> out is Ok,
        !allow_parallel ==> exists|answer: Result<Option<RunningDesktop>, String>|
            {
                &&& #[trigger] call_ensures(running, (), answer)
                &&& match (answer, out) {
                    (Err(reason), Err(message)) => message@ == reason@,
                    (Ok(None), Ok(_)) => true,
                    (Ok(Some(found)), Err(message)) => message@ == running_text(found.pids@),
                    _ => false,
                }
            },
{
    if allow_parallel {
        return Ok(());
    }
    let answer = running();
    let ghost said = answer;
    proof {
        assert(call_ensures(running, (), said));
    }
    match answer {
        Err(message) => Err(message),
        Ok(found) => ensure_no_running_desktop(false, found),
    }
}

/// Whether numbers are in order, each once.
pub open spec fn is_rising(pids: Seq<u32>) -> bool {
    forall|i: int, j: int| 0 <= i < j < pids.len() ==> #[trigger] pids[i] < #[trigger] pids[j]
}

/// Whether `all` holds just the numbers of `first` and `second`, in order.
pub open spec fn merges(first: Seq<u32>, second: Seq<u32>, all: Seq<u32>) -> bool {
    &&& is_rising(all)
    &&& forall|pid: u32|
        #[trigger] all.contains(pid) <==> first.contains(pid) || second.contains(pid)
}

fn add_pid(pids: &mut Vec<u32>, pid: u32)
    requires
        is_rising(old(pids)@),
    ensures
        is_rising(final(pids)@),
        forall|p: u32|
            #[trigger] final(pids)@.contains(p) <==> old(pids)@.contains(p) || p == pid,
{
    let ghost before = pids@;
    let mut at: usize = 0;
    while at < pids.len() && pids[at] < pid
        invariant
            at <= pids.len(),
            pids@ == before,
            forall|j: int| 0 <= j < at ==> #[trigger] before[j] < pid,
        decreases pids.len() - at,
    {
        at += 1;
    }
    if at < pids.len() && pids[at] == pid {
        proof {
            assert(before[at as int] == pid);
        }
        return ;
    }
    pids.insert(at, pid);
    proof {
        assert(pids@ == before.insert(at as int, pid));
        assert forall|p: u32| #[trigger] pids@.contains(p) <==> before.contains(p) || p == pid by {
            if pids@.contains(p) && p != pid {
                let k = choose|k: int| 0 <= k < pids@.len() && pids@[k] == p;
                if k < at {
                    assert(before[k] == p);
                } else {
                    assert(before[k - 1] == p);
                }
            }
            if before.contains(p) {
                let k = choose|k: int| 0 <= k < before.len() && before[k] == p;
                if k < at {
                    assert(pids@[k] == p);
                } else {
                    assert(pids@[k + 1] == p);
                }
            }
            assert(pids@[at as int] == pid);
        }
    }
}

fn add_pids(pids: &mut Vec<u32>, more: &Vec<u32>)
    requires
        is_rising(old(pids)@),
    ensures
        is_rising(final(pids)@),
        forall|p: u32|
            #[trigger] final(pids)@.contains(p) <==> old(pids)@.contains(p) || more@.contains(p),
{
    let ghost before = pids@;
    let mut i: usize = 0;
    proof {
        assert(more@.take(0) =~= seq![]);
    }
    while i < more.len()
        invariant
            i <= more.len(),
            is_rising(pids@),
            forall|p: u32|
                #[trigger] pids@.contains(p) <==> before.contains(p) || more@.take(
                    i as int,
                ).contains(p),
        decreases more.len() - i,
    {
        let ghost old_pids = pids@;
        add_pid(pids, more[i]);
        proof {
            let next = more@.take(i + 1);
            let now = more@.take(i as int);
            assert(next =~= now.push(more@[i as int]));
            assert forall|p: u32| #[trigger] pids@.contains(p) <==> before.contains(p)
                || next.contains(p) by {
                assert(old_pids.contains(p) <==> before.contains(p) || now.contains(p));
                if now.contains(p) {
                    let k = choose|k: int| 0 <= k < now.len() && now[k] == p;
                    assert(next[k] == p);
                }
                if next.contains(p) && p != more@[i as int] {
                    let k = choose|k: int| 0 <= k < next.len() && next[k] == p;
                    assert(now[k] == p);
                }
                assert(next[i as int] == more@[i as int]);
            }
        }
        i += 1;
    }
    proof {
        assert(more@.take(more@.len() as int) =~= more@);
    }
}

/// The app that runs, by the processes of its two names.
pub fn running_from(first: &Vec<u32>, second: &Vec<u32>) -> (out: Option<RunningDesktop>)
    ensures
        match out {
            Some(found) => found.pids@.len() > 0 && merges(first@, second@, found.pids@),
            None => first@.len() == 0 && second@.len() == 0,
        },
{
    let mut pids: Vec<u32> = Vec::new();
    add_pids(&mut pids, first);
    add_pids(&mut pids, second);
    if pids.len() == 0 {
        proof {
            if first@.len() > 0 {
                assert(first@.contains(first@[0]));
                assert(pids@.contains(first@[0]));
            }
            if second@.len() > 0 {
                assert(second@.contains(second@[0]));
                assert(pids@.contains(second@[0]));
            }
        }
        return None;
    }
    Some(RunningDesktop { pids })
}

/// The outcome of a probe for the app, given the processes of its two names.
pub open spec fn probed(
    first: Result<Vec<u32>, String>,
    second: Result<Vec<u32>, String>,
    out: Result<Option<RunningDesktop>, String>,
) -> bool {
    match (first, second, out) {
        (Err(reason), _, Err(message)) => message@ == reason@,
        (Ok(_), Err(reason), Err(message)) => message@ == reason@,
        (Ok(a), Ok(b), Ok(Some(found))) => found.pids@.len() > 0 && merges(a@, b@, found.pids@),
        (Ok(a), Ok(b), Ok(None)) => a@.len() == 0 && b@.len() == 0,
        _ => false,
    }
}

/// Looks for the app under its name and its former name. The former name is asked
/// for only where the first answer was no error.
pub fn running_desktop_process_with<F: Fn(&str) -> Result<Vec<u32>, String>>(pgrep: F) -> (out:
    Result<Option<RunningDesktop>, String>)
    requires
        forall|name: &str| #[trigger] call_requires(pgrep, (name,)),
    ensures
        exists|first: Result<Vec<u32>, String>, second: Result<Vec<u32>, String>|
            {
                &&& #[trigger] call_ensures(pgrep, ("ChatGPT",), first)
                &&& first is Ok ==> call_ensures(pgrep, ("Codex",), second)
                &&& #[trigger] probed(first, second, out)
            },
{
    let answer = pgrep("ChatGPT");
    let ghost first = answer;
    match answer {
        Err(message) => {
            let out: Result<Option<RunningDesktop>, String> = Err(message);
            proof {
                assert(call_ensures(pgrep, ("ChatGPT",), first));
                assert(probed(first, first, out));
            }
            out
        },
        Ok(current) => {
            let answer = pgrep("Codex");
            let ghost second = answer;
            let out = match answer {
                Err(message) => Err(message),
                Ok(former) => Ok(running_from(&current, &former)),
            };
            proof {
                assert(call_ensures(pgrep, ("ChatGPT",), first));
                assert(call_ensures(pgrep, ("Codex",), second));
                assert(probed(first, second, out));
            }
            out
        },
    }
}

/// The process of a line, if it is one.
pub open spec fn pid_of(line: Seq<char>) -> Option<nat> {
    crate::numbers::parsed_number(crate::lines::trimmed(line), u32::MAX as nat)
}

/// The processes of lines, without the lines that are none.
pub open spec fn pids_of(lines: Seq<Seq<char>>) -> Seq<u32>
    decreases lines.len(),
{
    if lines.len() == 0 {
        seq![]
    } else {
        match pid_of(lines.last()) {
            Some(pid) => pids_of(lines.drop_last()).push(pid as u32),
            None => pids_of(lines.drop_last()),
        }
    }
}

/// The processes that a text lists, one on each line.
pub fn pids_in(text: &str) -> (out: Vec<u32>)
    ensures
        out@ == pids_of(crate::lines::lines_of(text@)),
{
    let lines = split_lines(&chars_of(text));
    let ghost all = crate::lines::lines_of(text@);
    let mut out: Vec<u32> = Vec::new();
    let mut i: usize = 0;
    proof {
        assert(all.take(0) =~= seq![]);
        assert(all.len() == lines@.len());
    }
    while i < lines.len()
        invariant
            i <= lines.len(),
            all == crate::lines::rows(lines@),
            out@ == pids_of(all.take(i as int)),
        decreases lines.len() - i,
    {
        proof {
            assert(all.take(i + 1).drop_last() =~= all.take(i as int));
            assert(all.take(i + 1).last() == lines@[i as int]@);
        }
        match parse_number(&trim(&lines[i]), u32::MAX as u64) {
            Some(pid) => {
                out.push(pid as u32);
            },
            None => {},
        }
        i += 1;
    }
    proof {
        assert(all.take(all.len() as int) =~= all);
    }
    out
}

/// The processes that `pgrep` printed.
pub fn parse_pgrep_pids(stdout: &[u8]) -> (out: Vec<u32>)
    ensures
        out@ == pids_of(crate::lines::lines_of(crate::frames::lossy_of(stdout@))),
{
    pids_in(lossy_text(stdout).as_str())
}

/// What follows from a run of `pgrep` for a name: its processes, none where it
/// found none, and else an error with what it said.
pub fn pgrep_answer(
    process_name: &str,
    success: bool,
    code: Option<i32>,
    stdout: &[u8],
    stderr: &[u8],
) -> (out: Result<Vec<u32>, String>)
    ensures
        ({
            let said = crate::lines::trimmed(crate::frames::lossy_of(stderr@));
            let refusal = "failed to check for running ChatGPT Desktop process `"@ + process_name@
                + "`"@;
            match out {
                Ok(pids) => if success {
                    pids@ == pids_of(crate::lines::lines_of(crate::frames::lossy_of(stdout@)))
                } else {
                    code == Some(1i32) && pids@.len() == 0
                },
                Err(message) => !success && code != Some(1i32) && message@ == (if said.len() == 0 {
                    refusal
                } else {
                    refusal + ": "@ + said
                }),
            }
        }),
{
    if success {
        return Ok(parse_pgrep_pids(stdout));
    }
    match code {
        Some(n) => {
            if n == 1 {
                return Ok(Vec::new());
            }
        },
        None => {},
    }
    let said = trim_text(lossy_text(stderr).as_str());
    let refusal = concat3(
        "failed to check for running ChatGPT Desktop process `",
        process_name,
        "`",
    );
    if said.as_str().unicode_len() == 0 {
        Err(refusal)
    } else {
        Err(concat3(refusal.as_str(), ": ", said.as_str()))
    }
}

// ---------------------------------------------------------------------------
// The program of the app
// ---------------------------------------------------------------------------

/// The program inside an app bundle; other paths stay as they are.
pub open spec fn desktop_program(path: Seq<char>) -> Seq<char> {
    match (crate::paths::extension_of(path), crate::paths::stem_of(path)) {
        (Some(ext), Some(stem)) => if ext == "app"@ && stem.len() > 0 {
            crate::paths::joined_path(crate::paths::joined_path(path, "Contents/MacOS"@), stem)
        } else {
            path
        },
        _ => path,
    }
}

/// The program inside an app bundle; other paths stay as they are.
pub fn normalize_desktop_bin(path: &str) -> (out: String)
    ensures
        out@ == desktop_program(path@),
{
    match extension(path) {
        Some(ext) => {
            if same(ext.as_str(), "app") {
                match file_stem(path) {
                    Some(stem) => {
                        if stem.as_str().unicode_len() > 0 {
                            return join_path(
                                join_path(path, "Contents/MacOS").as_str(),
                                stem.as_str(),
                            );
                        }
                    },
                    None => {},
                }
            }
        },
        None => {},
    }
    copy_of(path)
}

/// Where the app is by default.
pub open spec fn default_programs() -> Seq<Seq<char>> {
    seq![
        "/Applications/ChatGPT.app/Contents/MacOS/ChatGPT"@,
        "/Applications/Codex.app/Contents/MacOS/Codex"@,
    ]
}

/// The program of the app: the one asked for, else that of the environment, else
/// the first of the default ones that `exists`.
pub fn resolve_desktop_bin<F: Fn(&str) -> bool>(
    asked: &Option<String>,
    from_env: &Option<String>,
    exists: F,
) -> (out: Result<String, String>)
    requires
        forall|path: &str| #[trigger] call_requires(exists, (path,)),
    ensures
        match (asked, from_env) {
            (Some(path), _) => out matches Ok(used) && used@ == desktop_program(path@),
            (None, Some(path)) => out matches Ok(used) && used@ == desktop_program(path@),
            (None, None) => match out {
                Ok(used) => crate::run::is_first_file(exists, default_programs(), Some(used@)),
                Err(message) => crate::run::is_first_file(exists, default_programs(), None)
                    && message@ == "ChatGPT Desktop executable not found; checked "@
                    + default_programs()[0] + " and "@ + default_programs()[1]
                    + "; install it with `brew install --cask codex-app` or pass --app-bin"@,
            },
        },
{
    match asked {
        Some(path) => {
            return Ok(normalize_desktop_bin(path.as_str()));
        },
        None => {},
    }
    match from_env {
        Some(path) => {
            return Ok(normalize_desktop_bin(path.as_str()));
        },
        None => {},
    }
    let mut places: Vec<String> = Vec::new();
    places.push(copy_of(DEFAULT_DESKTOP_BIN));
    places.push(copy_of(LEGACY_DESKTOP_BIN));
    proof {
        assert(crate::text::texts(places@) =~= default_programs());
    }
    match first_file(&places, exists) {
        Some(path) => Ok(path),
        None => {
            let head = concat4(
                "ChatGPT Desktop executable not found; checked ",
                DEFAULT_DESKTOP_BIN,
                " and ",
                LEGACY_DESKTOP_BIN,
            );
            Err(
                concat2(
                    head.as_str(),
                    "; install it with `brew install --cask codex-app` or pass --app-bin",
                ),
            )
        },
    }
}

// ---------------------------------------------------------------------------
// Settings
// ---------------------------------------------------------------------------

/// A configuration with the settings of a table.
pub open spec fn with_settings(
    config: crate::settings::TomlModel,
    settings: Seq<(Seq<char>, crate::settings::TomlModel)>,
) -> crate::settings::TomlModel
    decreases settings.len(),
{
    if settings.len() == 0 {
        config
    } else {
        crate::settings::with_setting(
            with_settings(config, settings.drop_last()),
            settings.last().0,
            settings.last().1,
        )
    }
}

/// A configuration with the settings of one more line.
pub open spec fn with_line(
    config: crate::settings::TomlModel,
    line: Seq<char>,
) -> Result<crate::settings::TomlModel, Seq<char>> {
    match crate::settings::toml_parsed(line) {
        Err(reason) => Err("parse override line: "@ + line + ": "@ + reason),
        Ok(crate::settings::TomlModel::Table(settings)) => Ok(with_settings(config, settings)),
        Ok(_) => Ok(config),
    }
}

/// A configuration with the settings of lines, up to the first that cannot be read.
pub open spec fn with_lines(
    config: crate::settings::TomlModel,
    lines: Seq<Seq<char>>,
) -> Result<crate::settings::TomlModel, Seq<char>>
    decreases lines.len(),
{
    if lines.len() == 0 {
        Ok(config)
    } else {
        match with_lines(config, lines.drop_last()) {
            Err(message) => Err(message),
            Ok(before) => with_line(before, lines.last()),
        }
    }
}

/// The configuration that a file holds, or why it cannot be read; an empty one for a
/// blank file or none.
pub open spec fn file_config(content: Option<Seq<char>>) -> Result<
    crate::settings::TomlModel,
    Seq<char>,
> {
    match content {
        Some(text) => if crate::lines::trimmed(text).len() == 0 {
            Ok(crate::settings::TomlModel::Table(seq![]))
        } else {
            crate::settings::toml_parsed(text)
        },
        None => Ok(crate::settings::TomlModel::Table(seq![])),
    }
}

/// The configuration of a slot with `overrides` in it, as the text of a file.
pub open spec fn materialized(content: Option<Seq<char>>, overrides: Seq<Seq<char>>) -> Result<
    Seq<char>,
    Seq<char>,
> {
    match file_config(content) {
        Err(reason) => Err("parse config.toml: "@ + reason),
        Ok(base) => match with_lines(base, overrides) {
            Err(message) => Err(message),
            Ok(config) => match crate::settings::file_form(config) {
                Err(reason) => Err("serialize merged config.toml: "@ + reason),
                Ok(text) => Ok(text),
            },
        },
    }
}

fn apply_line(config: Toml, line: &str) -> (out: Result<Toml, String>)
    ensures
        match (with_line(config@, line@), out) {
            (Ok(model), Ok(value)) => value@ == model,
            (Err(reason), Err(message)) => message@ == reason,
            _ => false,
        },
{
    let parsed = match parse_toml(line) {
        Err(reason) => {
            return Err(concat4("parse override line: ", line, ": ", reason.as_str()));
        },
        Ok(value) => value,
    };
    proof {
        crate::settings::lemma_container_models(parsed);
    }
    match &parsed {
        Toml::Table(settings) => {
            let ghost all = crate::settings::member_models(settings@);
            let ghost base = config@;
            let mut value = config;
            let mut i: usize = 0;
            proof {
                assert(all.take(0) =~= seq![]);
            }
            while i < settings.len()
                invariant
                    i <= settings.len(),
                    all == crate::settings::member_models(settings@),
                    value@ == with_settings(base, all.take(i as int)),
                decreases settings.len() - i,
            {
                proof {
                    assert(all.take(i + 1).drop_last() =~= all.take(i as int));
                    assert(all.take(i + 1).last() == all[i as int]);
                }
                value = merge_toml_value(&value, settings[i].0.as_str(), &settings[i].1);
                i += 1;
            }
            proof {
                assert(all.take(all.len() as int) =~= all);
            }
            Ok(value)
        },
        _ => Ok(config),
    }
}

proof fn lemma_lines_fail_early(
    config: crate::settings::TomlModel,
    lines: Seq<Seq<char>>,
    k: int,
)
    requires
        0 <= k <= lines.len(),
        with_lines(config, lines.take(k)) is Err,
    ensures
        with_lines(config, lines) == with_lines(config, lines.take(k)),
    decreases lines.len(),
{
    if k == lines.len() {
        assert(lines.take(k) =~= lines);
    } else {
        assert(lines.drop_last().take(k) =~= lines.take(k));
        lemma_lines_fail_early(config, lines.drop_last(), k);
    }
}

/// The configuration of a slot with `overrides` in it, as the text of a file: the
/// app reads no settings from its arguments.
pub fn materialize_slot_config_toml(content: &Option<String>, overrides: &Vec<String>) -> (out:
    Result<String, String>)
    ensures
        crate::envfile::result_text(out) == materialized(
            crate::text::opt_text(*content),
            crate::text::texts(overrides@),
        ),
{
    let mut value = match content {
        None => new_table(),
        Some(text) => if trim_text(text.as_str()).as_str().unicode_len() == 0 {
            new_table()
        } else {
            match parse_toml(text.as_str()) {
                Err(reason) => {
                    return Err(concat2("parse config.toml: ", reason.as_str()));
                },
                Ok(parsed) => parsed,
            }
        },
    };
    let ghost base = value@;
    let ghost all = crate::text::texts(overrides@);
    let mut i: usize = 0;
    proof {
        assert(file_config(crate::text::opt_text(*content)) == Ok::<
                crate::settings::TomlModel,
                Seq<char>,
            >(base));
        assert(all.take(0) =~= seq![]);
    }
    while i < overrides.len()
        invariant
            i <= overrides.len(),
            all == crate::text::texts(overrides@),
            file_config(crate::text::opt_text(*content)) == Ok::<
                crate::settings::TomlModel,
                Seq<char>,
            >(base),
            with_lines(base, all.take(i as int)) == Ok::<crate::settings::TomlModel, Seq<char>>(
                value@,
            ),
        decreases overrides.len() - i,
    {
        proof {
            assert(all.take(i + 1).drop_last() =~= all.take(i as int));
            assert(all.take(i + 1).last() == overrides@[i as int]@);
        }
        match apply_line(value, overrides[i].as_str()) {
            Ok(next) => {
                value = next;
            },
            Err(message) => {
                proof {
                    lemma_lines_fail_early(base, all, i + 1);
                }
                return Err(message);
            },
        }
        i += 1;
    }
    proof {
        assert(all.take(all.len() as int) =~= all);
    }
    match render_pretty(&value) {
        Ok(text) => Ok(text),
        Err(reason) => Err(concat2("serialize merged config.toml: ", reason.as_str())),
    }
}

// ---------------------------------------------------------------------------
// Arguments
// ---------------------------------------------------------------------------

/// The project that arguments ask to open.
pub open spec fn open_project(args: Seq<Seq<char>>) -> Option<Seq<char>>
    decreases args.len(),
{
    if args.len() == 0 {
        None
    } else if args[0] == "--open-project"@ {
        if args.len() > 1 {
            Some(args[1])
        } else {
            None
        }
    } else {
        match crate::text::stripped_prefix(args[0], "--open-project="@) {
            Some(path) => if crate::lines::trimmed(path).len() > 0 {
                Some(path)
            } else {
                open_project(args.skip(1))
            },
            None => open_project(args.skip(1)),
        }
    }
}

/// The project that arguments ask to open.
pub fn desktop_open_project_arg(args: &Vec<String>) -> (out: Option<String>)
    ensures
        crate::text::opt_text(out) == open_project(crate::text::texts(args@)),
{
    let ghost all = crate::text::texts(args@);
    let mut i: usize = 0;
    proof {
        assert(all.skip(0) =~= all);
    }
    while i < args.len()
        invariant
            i <= args.len(),
            all == crate::text::texts(args@),
            open_project(all) == open_project(all.skip(i as int)),
        decreases args.len() - i,
    {
        proof {
            assert(all.skip(i as int)[0] == args@[i as int]@);
            assert(all.skip(i as int).skip(1) =~= all.skip(i + 1));
            if i + 1 < args@.len() {
                assert(all.skip(i as int)[1] == args@[i + 1]@);
            }
        }
        if same(args[i].as_str(), "--open-project") {
            return if i + 1 < args.len() {
                Some(args[i + 1].clone())
            } else {
                None
            };
        }
        match strip_prefix(&chars_of(args[i].as_str()), "--open-project=") {
            Some(path) => {
                if trim(&path).len() > 0 {
                    return Some(string_of(&path));
                }
            },
            None => {},
        }
        i += 1;
    }
    None
}

/// The project that the app opens.
pub open spec fn workspace_of(args: Seq<Seq<char>>, launch_cwd: Seq<char>) -> Seq<char> {
    match open_project(args) {
        None => launch_cwd,
        Some(path) => if crate::paths::is_absolute(path) {
            path
        } else {
            crate::paths::joined_path(launch_cwd, path)
        },
    }
}

/// The project that the app opens.
pub fn desktop_workspace_root(args: &Vec<String>, launch_cwd: &str) -> (out: String)
    ensures
        out@ == workspace_of(crate::text::texts(args@), launch_cwd@),
{
    match desktop_open_project_arg(args) {
        None => copy_of(launch_cwd),
        Some(path) => if absolute(path.as_str()) {
            path
        } else {
            join_path(launch_cwd, path.as_str())
        },
    }
}

/// Arguments that name the project to open.
pub open spec fn with_project(args: Seq<Seq<char>>, launch_cwd: Seq<char>) -> Seq<Seq<char>> {
    if open_project(args) is None {
        args + seq!["--open-project"@, launch_cwd]
    } else {
        args
    }
}

/// Arguments that name the project to open.
pub fn ensure_open_project_arg(args: &Vec<String>, launch_cwd: &str) -> (out: Vec<String>)
    ensures
        crate::text::texts(out@) == with_project(crate::text::texts(args@), launch_cwd@),
{
    let mut out = copy_all(args);
    if desktop_open_project_arg(args).is_none() {
        push_text(&mut out, copy_of("--open-project"));
        push_text(&mut out, copy_of(launch_cwd));
        proof {
            assert(crate::text::texts(out@) =~= with_project(
                crate::text::texts(args@),
                launch_cwd@,
            ));
        }
    }
    out
}

/// The directory that holds the parts of an app.
pub open spec fn contents_of(app_bin: Seq<char>) -> Option<Seq<char>> {
    match crate::paths::parent_of(app_bin) {
        Some(dir) => crate::paths::parent_of(dir),
        None => None,
    }
}

fn contents_dir(app_bin: &str) -> (out: Option<String>)
    ensures
        crate::text::opt_text(out) == contents_of(app_bin@),
{
    match parent(app_bin) {
        Some(dir) => parent(dir.as_str()),
        None => None,
    }
}

/// Where the payload of an app is, if it has one.
pub open spec fn payload_of(app_bin: Seq<char>) -> Option<Seq<char>> {
    match contents_of(app_bin) {
        Some(contents) => Some(crate::paths::joined_path(contents, "Resources/app.asar"@)),
        None => None,
    }
}

/// Where the payload of an app is, if it has one.
pub fn desktop_app_payload(app_bin: &str) -> (out: Option<String>)
    ensures
        crate::text::opt_text(out) == payload_of(app_bin@),
{
    match contents_dir(app_bin) {
        Some(contents) => Some(join_path(contents.as_str(), "Resources/app.asar")),
        None => None,
    }
}

/// Arguments behind the payload of the app.
pub open spec fn with_payload(
    app_bin: Seq<char>,
    payload_exists: bool,
    args: Seq<Seq<char>>,
) -> Seq<Seq<char>> {
    match payload_of(app_bin) {
        Some(payload) => if payload_exists {
            seq![payload] + args
        } else {
            args
        },
        None => args,
    }
}

/// Arguments behind the payload of the app, where that exists.
pub fn prepend_desktop_app_arg(app_bin: &str, payload_exists: bool, args: Vec<String>) -> (out: Vec<
    String,
>)
    ensures
        crate::text::texts(out@) == with_payload(
            app_bin@,
            payload_exists,
            crate::text::texts(args@),
        ),
{
    if payload_exists {
        match desktop_app_payload(app_bin) {
            Some(payload) => {
                let mut out: Vec<String> = Vec::new();
                out.push(payload);
                proof {
                    assert(crate::text::texts(out@) =~= seq![payload@]);
                }
                extend(&mut out, args);
                return out;
            },
            None => {},
        }
    }
    args
}

// ---------------------------------------------------------------------------
// Launches
// ---------------------------------------------------------------------------

/// How the app is started.
pub struct DesktopLaunchSpec {
    pub program: String,
    pub codex_home: String,
    pub envs: EnvMap,
    pub launch_cwd: String,
    pub workspace_root: String,
    pub args: Vec<String>,
    pub slot: String,
    pub target_name: Option<String>,
    /// What the configuration file of the slot holds from now on.
    pub config: String,
}

/// How the app is started, over mathematical values.
pub struct DesktopModel {
    pub program: Seq<char>,
    pub codex_home: Seq<char>,
    pub envs: Map<Seq<char>, Seq<char>>,
    pub launch_cwd: Seq<char>,
    pub workspace_root: Seq<char>,
    pub args: Seq<Seq<char>>,
    pub slot: Seq<char>,
    pub target_name: Option<Seq<char>>,
    pub config: Seq<char>,
}

impl View for DesktopLaunchSpec {
    type V = DesktopModel;

    open spec fn view(&self) -> DesktopModel {
        DesktopModel {
            program: self.program@,
            codex_home: self.codex_home@,
            envs: crate::envfile::env_of(self.envs),
            launch_cwd: self.launch_cwd@,
            workspace_root: self.workspace_root@,
            args: crate::text::texts(self.args@),
            slot: self.slot@,
            target_name: crate::text::opt_text(self.target_name),
            config: self.config@,
        }
    }
}

/// What a launch reads.
pub struct DesktopFiles {
    pub home_is_dir: bool,
    pub overrides: Option<String>,
    pub env: Option<String>,
    pub keychain: Option<String>,
    /// The login of the slot.
    pub auth: Option<String>,
    /// The configuration of the base home.
    pub config: Option<String>,
    /// The configuration of the slot.
    pub slot_config: Option<String>,
    pub payload_exists: bool,
    /// The program that runs now.
    pub cx_exe: String,
}

/// Variables that make the app start Codex through this program.
pub open spec fn with_proxy(
    envs: Map<Seq<char>, Seq<char>>,
    contents: Seq<char>,
    cx_exe: Seq<char>,
) -> Map<Seq<char>, Seq<char>> {
    envs.insert("CODEX_CLI_PATH"@, cx_exe).insert("CX_DESKTOP_CODEX_PROXY"@, "1"@).insert(
        "CX_DESKTOP_REAL_CODEX_CLI"@,
        crate::paths::joined_path(contents, "Resources/codex"@),
    ).insert("CODEX_APP_SERVER_FORCE_CLI"@, "1"@)
}

/// Makes the app start Codex through this program.
pub fn inject_desktop_codex_proxy(app_bin: &str, cx_exe: &str, envs: &mut EnvMap) -> (out: Result<
    (),
    String,
>)
    ensures
        match (contents_of(app_bin@), out) {
            (Some(contents), Ok(_)) => crate::envfile::env_of(*final(envs)) == with_proxy(
                crate::envfile::env_of(*old(envs)),
                contents,
                cx_exe@,
            ),
            (None, Err(message)) => *final(envs) == *old(envs) && message@
                == "resolve app bundle from "@ + app_bin@,
            _ => false,
        },
{
    let contents = match contents_dir(app_bin) {
        None => {
            return Err(concat2("resolve app bundle from ", app_bin));
        },
        Some(contents) => contents,
    };
    set_env(envs, "CODEX_CLI_PATH", cx_exe);
    set_env(envs, "CX_DESKTOP_CODEX_PROXY", "1");
    set_env(
        envs,
        "CX_DESKTOP_REAL_CODEX_CLI",
        join_path(contents.as_str(), "Resources/codex").as_str(),
    );
    set_env(envs, "CODEX_APP_SERVER_FORCE_CLI", "1");
    Ok(())
}

/// Whether a login file holds the tokens of a user.
pub open spec fn has_user_login(auth: Option<Seq<char>>) -> bool {
    match auth {
        Some(text) => match crate::json::json_parsed(text) {
            Ok(json) => match json.member("tokens"@) {
                Some(tokens) => match tokens.member_text("access_token"@) {
                    Some(token) => token.len() > 0,
                    None => false,
                },
                None => false,
            },
            Err(_) => false,
        },
        None => false,
    }
}

/// Whether a login file holds the tokens of a user.
pub fn user_login(auth: &Option<String>) -> (out: bool)
    ensures
        out == has_user_login(crate::text::opt_text(*auth)),
{
    match auth {
        Some(text) => match parse_json(text.as_str()) {
            Ok(json) => match json.get("tokens") {
                Some(tokens) => match tokens.get_text("access_token") {
                    Some(token) => token.as_str().unicode_len() > 0,
                    None => false,
                },
                None => false,
            },
            Err(_) => false,
        },
        None => false,
    }
}

/// How the app starts in a slot, before a token of the keychain is added.
pub open spec fn desktop_launch(
    paths: ManagerPaths,
    app_bin: Seq<char>,
    slot: Seq<char>,
    target: Option<crate::target::TargetModel>,
    launch_cwd: Seq<char>,
    args: Seq<Seq<char>>,
    files: DesktopFiles,
) -> Result<DesktopModel, Seq<char>> {
    let home = paths.slot_home_text(slot);
    let own = crate::run::run_overrides(crate::text::opt_text(files.overrides), target);
    let config = crate::paths::joined_path(paths.base_codex_home@, "config.toml"@);
    let merged = match target {
        Some(found) => crate::run::slot_env(crate::text::opt_text(files.env)).union_prefer_right(
            found.env,
        ),
        None => crate::run::slot_env(crate::text::opt_text(files.env)),
    };
    if !files.home_is_dir {
        Err("missing slot home for "@ + slot + ": "@ + home)
    } else {
        match crate::provider::resolved(crate::text::opt_text(files.config), config, own) {
            Err(message) => Err(message),
            Ok(more) => match materialized(crate::text::opt_text(files.slot_config), own + more) {
                Err(message) => Err(message),
                Ok(text) => match contents_of(app_bin) {
                    None => Err("resolve app bundle from "@ + app_bin),
                    Some(contents) => Ok(
                        DesktopModel {
                            program: app_bin,
                            codex_home: home,
                            envs: with_proxy(merged, contents, files.cx_exe@).insert(
                                "CODEX_SQLITE_HOME"@,
                                crate::paths::joined_path(paths.base_codex_home@, "sqlite"@),
                            ),
                            launch_cwd,
                            workspace_root: workspace_of(args, launch_cwd),
                            args: with_payload(
                                app_bin,
                                files.payload_exists,
                                with_project(args, launch_cwd),
                            ),
                            slot,
                            target_name: match target {
                                Some(found) => Some(found.name),
                                None => None,
                            },
                            config: text,
                        },
                    ),
                },
            },
        }
    }
}

/// The outcome of a launch, over mathematical values.
pub open spec fn launch_result(out: Result<DesktopLaunchSpec, String>) -> Result<
    DesktopModel,
    Seq<char>,
> {
    match out {
        Ok(spec) => Ok(spec@),
        Err(message) => Err(message@),
    }
}

/// How the app starts in a slot, before a token of the keychain is added.
pub fn desktop_launch_spec(
    paths: &ManagerPaths,
    app_bin: &str,
    slot: &str,
    target: &Option<TargetSpec>,
    launch_cwd: &str,
    args: &Vec<String>,
    files: &DesktopFiles,
) -> (out: Result<DesktopLaunchSpec, String>)
    ensures
        launch_result(out) == desktop_launch(
            *paths,
            app_bin@,
            slot@,
            crate::target::opt_target(*target),
            launch_cwd@,
            crate::text::texts(args@),
            *files,
        ),
{
    let home = paths.slot_home(slot);
    if !files.home_is_dir {
        return Err(concat4("missing slot home for ", slot, ": ", home.as_str()));
    }
    let mut envs = match &files.env {
        Some(text) => read_env_file(text.as_str()),
        None => {
            let none: EnvMap = TextMap::new();
            proof {
                assert(crate::envfile::env_of(none) =~= Map::empty());
            }
            none
        },
    };
    let mut overrides = read_override_lines(&files.overrides);
    match target {
        Some(found) => {
            extend(&mut overrides, copy_all(&found.overrides));
        },
        None => {},
    }
    let config = join_path(paths.base_codex_home.as_str(), "config.toml");
    let more = match resolve(&files.config, config.as_str(), &overrides) {
        Ok(lines) => lines,
        Err(message) => {
            return Err(message);
        },
    };
    extend(&mut overrides, more);
    let text = match materialize_slot_config_toml(&files.slot_config, &overrides) {
        Ok(text) => text,
        Err(message) => {
            return Err(message);
        },
    };
    let target_name = match target {
        Some(found) => {
            extend_env(&mut envs, &found.env);
            Some(found.name.clone())
        },
        None => None,
    };
    match inject_desktop_codex_proxy(app_bin, files.cx_exe.as_str(), &mut envs) {
        Ok(_) => {},
        Err(message) => {
            return Err(message);
        },
    }
    set_env(&mut envs, "CODEX_SQLITE_HOME", paths.shared_sqlite_home().as_str());
    let all = ensure_open_project_arg(args, launch_cwd);
    Ok(
        DesktopLaunchSpec {
            program: copy_of(app_bin),
            codex_home: home,
            envs,
            launch_cwd: copy_of(launch_cwd),
            workspace_root: desktop_workspace_root(args, launch_cwd),
            args: prepend_desktop_app_arg(app_bin, files.payload_exists, all),
            slot: copy_of(slot),
            target_name,
            config: text,
        },
    )
}

/// Whether `out` is `launch` with the variables that the keychain leads to.
pub open spec fn with_keychain<F: FnOnce(&str, &str) -> Result<Option<String>, String>>(
    fetch: F,
    conf_content: Option<Seq<char>>,
    launch: DesktopModel,
    parent: Seq<Seq<char>>,
    out: Result<DesktopLaunchSpec, String>,
) -> bool {
    match out {
        Ok(spec) => spec@ == (DesktopModel { envs: spec@.envs, ..launch })
            && crate::keychain::follows_keychain(
            fetch,
            conf_content,
            launch.slot,
            launch.envs,
            spec@.envs,
            parent,
            Ok(()),
        ),
        Err(message) => crate::keychain::follows_keychain(
            fetch,
            conf_content,
            launch.slot,
            launch.envs,
            launch.envs,
            parent,
            Err(message),
        ),
    }
}

/// How the app starts in a slot. The keychain is asked for a token unless the slot
/// has a login of its own.
pub fn build_desktop_launch_spec<F: FnOnce(&str, &str) -> Result<Option<String>, String>>(
    paths: &ManagerPaths,
    app_bin: &str,
    slot: &str,
    target: &Option<TargetSpec>,
    launch_cwd: &str,
    args: &Vec<String>,
    files: &DesktopFiles,
    parent: &Vec<String>,
    fetch: F,
) -> (out: Result<DesktopLaunchSpec, String>)
    requires
        forall|s: &str, a: &str| #[trigger] call_requires(fetch, (s, a)),
    ensures
        match desktop_launch(
            *paths,
            app_bin@,
            slot@,
            crate::target::opt_target(*target),
            launch_cwd@,
            crate::text::texts(args@),
            *files,
        ) {
            Err(reason) => out matches Err(message) && message@ == reason,
            Ok(launch) => if has_user_login(crate::text::opt_text(files.auth)) {
                out matches Ok(spec) && spec@ == launch
            } else {
                with_keychain(
                    fetch,
                    crate::text::opt_text(files.keychain),
                    launch,
                    crate::text::texts(parent@),
                    out,
                )
            },
        },
{
    let spec = desktop_launch_spec(paths, app_bin, slot, target, launch_cwd, args, files);
    match spec {
        Err(message) => Err(message),
        Ok(mut spec) => {
            if user_login(&files.auth) {
                return Ok(spec);
            }
            match inject_pat_env_from_keychain(
                &files.keychain,
                slot,
                &mut spec.envs,
                parent,
                fetch,
            ) {
                Ok(_) => Ok(spec),
                Err(message) => Err(message),
            }
        },
    }
}

/// What is said of a launch.
pub open spec fn launch_text(launch: DesktopModel) -> Seq<Seq<char>> {
    let target = match launch.target_name {
        Some(name) => seq!["cx desktop target: "@ + name],
        None => seq![],
    };
    seq!["cx desktop slot: "@ + launch.slot] + target + seq![
        "cx desktop CODEX_HOME: "@ + launch.codex_home,
        "cx desktop workspace: "@ + launch.workspace_root,
    ]
}

/// What is said of a launch.
pub fn launch_lines(spec: &DesktopLaunchSpec) -> (out: Vec<String>)
    ensures
        crate::text::texts(out@) == launch_text(spec@),
{
    let mut out: Vec<String> = Vec::new();
    out.push(concat2("cx desktop slot: ", spec.slot.as_str()));
    match &spec.target_name {
        Some(target) => {
            out.push(concat2("cx desktop target: ", target.as_str()));
        },
        None => {},
    }
    out.push(concat2("cx desktop CODEX_HOME: ", spec.codex_home.as_str()));
    out.push(concat2("cx desktop workspace: ", spec.workspace_root.as_str()));
    proof {
        assert(crate::text::texts(out@) =~= launch_text(spec@));
    }
    out
}

// ---------------------------------------------------------------------------
// Laws
// ---------------------------------------------------------------------------

proof fn lemma_added_project(args: Seq<Seq<char>>, launch_cwd: Seq<char>)
    requires
        open_project(args) is None,
        args.len() == 0 || args.last() != "--open-project"@,
    ensures
        open_project(args + seq!["--open-project"@, launch_cwd]) == Some(launch_cwd),
    decreases args.len(),
{
    let all = args + seq!["--open-project"@, launch_cwd];
    if args.len() > 0 {
        assert(all[0] == args[0]);
        assert(all.skip(1) =~= args.skip(1) + seq!["--open-project"@, launch_cwd]);
        if args[0] == "--open-project"@ {
            assert(args.len() == 1);
            assert(args.last() == args[0]);
        } else {
            if args.len() > 1 {
                assert(args.skip(1).last() == args.last());
            }
            lemma_added_project(args.skip(1), launch_cwd);
        }
    } else {
        assert(all[0] == "--open-project"@);
        assert(all[1] == launch_cwd);
    }
}

/// The app always opens a project, unless the last argument is `--open-project`
/// without one: the one asked for, else the current directory. Adding it again
/// changes nothing.
pub proof fn launches_open_a_project(args: Seq<Seq<char>>, launch_cwd: Seq<char>)
    requires
        args.len() == 0 || args.last() != "--open-project"@,
    ensures
        open_project(with_project(args, launch_cwd)) == Some(
            match open_project(args) {
                Some(path) => path,
                None => launch_cwd,
            },
        ),
        with_project(with_project(args, launch_cwd), launch_cwd) == with_project(args, launch_cwd),
{
    if open_project(args) is None {
        lemma_added_project(args, launch_cwd);
    }
}

/// The variables of the proxy and the shared index are set for every launch,
/// whatever the slot and the target say.
pub proof fn launches_use_the_proxy(
    paths: ManagerPaths,
    app_bin: Seq<char>,
    slot: Seq<char>,
    target: Option<crate::target::TargetModel>,
    launch_cwd: Seq<char>,
    args: Seq<Seq<char>>,
    files: DesktopFiles,
)
    ensures
        desktop_launch(paths, app_bin, slot, target, launch_cwd, args, files) matches Ok(launch)
            ==> {
            &&& launch.envs["CX_DESKTOP_CODEX_PROXY"@] == "1"@
            &&& launch.envs["CODEX_APP_SERVER_FORCE_CLI"@] == "1"@
            &&& launch.envs["CODEX_CLI_PATH"@] == files.cx_exe@
            &&& launch.envs["CODEX_SQLITE_HOME"@] == crate::paths::joined_path(
                paths.base_codex_home@,
                "sqlite"@,
            )
        },
{
    reveal_strlit("CODEX_CLI_PATH");
    reveal_strlit("CX_DESKTOP_CODEX_PROXY");
    reveal_strlit("CX_DESKTOP_REAL_CODEX_CLI");
    reveal_strlit("CODEX_APP_SERVER_FORCE_CLI");
    reveal_strlit("CODEX_SQLITE_HOME");
    assert("CODEX_CLI_PATH"@.len() == 14);
    assert("CX_DESKTOP_CODEX_PROXY"@.len() == 22);
    assert("CX_DESKTOP_REAL_CODEX_CLI"@.len() == 25);
    assert("CODEX_APP_SERVER_FORCE_CLI"@.len() == 26);
    assert("CODEX_SQLITE_HOME"@.len() == 17);
}

/// The desktop app starts in the home of its slot and names slot and target. It opens the
/// project that is asked for, and else where it is started; a path that does not begin
/// at the root is one below that.
pub proof fn desktops_start_in_their_slot(
    paths: ManagerPaths,
    app_bin: Seq<char>,
    slot: Seq<char>,
    target: Option<crate::target::TargetModel>,
    launch_cwd: Seq<char>,
    args: Seq<Seq<char>>,
    files: DesktopFiles,
)
    ensures
        desktop_launch(paths, app_bin, slot, target, launch_cwd, args, files) matches Ok(launch)
            ==> {
            &&& files.home_is_dir
            &&& launch.program == app_bin
            &&& launch.codex_home == paths.slot_home_text(slot)
            &&& launch.slot == slot
            &&& launch.launch_cwd == launch_cwd
            &&& target is Some ==> launch.target_name == Some(target->0.name)
            &&& target is None ==> launch.target_name is None
            &&& open_project(args) is None ==> launch.workspace_root == launch_cwd
            &&& open_project(args) matches Some(path) ==> launch.workspace_root == (if path.len()
                > 0 && path[0] == '/' {
                path
            } else {
                crate::paths::joined_path(launch_cwd, path)
            })
        },
{
}

/// The desktop app sees a variable of the target as the target sets it and any other as
/// the slot's file sets it, but for those that lead it to the proxy and the shared index.
pub proof fn desktops_see_the_variables_of_runs(
    paths: ManagerPaths,
    app_bin: Seq<char>,
    slot: Seq<char>,
    target: Option<crate::target::TargetModel>,
    launch_cwd: Seq<char>,
    args: Seq<Seq<char>>,
    files: DesktopFiles,
    name: Seq<char>,
)
    requires
        name != "CODEX_SQLITE_HOME"@,
        name != "CODEX_CLI_PATH"@,
        name != "CX_DESKTOP_CODEX_PROXY"@,
        name != "CX_DESKTOP_REAL_CODEX_CLI"@,
        name != "CODEX_APP_SERVER_FORCE_CLI"@,
    ensures
        desktop_launch(paths, app_bin, slot, target, launch_cwd, args, files) matches Ok(launch)
            ==> {
            let of_slot = match files.env {
                Some(text) => crate::envfile::env_of_lines(crate::lines::lines_of(text@)),
                None => Map::empty(),
            };
            let set_by_target = target matches Some(found) && found.env.dom().contains(name);
            &&& launch.envs.dom().contains(name) == (set_by_target || of_slot.dom().contains(name))
            &&& set_by_target ==> launch.envs[name] == target->0.env[name]
            &&& !set_by_target && of_slot.dom().contains(name) ==> launch.envs[name]
                == of_slot[name]
        },
{
}

/// The configuration of the slot gets the settings of the slot's file, those of the
/// target behind them, and the provider behind both.
pub proof fn desktops_get_their_settings(
    paths: ManagerPaths,
    app_bin: Seq<char>,
    slot: Seq<char>,
    target: Option<crate::target::TargetModel>,
    launch_cwd: Seq<char>,
    args: Seq<Seq<char>>,
    files: DesktopFiles,
)
    ensures
        desktop_launch(paths, app_bin, slot, target, launch_cwd, args, files) matches Ok(launch)
            ==> {
            let of_slot = match files.overrides {
                Some(text) => crate::slot::listed(crate::lines::lines_of(text@)),
                None => seq![],
            };
            let of_target = match target {
                Some(found) => found.overrides,
                None => seq![],
            };
            let config = crate::paths::joined_path(paths.base_codex_home@, "config.toml"@);
            let provider = crate::provider::resolved(
                crate::text::opt_text(files.config),
                config,
                of_slot + of_target,
            );
            &&& provider is Ok
            &&& materialized(
                crate::text::opt_text(files.slot_config),
                of_slot + of_target + provider->Ok_0,
            ) == Ok::<Seq<char>, Seq<char>>(launch.config)
        },
{
    let of_slot = match files.overrides {
        Some(text) => crate::slot::listed(crate::lines::lines_of(text@)),
        None => seq![],
    };
    let of_target = match target {
        Some(found) => found.overrides,
        None => seq![],
    };
    assert(crate::run::run_overrides(crate::text::opt_text(files.overrides), target) =~= of_slot
        + of_target);
}

/// Settings are laid over a configuration line by line, in order, and the first line that
/// cannot be read is an error.
pub proof fn lines_are_laid_in_order(
    config: crate::settings::TomlModel,
    a: Seq<Seq<char>>,
    b: Seq<Seq<char>>,
)
    ensures
        with_lines(config, a + b) == (match with_lines(config, a) {
            Ok(middle) => with_lines(middle, b),
            Err(message) => Err::<crate::settings::TomlModel, Seq<char>>(message),
        }),
        with_lines(config, seq![]) == Ok::<crate::settings::TomlModel, Seq<char>>(config),
    decreases b.len(),
{
    if b.len() == 0 {
        assert(a + b =~= a);
    } else {
        lines_are_laid_in_order(config, a, b.drop_last());
        assert((a + b).drop_last() =~= a + b.drop_last());
        assert((a + b).last() == b.last());
    }
}

/// A line sets each setting that it names, as one would be set alone.
pub proof fn lines_set_their_settings(
    members: Seq<(Seq<char>, crate::settings::TomlModel)>,
    line: Seq<char>,
    key: Seq<char>,
    value: crate::settings::TomlModel,
    other: Seq<char>,
)
    requires
        crate::settings::toml_parsed(line) == Ok::<crate::settings::TomlModel, Seq<char>>(
            crate::settings::TomlModel::Table(seq![(key, value)]),
        ),
        value !is Table,
        other != key,
    ensures
        with_line(crate::settings::TomlModel::Table(members), line) matches Ok(config)
            && config.member(key) == Some(value) && config.member(other)
            == crate::settings::lookup(members, other),
{
    let one = seq![(key, value)];
    let base = crate::settings::TomlModel::Table(members);
    assert(one.drop_last() =~= seq![]);
    assert(one.last() == (key, value));
    assert(with_settings(base, seq![]) == base);
    crate::settings::settings_are_set(members, key, value, other);
}

/// The program of an app bundle is the one of its name inside; any other path is a
/// program itself.
pub proof fn bundles_hold_their_program(path: Seq<char>)
    ensures
        crate::paths::extension_of(path) != Some("app"@) ==> desktop_program(path) == path,
        crate::paths::extension_of(path) == Some("app"@) && (crate::paths::stem_of(path) matches Some(
            stem,
        ) && stem.len() > 0) ==> desktop_program(path) == crate::paths::joined_path(
            crate::paths::joined_path(path, "Contents/MacOS"@),
            crate::paths::stem_of(path)->0,
        ),
{
}

/// The app itself comes first among the arguments where its bundle holds it, and no
/// argument is lost.
pub proof fn payloads_come_first(app_bin: Seq<char>, args: Seq<Seq<char>>, launch_cwd: Seq<char>)
    ensures
        with_payload(app_bin, false, args) == args,
        payload_of(app_bin) matches Some(payload) ==> with_payload(app_bin, true, args) == seq![
            payload,
        ] + args,
        with_project(args, launch_cwd).len() >= args.len(),
        with_project(args, launch_cwd).take(args.len() as int) == args,
{
    assert(with_project(args, launch_cwd).take(args.len() as int) =~= args);
}

/// The processes that were found are those whose lines are numbers, in order.
pub proof fn processes_are_read_line_by_line(a: Seq<Seq<char>>, b: Seq<Seq<char>>, line: Seq<char>)
    ensures
        pids_of(a + b) == pids_of(a) + pids_of(b),
        pids_of(seq![line]) == (match crate::numbers::parsed_number(
            crate::lines::trimmed(line),
            u32::MAX as nat,
        ) {
            Some(pid) => seq![pid as u32],
            None => seq![],
        }),
    decreases b.len(),
{
    assert(seq![line].drop_last() =~= seq![]);
    assert(seq![line].last() == line);
    assert(pids_of(seq![]) =~= seq![]);
    match pid_of(line) {
        Some(pid) => {
            assert(Seq::<u32>::empty().push(pid as u32) =~= seq![pid as u32]);
        },
        None => {},
    }
    if b.len() == 0 {
        assert(a + b =~= a);
        assert(pids_of(a) + pids_of(b) =~= pids_of(a));
    } else {
        processes_are_read_line_by_line(a, b.drop_last(), line);
        assert((a + b).drop_last() =~= a + b.drop_last());
        assert((a + b).last() == b.last());
        assert(pids_of(a + b) =~= pids_of(a) + pids_of(b));
    }
}

/// A user is logged in if the login holds a token that is not empty.
pub proof fn logins_hold_a_token(text: Seq<char>, json: crate::json::JsonModel, tokens: crate::json::JsonModel, token: Seq<char>)
    requires
        crate::json::json_parsed(text) == Ok::<crate::json::JsonModel, Seq<char>>(json),
        json.member("tokens"@) == Some(tokens),
        tokens.member_text("access_token"@) == Some(token),
    ensures
        has_user_login(Some(text)) <==> token.len() > 0,
        !has_user_login(None),
{
}

/// Processes are named by their numbers, and both ways of looking for them count.
pub proof fn running_programs_are_named(pid: u32, first: Seq<u32>, second: Seq<u32>, all: Seq<u32>)
    ensures
        pids_shown(seq![]) == "pid unknown"@,
        pids_shown(seq![pid]) == "pid "@ + crate::numbers::decimal_of(pid as nat),
        merges(first, second, all) && first.contains(pid) ==> all.contains(pid),
        merges(first, second, all) && second.contains(pid) ==> all.contains(pid),
        merges(first, second, all) && all.contains(pid) ==> first.contains(pid) || second.contains(
            pid,
        ),
{
}

/// A project that was named is opened where it is, below the directory that the start
/// was made in unless it is absolute; without one that directory is.
pub proof fn projects_are_opened_where_they_are(
    args: Seq<Seq<char>>,
    path: Seq<char>,
    launch_cwd: Seq<char>,
)
    ensures
        open_project(args) is None ==> workspace_of(args, launch_cwd) == launch_cwd,
        open_project(args) == Some(path) && path.len() > 0 && path[0] == '/' ==> workspace_of(
            args,
            launch_cwd,
        ) == path,
        open_project(args) == Some(path) && path.len() > 0 && path[0] != '/' && launch_cwd.len() > 0
            && launch_cwd.last() != '/' ==> workspace_of(args, launch_cwd) == launch_cwd + seq!['/']
            + path,
{
    if open_project(args) == Some(path) && path.len() > 0 && path[0] != '/' && launch_cwd.len() > 0
        && launch_cwd.last() != '/' {
        assert(workspace_of(args, launch_cwd) =~= launch_cwd + seq!['/'] + path);
    }
}

/// A start through the proxy names the proxy as the program and what it stands for,
/// and leaves all other variables.
pub proof fn proxies_stand_for_the_program(
    envs: Map<Seq<char>, Seq<char>>,
    contents: Seq<char>,
    cx_exe: Seq<char>,
    name: Seq<char>,
)
    requires
        name != "CODEX_CLI_PATH"@,
        name != "CX_DESKTOP_CODEX_PROXY"@,
        name != "CX_DESKTOP_REAL_CODEX_CLI"@,
        name != "CODEX_APP_SERVER_FORCE_CLI"@,
    ensures
        ({
            let after = with_proxy(envs, contents, cx_exe);
            &&& after.dom().contains("CODEX_CLI_PATH"@) && after["CODEX_CLI_PATH"@] == cx_exe
            &&& after["CX_DESKTOP_CODEX_PROXY"@] == "1"@
            &&& after["CX_DESKTOP_REAL_CODEX_CLI"@] == crate::paths::joined_path(
                contents,
                "Resources/codex"@,
            )
            &&& after["CODEX_APP_SERVER_FORCE_CLI"@] == "1"@
            &&& after.dom().contains(name) == envs.dom().contains(name)
            &&& envs.dom().contains(name) ==> after[name] == envs[name]
        }),
{
    reveal_strlit("CODEX_CLI_PATH");
    reveal_strlit("CX_DESKTOP_CODEX_PROXY");
    reveal_strlit("CX_DESKTOP_REAL_CODEX_CLI");
    reveal_strlit("CODEX_APP_SERVER_FORCE_CLI");
    assert("CODEX_CLI_PATH"@.len() == 14);
    assert("CX_DESKTOP_CODEX_PROXY"@.len() == 22);
    assert("CX_DESKTOP_REAL_CODEX_CLI"@.len() == 25);
    assert("CODEX_APP_SERVER_FORCE_CLI"@.len() == 26);
}

/// A file of settings that is missing or holds nothing is one without settings.
pub proof fn missing_settings_are_none(text: Seq<char>)
    ensures
        file_config(None) == Ok::<crate::settings::TomlModel, Seq<char>>(
            crate::settings::TomlModel::Table(seq![]),
        ),
        crate::lines::trimmed(text).len() == 0 ==> file_config(Some(text)) == Ok::<
            crate::settings::TomlModel,
            Seq<char>,
        >(crate::settings::TomlModel::Table(seq![])),
        crate::lines::trimmed(text).len() > 0 ==> file_config(Some(text))
            == crate::settings::toml_parsed(text),
{
}

/// A program that runs already is named where a second start is refused.
pub proof fn refusals_name_what_runs(pids: Seq<u32>)
    ensures
        crate::text::has_prefix(
            running_text(pids),
            "ChatGPT Desktop is already running ("@ + pids_shown(pids) + "). Quit it "@,
        ),
{
    reveal_strlit("). Quit it ");
    reveal_strlit(
        "). Quit it before running `cx desktop`, or pass --allow-parallel to bypass this guard.",
    );
    let head = "ChatGPT Desktop is already running ("@ + pids_shown(pids) + "). Quit it "@;
    assert(running_text(pids).take(head.len() as int) =~= head);
}

} // verus!
