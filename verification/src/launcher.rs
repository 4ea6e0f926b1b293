//! The options of the launcher, with the `clap` crate as their reader.

use vstd::prelude::*;

use crate::text::concat2;
use crate::text::same;

verus! {

// ---------------------------------------------------------------------------
// What the launcher accepts
// ---------------------------------------------------------------------------

/// What an option takes.
#[derive(Clone, Copy, Debug, PartialEq, Eq, Structural)]
pub enum OptionKind {
    Text,
    Directory,
    File,
    Flag,
    /// Everything behind `--`.
    Rest,
}

/// An option of the launcher.
#[derive(Clone, Copy, Debug)]
pub struct LauncherOption {
    pub id: &'static str,
    pub long: Option<&'static str>,
    pub short: Option<char>,
    pub value_name: Option<&'static str>,
    pub help: &'static str,
    pub kind: OptionKind,
}

/// An option of the launcher, over mathematical values.
pub struct OptionModel {
    pub id: Seq<char>,
    pub long: Option<Seq<char>>,
    pub short: Option<char>,
    pub value_name: Option<Seq<char>>,
    pub help: Seq<char>,
    pub kind: OptionKind,
}

/// The text of an optional literal.
pub open spec fn opt_literal(item: Option<&'static str>) -> Option<Seq<char>> {
    match item {
        Some(text) => Some(text@),
        None => None,
    }
}

impl View for LauncherOption {
    type V = OptionModel;

    open spec fn view(&self) -> OptionModel {
        OptionModel {
            id: self.id@,
            long: opt_literal(self.long),
            short: self.short,
            value_name: opt_literal(self.value_name),
            help: self.help@,
            kind: self.kind,
        }
    }
}

/// The views of options.
pub open spec fn option_models(items: Seq<LauncherOption>) -> Seq<OptionModel> {
    items.map_values(|o: LauncherOption| o@)
}

/// The options of the launcher.
pub open spec fn launcher_table() -> Seq<OptionModel> {
    seq![
        OptionModel {
            id: "slot"@,
            long: Some("slot"@),
            short: Some('s'),
            value_name: Some("SLOT"@),
            help: "Use a specific slot"@,
            kind: OptionKind::Text,
        },
        OptionModel {
            id: "target"@,
            long: Some("target"@),
            short: None,
            value_name: Some("TARGET"@),
            help: "Use a target config"@,
            kind: OptionKind::Text,
        },
        OptionModel {
            id: "manager-dir"@,
            long: Some("manager-dir"@),
            short: None,
            value_name: Some("DIR"@),
            help: "Profile-manager directory"@,
            kind: OptionKind::Directory,
        },
        OptionModel {
            id: "codex-bin"@,
            long: Some("codex-bin"@),
            short: None,
            value_name: Some("FILE"@),
            help: "Path to the real Codex binary"@,
            kind: OptionKind::File,
        },
        OptionModel {
            id: "cx-quiet"@,
            long: Some("cx-quiet"@),
            short: None,
            value_name: None,
            help: "Suppress cx slot banner"@,
            kind: OptionKind::Flag,
        },
        OptionModel {
            id: "cx-debug"@,
            long: Some("cx-debug"@),
            short: None,
            value_name: None,
            help: "Print slot selection details"@,
            kind: OptionKind::Flag,
        },
        OptionModel {
            id: "codex-args"@,
            long: None,
            short: None,
            value_name: Some("CODEX_ARGS"@),
            help: "Arguments passed verbatim to Codex after `--`"@,
            kind: OptionKind::Rest,
        },
    ]
}

/// The options of the launcher.
pub fn launcher_options() -> (out: Vec<LauncherOption>)
    ensures
        option_models(out@) == launcher_table(),
{
    let mut out: Vec<LauncherOption> = Vec::new();
    out.push(
        LauncherOption {
            id: "slot",
            long: Some("slot"),
            short: Some('s'),
            value_name: Some("SLOT"),
            help: "Use a specific slot",
            kind: OptionKind::Text,
        },
    );
    out.push(
        LauncherOption {
            id: "target",
            long: Some("target"),
            short: None,
            value_name: Some("TARGET"),
            help: "Use a target config",
            kind: OptionKind::Text,
        },
    );
    out.push(
        LauncherOption {
            id: "manager-dir",
            long: Some("manager-dir"),
            short: None,
            value_name: Some("DIR"),
            help: "Profile-manager directory",
            kind: OptionKind::Directory,
        },
    );
    out.push(
        LauncherOption {
            id: "codex-bin",
            long: Some("codex-bin"),
            short: None,
            value_name: Some("FILE"),
            help: "Path to the real Codex binary",
            kind: OptionKind::File,
        },
    );
    out.push(
        LauncherOption {
            id: "cx-quiet",
            long: Some("cx-quiet"),
            short: None,
            value_name: None,
            help: "Suppress cx slot banner",
            kind: OptionKind::Flag,
        },
    );
    out.push(
        LauncherOption {
            id: "cx-debug",
            long: Some("cx-debug"),
            short: None,
            value_name: None,
            help: "Print slot selection details",
            kind: OptionKind::Flag,
        },
    );
    out.push(
        LauncherOption {
            id: "codex-args",
            long: None,
            short: None,
            value_name: Some("CODEX_ARGS"),
            help: "Arguments passed verbatim to Codex after `--`",
            kind: OptionKind::Rest,
        },
    );
    proof {
        assert(option_models(out@) =~= launcher_table());
    }
    out
}

/// The launcher as a command: its words of help and its options.
pub struct CommandModel {
    pub name: Seq<char>,
    pub about: Seq<char>,
    pub usage: Seq<char>,
    pub after_help: Seq<char>,
    pub options: Seq<OptionModel>,
}

/// The launcher.
pub open spec fn launcher_model() -> CommandModel {
    CommandModel {
        name: "cx"@,
        about: "Launch Codex through a local cx slot"@,
        usage: "cx [CX_OPTIONS] [-- CODEX_ARGS]..."@,
        after_help:
            "Codex arguments must follow `--`. Example:\n  echo prompt | cx -- summarize this"@,
        options: launcher_table(),
    }
}

// ---------------------------------------------------------------------------
// Reading options
// ---------------------------------------------------------------------------

/// An option that was given, with its values.
#[derive(Debug)]
pub struct GivenOption {
    pub id: String,
    pub values: Vec<String>,
}

/// An option that was given, over mathematical values.
pub struct GivenModel {
    pub id: Seq<char>,
    pub values: Seq<Seq<char>>,
}

impl View for GivenOption {
    type V = GivenModel;

    open spec fn view(&self) -> GivenModel {
        GivenModel { id: self.id@, values: crate::text::texts(self.values@) }
    }
}

/// The views of options that were given.
pub open spec fn given_models(items: Seq<GivenOption>) -> Seq<GivenModel> {
    items.map_values(|o: GivenOption| o@)
}

/// An option of the `clap` crate.
#[verifier::external_type_specification]
#[verifier::external_body]
pub struct ExArg(clap::Arg);

/// What an option of the `clap` crate was built from.
pub uninterp spec fn arg_model(arg: clap::Arg) -> OptionModel;

/// What `clap` makes of `words` for a command: the options that were given with
/// their values, or the text that it answers with, after a flag that says whether
/// help was asked for.
pub uninterp spec fn clap_outcome(command: CommandModel, words: Seq<Seq<char>>) -> Result<
    Seq<GivenModel>,
    (bool, Seq<char>),
>;

/// What options of the `clap` crate were built from.
pub open spec fn arg_models(args: Seq<clap::Arg>) -> Seq<OptionModel> {
    args.map_values(|a: clap::Arg| arg_model(a))
}

/// `clap::Arg::new` with the setters of `clap::Arg`: one for each part of `option`.
/// `clap::Arg::short` panics on a hyphen, and `clap::Arg::long` drops the hyphens in
/// front of a name; no option of the launcher has either.
#[verifier::external_body]
fn option_arg(option: LauncherOption) -> (out: clap::Arg)
    requires
        option.short != Some('-'),
        launcher_table().contains(option@),
    ensures
        arg_model(out) == option@,
{
    let arg = clap::Arg::new(option.id).long(option.long).short(option.short).value_name(
        option.value_name,
    ).help(option.help);
    let paths = clap::builder::PathBufValueParser::new();
    let any = clap::builder::OsStringValueParser::new();
    match option.kind {
        OptionKind::Text => arg,
        OptionKind::Directory => arg.value_parser(paths).value_hint(clap::ValueHint::DirPath),
        OptionKind::File => arg.value_parser(paths).value_hint(clap::ValueHint::FilePath),
        OptionKind::Flag => arg.action(clap::ArgAction::SetTrue),
        OptionKind::Rest => arg.value_parser(any).num_args(0..).allow_hyphen_values(true).last(true),
    }
}

/// Why words were not accepted.
#[derive(Debug)]
pub enum LauncherRefusal {
    /// Help was asked for.
    Help(String),
    Error(String),
}

/// `clap::Command::try_get_matches_from` for the command that the arguments
/// describe: reads `words`, the first of which is the name of the program. On
/// success the options come with their values, by `clap::ArgMatches::ids` and
/// `try_get_raw`; else the kind of the error says whether help was asked for. What
/// `clap` reads and says is not stated further.
#[verifier::external_body]
fn read_words(
    name: &'static str,
    about: &'static str,
    usage: &'static str,
    after_help: &'static str,
    args: Vec<clap::Arg>,
    words: Vec<String>,
) -> (out: Result<Vec<GivenOption>, LauncherRefusal>)
    requires
        arg_models(args@) == launcher_table(),
    ensures
        ({
            let command = CommandModel {
                name: name@,
                about: about@,
                usage: usage@,
                after_help: after_help@,
                options: arg_models(args@),
            };
            let outcome = clap_outcome(command, crate::text::texts(words@));
            match out {
                Ok(given) => outcome == Ok::<Seq<GivenModel>, (bool, Seq<char>)>(
                    given_models(given@),
                ),
                Err(LauncherRefusal::Help(text)) => outcome == Err::<
                    Seq<GivenModel>,
                    (bool, Seq<char>),
                >((true, text@)),
                Err(LauncherRefusal::Error(text)) => outcome == Err::<
                    Seq<GivenModel>,
                    (bool, Seq<char>),
                >((false, text@)),
            }
        }),
{
    let command = clap::Command::new(name).about(about).override_usage(usage);
    match command.after_help(after_help).args(args).try_get_matches_from(words) {
        Ok(matches) => Ok(matches.ids().map(|id| {
            let raw = matches.try_get_raw(id.as_str()).ok().flatten().into_iter().flatten();
            let values = raw.map(|value| value.to_string_lossy().into_owned()).collect();
            GivenOption { id: id.to_string(), values }
        }).collect()),
        Err(error) => match error.kind() {
            clap::error::ErrorKind::DisplayHelp => Err(LauncherRefusal::Help(error.to_string())),
            _ => Err(LauncherRefusal::Error(error.to_string())),
        },
    }
}

fn launcher_args() -> (out: Vec<clap::Arg>)
    ensures
        arg_models(out@) == launcher_table(),
{
    let options = launcher_options();
    let mut out: Vec<clap::Arg> = Vec::new();
    let mut i: usize = 0;
    while i < options.len()
        invariant
            i <= options.len(),
            out@.len() == i,
            option_models(options@) == launcher_table(),
            forall|j: int| 0 <= j < i ==> arg_model(#[trigger] out@[j]) == options@[j]@,
        decreases options.len() - i,
    {
        proof {
            assert(options@[i as int]@ == option_models(options@)[i as int]);
            assert(launcher_table()[i as int] == options@[i as int]@);
            assert(launcher_table().len() == 7);
            assert(launcher_table()[i as int].short != Some('-'));
        }
        out.push(option_arg(options[i]));
        i += 1;
    }
    proof {
        assert(arg_models(out@) =~= option_models(options@));
    }
    out
}

/// What a run was asked for.
#[derive(Debug)]
pub struct RunOptions {
    pub slot: Option<String>,
    pub target: Option<String>,
    pub manager_dir: Option<String>,
    pub codex_bin: Option<String>,
    pub quiet: bool,
    pub debug: bool,
    pub codex_args: Vec<String>,
}

/// What a run was asked for, over mathematical values.
pub struct RunModel {
    pub slot: Option<Seq<char>>,
    pub target: Option<Seq<char>>,
    pub manager_dir: Option<Seq<char>>,
    pub codex_bin: Option<Seq<char>>,
    pub quiet: bool,
    pub debug: bool,
    pub codex_args: Seq<Seq<char>>,
}

impl View for RunOptions {
    type V = RunModel;

    open spec fn view(&self) -> RunModel {
        RunModel {
            slot: crate::text::opt_text(self.slot),
            target: crate::text::opt_text(self.target),
            manager_dir: crate::text::opt_text(self.manager_dir),
            codex_bin: crate::text::opt_text(self.codex_bin),
            quiet: self.quiet,
            debug: self.debug,
            codex_args: crate::text::texts(self.codex_args@),
        }
    }
}

/// The values of an option, none where it was not given.
pub open spec fn values_of(given: Seq<GivenModel>, id: Seq<char>) -> Seq<Seq<char>>
    decreases given.len(),
{
    if given.len() == 0 {
        seq![]
    } else if given[0].id == id {
        given[0].values
    } else {
        values_of(given.skip(1), id)
    }
}

/// The first value of an option.
pub open spec fn value_of(given: Seq<GivenModel>, id: Seq<char>) -> Option<Seq<char>> {
    if values_of(given, id).len() == 0 {
        None
    } else {
        Some(values_of(given, id)[0])
    }
}

fn find_values(given: &Vec<GivenOption>, id: &str) -> (out: Vec<String>)
    ensures
        crate::text::texts(out@) == values_of(given_models(given@), id@),
{
    let ghost all = given_models(given@);
    let mut i: usize = 0;
    proof {
        assert(all.skip(0) =~= all);
    }
    while i < given.len()
        invariant
            i <= given.len(),
            all == given_models(given@),
            values_of(all, id@) == values_of(all.skip(i as int), id@),
        decreases given.len() - i,
    {
        proof {
            assert(all.skip(i as int)[0] == given@[i as int]@);
            assert(all.skip(i as int).skip(1) =~= all.skip(i + 1));
        }
        if same(given[i].id.as_str(), id) {
            return crate::text::copy_all(&given[i].values);
        }
        i += 1;
    }
    let out: Vec<String> = Vec::new();
    proof {
        assert(crate::text::texts(out@) =~= seq![]);
    }
    out
}

fn find_value(given: &Vec<GivenOption>, id: &str) -> (out: Option<String>)
    ensures
        crate::text::opt_text(out) == value_of(given_models(given@), id@),
{
    let values = find_values(given, id);
    proof {
        assert(crate::text::texts(values@).len() == values@.len());
    }
    if values.len() == 0 {
        None
    } else {
        Some(values[0].clone())
    }
}

fn find_flag(given: &Vec<GivenOption>, id: &str) -> (out: bool)
    ensures
        out == (value_of(given_models(given@), id@) == Some("true"@)),
{
    match find_value(given, id) {
        Some(value) => same(value.as_str(), "true"),
        None => false,
    }
}

/// What a run was asked for, by the options that were given.
pub open spec fn options_of(given: Seq<GivenModel>) -> RunModel {
    RunModel {
        slot: value_of(given, "slot"@),
        target: value_of(given, "target"@),
        manager_dir: value_of(given, "manager-dir"@),
        codex_bin: value_of(given, "codex-bin"@),
        quiet: value_of(given, "cx-quiet"@) == Some("true"@),
        debug: value_of(given, "cx-debug"@) == Some("true"@),
        codex_args: values_of(given, "codex-args"@),
    }
}

/// What a run was asked for, by the options that were given.
pub fn options_from(given: &Vec<GivenOption>) -> (out: RunOptions)
    ensures
        out@ == options_of(given_models(given@)),
{
    RunOptions {
        slot: find_value(given, "slot"),
        target: find_value(given, "target"),
        manager_dir: find_value(given, "manager-dir"),
        codex_bin: find_value(given, "codex-bin"),
        quiet: find_flag(given, "cx-quiet"),
        debug: find_flag(given, "cx-debug"),
        codex_args: find_values(given, "codex-args"),
    }
}

/// What is said to words that are not accepted.
pub open spec fn separator_hint() -> Seq<char> {
    "\nCodex arguments now require `--`; for example: `cx -- summarize this`."@
}

/// `words` behind the name of the program.
pub open spec fn program_words(words: Seq<Seq<char>>) -> Seq<Seq<char>> {
    seq!["cx"@] + words
}

/// What the launcher makes of `words`.
pub open spec fn launcher_outcome(words: Seq<Seq<char>>) -> Result<
    Seq<GivenModel>,
    (bool, Seq<char>),
> {
    clap_outcome(launcher_model(), program_words(words))
}

/// Reads the options of a run.
pub fn parse_run_args(words: &Vec<String>) -> (out: Result<RunOptions, LauncherRefusal>)
    ensures
        match (launcher_outcome(crate::text::texts(words@)), out) {
            (Ok(given), Ok(options)) => options@ == options_of(given),
            (Err((true, said)), Err(LauncherRefusal::Help(text))) => text@ == said,
            (Err((false, said)), Err(LauncherRefusal::Error(text))) => text@ == said
                + separator_hint(),
            _ => false,
        },
{
    let mut all: Vec<String> = Vec::new();
    all.push(String::from_str("cx"));
    proof {
        assert(crate::text::texts(all@) =~= seq!["cx"@]);
    }
    crate::text::extend(&mut all, crate::text::copy_all(words));
    let read = read_words(
        "cx",
        "Launch Codex through a local cx slot",
        "cx [CX_OPTIONS] [-- CODEX_ARGS]...",
        "Codex arguments must follow `--`. Example:\n  echo prompt | cx -- summarize this",
        launcher_args(),
        all,
    );
    match read {
        Ok(given) => Ok(options_from(&given)),
        Err(LauncherRefusal::Help(text)) => Err(LauncherRefusal::Help(text)),
        Err(LauncherRefusal::Error(text)) => Err(
            LauncherRefusal::Error(
                concat2(
                    text.as_str(),
                    "\nCodex arguments now require `--`; for example: `cx -- summarize this`.",
                ),
            ),
        ),
    }
}

// ---------------------------------------------------------------------------
// Arguments for Codex
// ---------------------------------------------------------------------------

/// The words before the first `--`.
pub open spec fn before_separator(words: Seq<Seq<char>>) -> Seq<Seq<char>>
    decreases words.len(),
{
    if words.len() == 0 || words[0] == "--"@ {
        seq![]
    } else {
        seq![words[0]] + before_separator(words.skip(1))
    }
}

/// The words before the first `--`.
pub fn launcher_words(words: &Vec<String>) -> (out: Vec<String>)
    ensures
        crate::text::texts(out@) == before_separator(crate::text::texts(words@)),
{
    let ghost all = crate::text::texts(words@);
    let mut out: Vec<String> = Vec::new();
    let mut i: usize = 0;
    proof {
        assert(all.skip(0) =~= all);
        assert(crate::text::texts(out@) + before_separator(all) =~= before_separator(all));
    }
    while i < words.len() && !same(words[i].as_str(), "--")
        invariant
            i <= words.len(),
            all == crate::text::texts(words@),
            crate::text::texts(out@) + before_separator(all.skip(i as int)) == before_separator(
                all,
            ),
        decreases words.len() - i,
    {
        let ghost before = crate::text::texts(out@);
        crate::text::push_text(&mut out, words[i].clone());
        proof {
            let rest = all.skip(i as int);
            assert(rest[0] == words@[i as int]@);
            assert(rest.skip(1) =~= all.skip(i + 1));
            assert(before + (seq![rest[0]] + before_separator(rest.skip(1)))
                =~= crate::text::texts(out@) + before_separator(all.skip(i + 1)));
        }
        i += 1;
    }
    proof {
        let rest = all.skip(i as int);
        if i < words@.len() {
            assert(rest[0] == words@[i as int]@);
        }
        assert(before_separator(rest) =~= seq![]);
        assert(crate::text::texts(out@) + before_separator(rest) =~= crate::text::texts(out@));
    }
    out
}

/// The words of a run, apart by their readers.
#[derive(Debug)]
pub struct LauncherArgsSplit {
    pub cx_args: Vec<String>,
    pub codex_args: Vec<String>,
}

/// Parts the words of a run: those before `--`, and those that are passed to Codex.
pub fn split_launcher_args(words: &Vec<String>) -> (out: Result<LauncherArgsSplit, LauncherRefusal>)
    ensures
        match (launcher_outcome(crate::text::texts(words@)), out) {
            (Ok(given), Ok(split)) => crate::text::texts(split.cx_args@) == before_separator(
                crate::text::texts(words@),
            ) && crate::text::texts(split.codex_args@) == options_of(given).codex_args,
            (Err((true, said)), Err(LauncherRefusal::Help(text))) => text@ == said,
            (Err((false, said)), Err(LauncherRefusal::Error(text))) => text@ == said
                + separator_hint(),
            _ => false,
        },
{
    match parse_run_args(words) {
        Ok(options) => Ok(
            LauncherArgsSplit { cx_args: launcher_words(words), codex_args: options.codex_args },
        ),
        Err(refusal) => Err(refusal),
    }
}

/// Whether an option of the launcher is followed by its value.
pub open spec fn takes_next(word: Seq<char>) -> bool {
    word == "--slot"@ || word == "--target"@ || word == "--manager-dir"@ || word == "--codex-bin"@
        || word == "-s"@
}

/// The first word that is not an option, and neither the value of one of the
/// launcher's options.
pub open spec fn first_plain_word(words: Seq<Seq<char>>) -> Option<Seq<char>>
    decreases words.len(),
{
    if words.len() == 0 {
        None
    } else if words[0] == "--"@ {
        if words.len() > 1 {
            Some(words[1])
        } else {
            None
        }
    } else if takes_next(words[0]) {
        if words.len() > 1 {
            first_plain_word(words.skip(2))
        } else {
            None
        }
    } else if words[0].len() > 0 && words[0][0] == '-' {
        first_plain_word(words.skip(1))
    } else {
        Some(words[0])
    }
}

/// The first word that is not an option.
pub fn first_forwarded_non_option(words: &Vec<String>) -> (out: Option<String>)
    ensures
        crate::text::opt_text(out) == first_plain_word(crate::text::texts(words@)),
{
    let ghost all = crate::text::texts(words@);
    let mut i: usize = 0;
    proof {
        assert(all.skip(0) =~= all);
    }
    while i < words.len()
        invariant
            i <= words.len(),
            all == crate::text::texts(words@),
            first_plain_word(all) == first_plain_word(all.skip(i as int)),
        decreases words.len() - i,
    {
        let word = words[i].as_str();
        let ghost rest = all.skip(i as int);
        proof {
            assert(rest[0] == words@[i as int]@);
            assert(rest.skip(1) =~= all.skip(i + 1));
            if i + 1 < words@.len() {
                assert(rest[1] == words@[i + 1]@);
                assert(rest.skip(2) =~= all.skip(i + 2));
            }
        }
        if same(word, "--") {
            return if i + 1 < words.len() {
                Some(words[i + 1].clone())
            } else {
                None
            };
        }
        if same(word, "--slot") || same(word, "--target") || same(word, "--manager-dir") || same(
            word,
            "--codex-bin",
        ) || same(word, "-s") {
            if i + 1 >= words.len() {
                return None;
            }
            i += 2;
        } else {
            let chars = crate::text::chars_of(word);
            if chars.len() > 0 && chars[0] == '-' {
                i += 1;
            } else {
                return Some(words[i].clone());
            }
        }
    }
    None
}

/// Whether a command of Codex needs no slot.
pub open spec fn needs_no_slot(command: Seq<char>) -> bool {
    ||| command == "login"@
    ||| command == "logout"@
    ||| command == "completion"@
    ||| command == "plugin"@
    ||| command == "mcp"@
    ||| command == "app"@
    ||| command == "app-server"@
    ||| command == "remote-control"@
    ||| command == "review"@
    ||| command == "update"@
    ||| command == "doctor"@
    ||| command == "sandbox"@
    ||| command == "debug"@
    ||| command == "apply"@
    ||| command == "features"@
    ||| command == "mcp-server"@
    ||| command == "execpolicy"@
    ||| command == "cloud"@
    ||| command == "cloud-tasks"@
    ||| command == "stdio-to-uds"@
    ||| command == "exec-server"@
    ||| command == "help"@
}

/// Whether a command of Codex needs no slot.
pub fn is_bypass_subcommand(command: &str) -> (out: bool)
    ensures
        out == needs_no_slot(command@),
{
    same(command, "login") || same(command, "logout") || same(command, "completion") || same(
        command,
        "plugin",
    ) || same(command, "mcp") || same(command, "app") || same(command, "app-server") || same(
        command,
        "remote-control",
    ) || same(command, "review") || same(command, "update") || same(command, "doctor") || same(
        command,
        "sandbox",
    ) || same(command, "debug") || same(command, "apply") || same(command, "features") || same(
        command,
        "mcp-server",
    ) || same(command, "execpolicy") || same(command, "cloud") || same(command, "cloud-tasks")
        || same(command, "stdio-to-uds") || same(command, "exec-server") || same(command, "help")
}

/// Whether the arguments for Codex name a command that needs no slot.
pub open spec fn runs_without_slot(args: Seq<Seq<char>>) -> bool {
    first_plain_word(args) matches Some(word) && needs_no_slot(word)
}

fn names_bypass(args: &Vec<String>) -> (out: bool)
    ensures
        out == runs_without_slot(crate::text::texts(args@)),
{
    match first_forwarded_non_option(args) {
        Some(word) => is_bypass_subcommand(word.as_str()),
        None => false,
    }
}

/// Whether the arguments for Codex only ask for its version.
pub open spec fn asks_version(args: Seq<Seq<char>>) -> bool {
    first_plain_word(args) is None && (args.contains("-V"@) || args.contains("--version"@))
}

fn holds(words: &Vec<String>, word: &str) -> (out: bool)
    ensures
        out == crate::text::texts(words@).contains(word@),
{
    let ghost all = crate::text::texts(words@);
    let mut i: usize = 0;
    while i < words.len()
        invariant
            i <= words.len(),
            all == crate::text::texts(words@),
            forall|j: int| 0 <= j < i ==> #[trigger] all[j] != word@,
        decreases words.len() - i,
    {
        if same(words[i].as_str(), word) {
            proof {
                assert(all[i as int] == word@);
            }
            return true;
        }
        i += 1;
    }
    false
}

/// Whether standard input is left to Codex, by its arguments.
pub fn leaves_stdin(codex_args: &Vec<String>) -> (out: bool)
    ensures
        out == (asks_version(crate::text::texts(codex_args@)) || runs_without_slot(
            crate::text::texts(codex_args@),
        )),
{
    let plain = first_forwarded_non_option(codex_args);
    if plain.is_none() && (holds(codex_args, "-V") || holds(codex_args, "--version")) {
        return true;
    }
    names_bypass(codex_args)
}

/// Whether standard input is left to Codex, by the words of a run.
pub fn should_skip_stdin_wrapper(words: &Vec<String>) -> (out: bool)
    ensures
        out == (match launcher_outcome(crate::text::texts(words@)) {
            Err(_) => true,
            Ok(given) => asks_version(options_of(given).codex_args) || runs_without_slot(
                options_of(given).codex_args,
            ),
        }),
{
    match parse_run_args(words) {
        Err(_) => true,
        Ok(options) => leaves_stdin(&options.codex_args),
    }
}

/// How a run starts.
#[derive(Clone, Copy, Debug, PartialEq, Eq, Structural)]
pub enum LaunchMode {
    /// Codex itself, without a slot.
    Direct,
    /// With the slot that was asked for.
    Asked,
    /// With the slot that has most left.
    Choose,
    /// In the base home, since there are no slots.
    Default,
}

/// Whether Codex is started without a slot: no slot and no target is asked for,
/// and either a home is already set or the command needs no slot.
pub open spec fn is_direct(options: RunModel, home_is_set: bool) -> bool {
    options.slot is None && options.target is None && (home_is_set || runs_without_slot(
        options.codex_args,
    ))
}

/// How a run starts, where there are `candidates` slots.
pub open spec fn launch_mode_of(options: RunModel, home_is_set: bool, candidates: nat) -> LaunchMode {
    if is_direct(options, home_is_set) {
        LaunchMode::Direct
    } else if options.slot is Some {
        LaunchMode::Asked
    } else if candidates == 0 {
        LaunchMode::Default
    } else {
        LaunchMode::Choose
    }
}

/// Whether Codex is started without a slot.
pub fn launches_directly(options: &RunOptions, home_is_set: bool) -> (out: bool)
    ensures
        out == is_direct(options@, home_is_set),
{
    options.slot.is_none() && options.target.is_none() && (home_is_set || names_bypass(
        &options.codex_args,
    ))
}

/// How a run starts.
pub fn launch_mode(options: &RunOptions, home_is_set: bool, candidates: usize) -> (out: LaunchMode)
    ensures
        out == launch_mode_of(options@, home_is_set, candidates as nat),
{
    if launches_directly(options, home_is_set) {
        LaunchMode::Direct
    } else if options.slot.is_some() {
        LaunchMode::Asked
    } else if candidates == 0 {
        LaunchMode::Default
    } else {
        LaunchMode::Choose
    }
}

/// A run that asks for a slot or a target never starts without one.
pub proof fn asked_slots_are_used(options: RunModel, home_is_set: bool, candidates: nat)
    requires
        options.slot is Some || options.target is Some,
    ensures
        !(launch_mode_of(options, home_is_set, candidates) is Direct),
        options.slot is Some ==> launch_mode_of(options, home_is_set, candidates) is Asked,
{
}

proof fn lemma_values(given: Seq<GivenModel>, id: Seq<char>, k: int)
    ensures
        0 <= k < given.len() && given[k].id == id && (forall|j: int|
            0 <= j < k ==> (#[trigger] given[j]).id != id) ==> values_of(given, id)
            == given[k].values,
        (forall|j: int| 0 <= j < given.len() ==> (#[trigger] given[j]).id != id) ==> values_of(
            given,
            id,
        ).len() == 0,
    decreases given.len(),
{
    if given.len() > 0 {
        let rest = given.skip(1);
        lemma_values(rest, id, k - 1);
        assert forall|j: int| 0 <= j < rest.len() implies rest[j] == given[j + 1] by {}
        if 0 < k < given.len() && given[k].id == id && (forall|j: int|
            0 <= j < k ==> (#[trigger] given[j]).id != id) {
            assert(given[0].id != id);
            assert(rest[k - 1] == given[k]);
            assert forall|j: int| 0 <= j < k - 1 implies (#[trigger] rest[j]).id != id by {
                assert(rest[j] == given[j + 1]);
            }
        }
        if forall|j: int| 0 <= j < given.len() ==> (#[trigger] given[j]).id != id {
            assert(given[0].id != id);
            assert forall|j: int| 0 <= j < rest.len() implies (#[trigger] rest[j]).id != id by {
                assert(rest[j] == given[j + 1]);
            }
        }
    }
}

/// Whether the option `id` was given, first at `k`.
pub open spec fn is_given_at(given: Seq<GivenModel>, id: Seq<char>, k: int) -> bool {
    &&& 0 <= k < given.len()
    &&& given[k].id == id
    &&& given[k].values.len() > 0
    &&& forall|j: int| 0 <= j < k ==> (#[trigger] given[j]).id != id
}

/// Whether the option `id` was not given.
pub open spec fn is_not_given(given: Seq<GivenModel>, id: Seq<char>) -> bool {
    forall|j: int| 0 <= j < given.len() ==> (#[trigger] given[j]).id != id
}

/// Every option of a launch has the value that was given for it, and no other; the words
/// behind the dashes go to Codex, all of them.
pub proof fn options_have_their_values(given: Seq<GivenModel>, k: int)
    ensures
        is_given_at(given, "slot"@, k) ==> options_of(given).slot == Some(given[k].values[0]),
        is_not_given(given, "slot"@) ==> options_of(given).slot is None,
        is_given_at(given, "target"@, k) ==> options_of(given).target == Some(given[k].values[0]),
        is_not_given(given, "target"@) ==> options_of(given).target is None,
        is_given_at(given, "manager-dir"@, k) ==> options_of(given).manager_dir == Some(
            given[k].values[0],
        ),
        is_not_given(given, "manager-dir"@) ==> options_of(given).manager_dir is None,
        is_given_at(given, "codex-bin"@, k) ==> options_of(given).codex_bin == Some(
            given[k].values[0],
        ),
        is_not_given(given, "codex-bin"@) ==> options_of(given).codex_bin is None,
        is_given_at(given, "cx-quiet"@, k) ==> options_of(given).quiet == (given[k].values[0]
            == "true"@),
        is_not_given(given, "cx-quiet"@) ==> !options_of(given).quiet,
        is_given_at(given, "cx-debug"@, k) ==> options_of(given).debug == (given[k].values[0]
            == "true"@),
        is_not_given(given, "cx-debug"@) ==> !options_of(given).debug,
        is_given_at(given, "codex-args"@, k) ==> options_of(given).codex_args == given[k].values,
        is_not_given(given, "codex-args"@) ==> options_of(given).codex_args.len() == 0,
{
    lemma_values(given, "slot"@, k);
    lemma_values(given, "target"@, k);
    lemma_values(given, "manager-dir"@, k);
    lemma_values(given, "codex-bin"@, k);
    lemma_values(given, "cx-quiet"@, k);
    lemma_values(given, "cx-debug"@, k);
    lemma_values(given, "codex-args"@, k);
}

/// The words of the launcher are those before the first two dashes, in order.
pub proof fn words_stop_at_the_dashes(words: Seq<Seq<char>>, k: int)
    requires
        0 <= k <= words.len(),
        forall|j: int| 0 <= j < k ==> #[trigger] words[j] != "--"@,
        k < words.len() ==> words[k] == "--"@,
    ensures
        before_separator(words) == words.take(k),
    decreases k,
{
    if k == 0 {
        assert(words.take(0) =~= seq![]);
    } else {
        let rest = words.skip(1);
        assert(words[0] != "--"@);
        assert forall|j: int| 0 <= j < k - 1 implies #[trigger] rest[j] != "--"@ by {
            assert(rest[j] == words[j + 1]);
        }
        if k < words.len() {
            assert(rest[k - 1] == words[k]);
        }
        words_stop_at_the_dashes(rest, k - 1);
        assert(seq![words[0]] + rest.take(k - 1) =~= words.take(k));
    }
}

/// The command that is meant for Codex is the first word that is no option: options with
/// a value are passed over with it, others alone, and behind two dashes every word is
/// one.
pub proof fn commands_follow_options(word: Seq<char>, value: Seq<char>, rest: Seq<Seq<char>>)
    ensures
        word.len() == 0 || word[0] != '-' ==> first_plain_word(seq![word] + rest) == Some(word),
        first_plain_word(seq!["--"@, word] + rest) == Some(word),
        first_plain_word(seq!["--slot"@, value] + rest) == first_plain_word(rest),
        first_plain_word(seq!["-s"@, value] + rest) == first_plain_word(rest),
        first_plain_word(seq!["--target"@, value] + rest) == first_plain_word(rest),
        first_plain_word(seq!["--manager-dir"@, value] + rest) == first_plain_word(rest),
        first_plain_word(seq!["--codex-bin"@, value] + rest) == first_plain_word(rest),
        word.len() > 0 && word[0] == '-' && word != "--"@ && word != "--slot"@ && word != "-s"@
            && word != "--target"@ && word != "--manager-dir"@ && word != "--codex-bin"@
            ==> first_plain_word(seq![word] + rest) == first_plain_word(rest),
        first_plain_word(seq![]) is None,
{
    reveal_strlit("--");
    reveal_strlit("--slot");
    reveal_strlit("-s");
    reveal_strlit("--target");
    reveal_strlit("--manager-dir");
    reveal_strlit("--codex-bin");
    assert("--"@.len() == 2 && "--"@[0] == '-' && "--"@[1] == '-');
    assert("--slot"@.len() == 6 && "--slot"@[0] == '-');
    assert("-s"@.len() == 2 && "-s"@[0] == '-' && "-s"@[1] == 's');
    assert("--target"@.len() == 8 && "--target"@[0] == '-');
    assert("--manager-dir"@.len() == 13 && "--manager-dir"@[0] == '-');
    assert("--codex-bin"@.len() == 11 && "--codex-bin"@[0] == '-');
    assert((seq![word] + rest).skip(1) =~= rest);
    assert((seq![word] + rest)[0] == word);
    assert((seq!["--"@, word] + rest)[0] == "--"@ && (seq!["--"@, word] + rest)[1] == word);
    assert((seq!["--slot"@, value] + rest)[0] == "--slot"@);
    assert((seq!["--slot"@, value] + rest).skip(2) =~= rest);
    assert((seq!["-s"@, value] + rest)[0] == "-s"@);
    assert((seq!["-s"@, value] + rest).skip(2) =~= rest);
    assert((seq!["--target"@, value] + rest)[0] == "--target"@);
    assert((seq!["--target"@, value] + rest).skip(2) =~= rest);
    assert((seq!["--manager-dir"@, value] + rest)[0] == "--manager-dir"@);
    assert((seq!["--manager-dir"@, value] + rest).skip(2) =~= rest);
    assert((seq!["--codex-bin"@, value] + rest)[0] == "--codex-bin"@);
    assert((seq!["--codex-bin"@, value] + rest).skip(2) =~= rest);
}

/// Codex is started without a slot if neither slot nor target is asked for, and either a
/// home is set or the command needs no slot. Otherwise a slot that is asked for is used;
/// else the best candidate is chosen, and where there is none the base home is used.
pub proof fn launches_choose_their_slot(options: RunModel, home_is_set: bool, candidates: nat)
    ensures
        ({
            let plain = first_plain_word(options.codex_args);
            let direct = options.slot is None && options.target is None && (home_is_set || (
            plain matches Some(word) && needs_no_slot(word)));
            let mode = launch_mode_of(options, home_is_set, candidates);
            &&& mode is Direct <==> direct
            &&& mode is Asked <==> !direct && options.slot is Some
            &&& mode is Choose <==> !direct && options.slot is None && candidates > 0
            &&& mode is Default <==> !direct && options.slot is None && candidates == 0
        }),
{
}

/// A question for the version is one that names no command.
pub proof fn versions_are_asked_without_a_command(args: Seq<Seq<char>>)
    ensures
        asks_version(args) ==> first_plain_word(args) is None,
        first_plain_word(args) is None && args.contains("--version"@) ==> asks_version(args),
        first_plain_word(args) is None && args.contains("-V"@) ==> asks_version(args),
        !args.contains("--version"@) && !args.contains("-V"@) ==> !asks_version(args),
{
}

/// Codex starts without a slot only where none was asked for, and a home is set or what
/// is run needs none.
pub proof fn slots_are_left_out_where_not_needed(options: RunModel, home_is_set: bool)
    ensures
        options.slot is Some || options.target is Some ==> !is_direct(options, home_is_set),
        options.slot is None && options.target is None && home_is_set ==> is_direct(
            options,
            home_is_set,
        ),
        options.slot is None && options.target is None && !home_is_set ==> is_direct(
            options,
            home_is_set,
        ) == (first_plain_word(options.codex_args) is Some && needs_no_slot(
            first_plain_word(options.codex_args)->0,
        )),
{
}

/// The values of an option are those that were given under its name.
pub proof fn values_are_found_by_name(given: GivenModel, rest: Seq<GivenModel>, id: Seq<char>)
    ensures
        given.id == id ==> values_of(seq![given] + rest, id) == given.values,
        given.id != id ==> values_of(seq![given] + rest, id) == values_of(rest, id),
        values_of(seq![], id).len() == 0,
{
    assert((seq![given] + rest).skip(1) =~= rest);
}

/// The commands that need no slot are known by their names.
pub proof fn commands_without_a_slot_are_known(word: Seq<char>)
    ensures
        needs_no_slot(word) <==> seq![
            "login"@,
            "logout"@,
            "completion"@,
            "plugin"@,
            "mcp"@,
            "app"@,
            "app-server"@,
            "remote-control"@,
            "review"@,
            "update"@,
            "doctor"@,
            "sandbox"@,
            "debug"@,
            "apply"@,
            "features"@,
            "mcp-server"@,
            "execpolicy"@,
            "cloud"@,
            "cloud-tasks"@,
            "stdio-to-uds"@,
            "exec-server"@,
            "help"@,
        ].contains(word),
{
    let names = seq![
        "login"@,
        "logout"@,
        "completion"@,
        "plugin"@,
        "mcp"@,
        "app"@,
        "app-server"@,
        "remote-control"@,
        "review"@,
        "update"@,
        "doctor"@,
        "sandbox"@,
        "debug"@,
        "apply"@,
        "features"@,
        "mcp-server"@,
        "execpolicy"@,
        "cloud"@,
        "cloud-tasks"@,
        "stdio-to-uds"@,
        "exec-server"@,
        "help"@,
    ];
    assert(names[0] == "login"@ && names[1] == "logout"@ && names[2] == "completion"@ && names[3]
        == "plugin"@);
    assert(names[4] == "mcp"@ && names[5] == "app"@ && names[6] == "app-server"@ && names[7]
        == "remote-control"@);
    assert(names[8] == "review"@ && names[9] == "update"@ && names[10] == "doctor"@ && names[11]
        == "sandbox"@);
    assert(names[12] == "debug"@ && names[13] == "apply"@ && names[14] == "features"@ && names[15]
        == "mcp-server"@);
    assert(names[16] == "execpolicy"@ && names[17] == "cloud"@ && names[18] == "cloud-tasks"@
        && names[19] == "stdio-to-uds"@);
    assert(names[20] == "exec-server"@ && names[21] == "help"@);
    if names.contains(word) {
        let i = choose|i: int| 0 <= i < names.len() && names[i] == word;
        assert(names[i] == word);
    }
}

/// The program's own name stands before the words that it was given.
pub proof fn words_stand_behind_the_program(words: Seq<Seq<char>>)
    ensures
        program_words(words)[0] == "cx"@,
        program_words(words).skip(1) == words,
{
    assert(program_words(words).skip(1) =~= words);
}

} // verus!
