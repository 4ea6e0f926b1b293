//! The commands that a user may give, as far as completion needs to know them.

use vstd::prelude::*;

use crate::launcher::launcher_options;
use crate::launcher::OptionKind;
use crate::text::copy_of;
use crate::text::same;

verus! {

/// What the value of an argument names.
#[derive(Clone, Copy, Debug, PartialEq, Eq, Structural)]
pub enum ArgHint {
    Other,
    FilePath,
    DirPath,
}

/// A value that an argument may have.
#[derive(Debug)]
pub struct PossibleChoice {
    pub name: String,
    pub help: String,
    pub hidden: bool,
}

/// An argument of a command.
#[derive(Debug)]
pub struct ArgSpec {
    pub id: String,
    pub long: Option<String>,
    pub short: Option<char>,
    pub help: String,
    pub hint: ArgHint,
    pub takes_value: bool,
    pub hidden: bool,
    pub positional: bool,
    pub choices: Vec<PossibleChoice>,
}

/// A command with its arguments and the commands below it.
#[derive(Debug)]
pub struct CommandSpec {
    pub name: String,
    pub about: String,
    pub hidden: bool,
    pub args: Vec<ArgSpec>,
    pub subcommands: Vec<CommandSpec>,
}

/// Whether `arg` describes the launcher's `option`.
pub open spec fn describes(arg: ArgSpec, option: crate::launcher::OptionModel) -> bool {
    &&& arg.id@ == option.id
    &&& crate::text::opt_text(arg.long) == option.long
    &&& arg.short == option.short
    &&& arg.help@ == option.help
    &&& arg.hint == (match option.kind {
        OptionKind::Directory => ArgHint::DirPath,
        OptionKind::File => ArgHint::FilePath,
        _ => ArgHint::Other,
    })
    &&& arg.takes_value == (option.kind != OptionKind::Flag)
    &&& !arg.hidden
    &&& arg.positional == (option.kind == OptionKind::Rest)
    &&& arg.choices@.len() == 0
}

/// Whether `command` is the launcher.
pub open spec fn is_launcher(command: CommandSpec) -> bool {
    &&& command.name@ == "cx"@
    &&& command.about@ == "Launch Codex through a local cx slot"@
    &&& !command.hidden
    &&& command.subcommands@.len() == 0
    &&& command.args@.len() == crate::launcher::launcher_table().len()
    &&& forall|i: int|
        0 <= i < command.args@.len() ==> describes(
            #[trigger] command.args@[i],
            crate::launcher::launcher_table()[i],
        )
}

/// The launcher as a command.
pub fn launcher_spec() -> (out: CommandSpec)
    ensures
        is_launcher(out),
{
    let options = launcher_options();
    let mut args: Vec<ArgSpec> = Vec::new();
    let mut i: usize = 0;
    while i < options.len()
        invariant
            i <= options.len(),
            args@.len() == i,
            forall|j: int| 0 <= j < i ==> describes(#[trigger] args@[j], options@[j]@),
        decreases options.len() - i,
    {
        let option = options[i];
        let hint = match option.kind {
            OptionKind::Directory => ArgHint::DirPath,
            OptionKind::File => ArgHint::FilePath,
            _ => ArgHint::Other,
        };
        args.push(
            ArgSpec {
                id: copy_of(option.id),
                long: match option.long {
                    Some(name) => Some(copy_of(name)),
                    None => None,
                },
                short: option.short,
                help: copy_of(option.help),
                hint,
                takes_value: option.kind != OptionKind::Flag,
                hidden: false,
                positional: option.kind == OptionKind::Rest,
                choices: Vec::new(),
            },
        );
        i += 1;
    }
    proof {
        assert forall|j: int| 0 <= j < args@.len() implies describes(
            #[trigger] args@[j],
            crate::launcher::launcher_table()[j],
        ) by {
            assert(crate::launcher::option_models(options@)[j] == options@[j]@);
        }
        assert(crate::launcher::option_models(options@).len() == options@.len());
    }
    CommandSpec {
        name: copy_of("cx"),
        about: copy_of("Launch Codex through a local cx slot"),
        hidden: false,
        args,
        subcommands: Vec::new(),
    }
}

/// Whether a word names a command of this program.
pub open spec fn is_command_name(word: Seq<char>) -> bool {
    ||| word == "status"@
    ||| word == "stats"@
    ||| word == "prime"@
    ||| word == "select"@
    ||| word == "add"@
    ||| word == "remove"@
    ||| word == "login"@
    ||| word == "pat"@
    ||| word == "desktop"@
    ||| word == "transfer"@
    ||| word == "target"@
    ||| word == "doctor"@
    ||| word == "merge-sqlite"@
    ||| word == "install"@
    ||| word == "completions"@
    ||| word == "__complete"@
}

/// Whether a word names a command of this program.
pub fn is_known_command(word: &str) -> (out: bool)
    ensures
        out == is_command_name(word@),
{
    same(word, "status") || same(word, "stats") || same(word, "prime") || same(word, "select")
        || same(word, "add") || same(word, "remove") || same(word, "login") || same(word, "pat")
        || same(word, "desktop") || same(word, "transfer") || same(word, "target") || same(
        word,
        "doctor",
    ) || same(word, "merge-sqlite") || same(word, "install") || same(word, "completions") || same(
        word,
        "__complete",
    )
}

/// Whether the first argument asks for a command or for help, so that Codex is not
/// started.
pub fn is_management_entry_arg(first_arg: Option<&str>) -> (out: bool)
    ensures
        out == (match first_arg {
            Some(word) => word@ == "help"@ || word@ == "-h"@ || word@ == "--help"@
                || is_command_name(word@),
            None => false,
        }),
{
    match first_arg {
        None => false,
        Some(word) => same(word, "help") || same(word, "-h") || same(word, "--help")
            || is_known_command(word),
    }
}

/// The commands are known by their names.
pub proof fn commands_are_known_by_name(word: Seq<char>)
    ensures
        is_command_name(word) <==> seq![
            "status"@,
            "stats"@,
            "prime"@,
            "select"@,
            "add"@,
            "remove"@,
            "login"@,
            "pat"@,
            "desktop"@,
            "transfer"@,
            "target"@,
            "doctor"@,
            "merge-sqlite"@,
            "install"@,
            "completions"@,
            "__complete"@,
        ].contains(word),
{
    let names = seq![
        "status"@,
        "stats"@,
        "prime"@,
        "select"@,
        "add"@,
        "remove"@,
        "login"@,
        "pat"@,
        "desktop"@,
        "transfer"@,
        "target"@,
        "doctor"@,
        "merge-sqlite"@,
        "install"@,
        "completions"@,
        "__complete"@,
    ];
    assert(names[0] == "status"@ && names[1] == "stats"@ && names[2] == "prime"@ && names[3]
        == "select"@);
    assert(names[4] == "add"@ && names[5] == "remove"@ && names[6] == "login"@ && names[7]
        == "pat"@);
    assert(names[8] == "desktop"@ && names[9] == "transfer"@ && names[10] == "target"@ && names[11]
        == "doctor"@);
    assert(names[12] == "merge-sqlite"@ && names[13] == "install"@ && names[14] == "completions"@
        && names[15] == "__complete"@);
    if names.contains(word) {
        let i = choose|i: int| 0 <= i < names.len() && names[i] == word;
        assert(names[i] == word);
    }
}

/// What the launcher offers is the table of its options: a flag takes no value, and a
/// path is completed as one.
pub proof fn launchers_offer_their_options(command: CommandSpec, i: int)
    requires
        is_launcher(command),
        0 <= i < command.args@.len(),
    ensures
        ({
            let arg = command.args@[i];
            let option = crate::launcher::launcher_table()[i];
            &&& command.args@.len() == crate::launcher::launcher_table().len()
            &&& !arg.hidden
            &&& crate::text::opt_text(arg.long) == option.long
            &&& arg.short == option.short
            &&& arg.help@ == option.help
            &&& arg.takes_value <==> option.kind != OptionKind::Flag
            &&& arg.positional <==> option.kind == OptionKind::Rest
            &&& arg.hint == ArgHint::DirPath <==> option.kind == OptionKind::Directory
            &&& arg.hint == ArgHint::FilePath <==> option.kind == OptionKind::File
        }),
{
    assert(describes(command.args@[i], crate::launcher::launcher_table()[i]));
}

} // verus!
