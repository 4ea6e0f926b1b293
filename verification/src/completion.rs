//! Completion of the words of a command line.

use vstd::prelude::*;

use crate::candidates::attach_all;
use crate::candidates::filter_candidates;
use crate::candidates::Candidate;
use crate::candidates::CandidateModel;
use crate::candidates::PathKind;
use crate::cli::CompleteArgs;
use crate::cli::CompletionShell;
use crate::commands::ArgHint;
use crate::commands::ArgSpec;
use crate::commands::CommandSpec;
use crate::text::chars_of;
use crate::text::concat2;
use crate::text::concat3;
use crate::text::copy_all;
use crate::text::copy_of;
use crate::text::has_char;
use crate::text::push_text;
use crate::text::same;
use crate::text::split_once;
use crate::text::string_of;
use crate::text::strip_prefix;
use crate::text::text_starts_with;

verus! {

// ---------------------------------------------------------------------------
// Scripts
// ---------------------------------------------------------------------------

/// The script that connects a shell to this program.
pub open spec fn script_of(shell: CompletionShell) -> Seq<char> {
    match shell {
        CompletionShell::Fish => "# cx fish completions\nfunction __cx_complete\n    set -l current (commandline -ct)\n    set -l words (commandline -opc)\n    cx __complete words --shell fish \"--current=$current\" -- $words 2>/dev/null\nend\n\ncomplete -c cx -f -a \"(__cx_complete)\"\n"@,
        CompletionShell::Zsh => "#compdef cx\n\n_cx() {\n  local -a candidates\n  local value description\n  while IFS=$'\\t' read -r value description; do\n    [[ -n \"$value\" ]] && candidates+=(\"${value}:${description}\")\n  done < <(cx __complete words --shell zsh --cursor \"$CURRENT\" \"--current=${words[CURRENT]}\" -- \"${words[@]}\" 2>/dev/null)\n  _describe -t values 'cx completions' candidates\n}\n\n_cx \"$@\"\n"@,
        CompletionShell::Bash => "# cx bash completions\n_cx() {\n  local cur value description\n  COMPREPLY=()\n  cur=\"${COMP_WORDS[COMP_CWORD]}\"\n  while IFS=$'\\t' read -r value description; do\n    [[ -n \"$value\" ]] && COMPREPLY+=(\"$value\")\n  done < <(cx __complete words --shell bash --cursor \"$COMP_CWORD\" \"--current=$cur\" -- \"${COMP_WORDS[@]}\" 2>/dev/null)\n}\n\ncomplete -F _cx cx\n"@,
    }
}

/// The script that connects a shell to this program.
pub fn print_script(shell: CompletionShell) -> (out: &'static str)
    ensures
        out@ == script_of(shell),
{
    match shell {
        CompletionShell::Fish => "# cx fish completions\nfunction __cx_complete\n    set -l current (commandline -ct)\n    set -l words (commandline -opc)\n    cx __complete words --shell fish \"--current=$current\" -- $words 2>/dev/null\nend\n\ncomplete -c cx -f -a \"(__cx_complete)\"\n",
        CompletionShell::Zsh => "#compdef cx\n\n_cx() {\n  local -a candidates\n  local value description\n  while IFS=$'\\t' read -r value description; do\n    [[ -n \"$value\" ]] && candidates+=(\"${value}:${description}\")\n  done < <(cx __complete words --shell zsh --cursor \"$CURRENT\" \"--current=${words[CURRENT]}\" -- \"${words[@]}\" 2>/dev/null)\n  _describe -t values 'cx completions' candidates\n}\n\n_cx \"$@\"\n",
        CompletionShell::Bash => "# cx bash completions\n_cx() {\n  local cur value description\n  COMPREPLY=()\n  cur=\"${COMP_WORDS[COMP_CWORD]}\"\n  while IFS=$'\\t' read -r value description; do\n    [[ -n \"$value\" ]] && COMPREPLY+=(\"$value\")\n  done < <(cx __complete words --shell bash --cursor \"$COMP_CWORD\" \"--current=$cur\" -- \"${COMP_WORDS[@]}\" 2>/dev/null)\n}\n\ncomplete -F _cx cx\n",
    }
}

// ---------------------------------------------------------------------------
// Words
// ---------------------------------------------------------------------------

/// The words before the one that is completed. Each shell counts in its own way.
pub open spec fn before_of(
    shell: CompletionShell,
    cursor: Option<usize>,
    current: Seq<char>,
    words: Seq<Seq<char>>,
) -> Seq<Seq<char>> {
    match shell {
        CompletionShell::Bash => match cursor {
            Some(n) => if n < words.len() {
                words.take(n as int)
            } else {
                words
            },
            None => words,
        },
        CompletionShell::Zsh => match cursor {
            Some(n) => if 1 <= n && n - 1 < words.len() {
                words.take(n - 1)
            } else {
                words
            },
            None => words,
        },
        CompletionShell::Fish => if current.len() > 0 && words.len() > 0 && words.last()
            == current {
            words.drop_last()
        } else {
            words
        },
    }
}

fn take_words(words: &Vec<String>, n: usize) -> (out: Vec<String>)
    requires
        n <= words.len(),
    ensures
        crate::text::texts(out@) == crate::text::texts(words@).take(n as int),
{
    let ghost all = crate::text::texts(words@);
    let mut out: Vec<String> = Vec::new();
    let mut i: usize = 0;
    proof {
        assert(crate::text::texts(out@) =~= all.take(0));
    }
    while i < n
        invariant
            i <= n <= words.len(),
            all == crate::text::texts(words@),
            crate::text::texts(out@) == all.take(i as int),
        decreases n - i,
    {
        push_text(&mut out, words[i].clone());
        proof {
            assert(all.take(i + 1) =~= all.take(i as int).push(all[i as int]));
        }
        i += 1;
    }
    out
}

/// The words before the one that is completed.
pub fn words_before_current(
    shell: CompletionShell,
    cursor: Option<usize>,
    current: &str,
    words: &Vec<String>,
) -> (out: Vec<String>)
    ensures
        crate::text::texts(out@) == before_of(
            shell,
            cursor,
            current@,
            crate::text::texts(words@),
        ),
{
    let mut n: usize = words.len();
    proof {
        assert(crate::text::texts(words@).take(n as int) =~= crate::text::texts(words@));
    }
    match shell {
        CompletionShell::Bash => {
            match cursor {
                Some(at) => {
                    if at < n {
                        n = at;
                    }
                },
                None => {},
            }
        },
        CompletionShell::Zsh => {
            match cursor {
                Some(at) => {
                    if at >= 1 && at - 1 < n {
                        n = at - 1;
                    }
                },
                None => {},
            }
        },
        CompletionShell::Fish => {
            if current.unicode_len() > 0 && n > 0 && same(words[n - 1].as_str(), current) {
                n = n - 1;
                proof {
                    assert(crate::text::texts(words@).take(n as int) =~= crate::text::texts(
                        words@,
                    ).drop_last());
                }
            }
        },
    }
    take_words(words, n)
}

/// Words without the name of this program before them.
pub open spec fn without_program(words: Seq<Seq<char>>) -> Seq<Seq<char>> {
    if words.len() > 0 && words[0] == "cx"@ {
        words.skip(1)
    } else {
        words
    }
}

/// Words without the name of this program before them.
pub fn strip_program_name(words: &Vec<String>) -> (out: Vec<String>)
    ensures
        crate::text::texts(out@) == without_program(crate::text::texts(words@)),
{
    let mut out = copy_all(words);
    proof {
        assert(crate::text::texts(words@).len() == words@.len());
    }
    if words.len() > 0 && same(words[0].as_str(), "cx") {
        let ghost before = out@;
        let _ = out.remove(0);
        proof {
            assert(out@ =~= before.skip(1));
            assert(crate::text::texts(out@) =~= crate::text::texts(before).skip(1));
        }
    }
    out
}

/// The manager directory that words name.
pub open spec fn named_dir(words: Seq<Seq<char>>) -> Option<Seq<char>>
    decreases words.len(),
{
    if words.len() == 0 {
        None
    } else if words[0] == "--manager-dir"@ {
        if words.len() > 1 {
            Some(words[1])
        } else {
            None
        }
    } else {
        match crate::text::stripped_prefix(words[0], "--manager-dir="@) {
            Some(dir) => Some(dir),
            None => named_dir(words.skip(1)),
        }
    }
}

/// The manager directory that words name.
pub fn manager_dir_from(words: &Vec<String>) -> (out: Option<String>)
    ensures
        crate::text::opt_text(out) == named_dir(crate::text::texts(words@)),
{
    let ghost all = crate::text::texts(words@);
    let mut i: usize = 0;
    proof {
        assert(all.skip(0) =~= all);
    }
    while i < words.len()
        invariant
            i <= words.len(),
            all == crate::text::texts(words@),
            named_dir(all) == named_dir(all.skip(i as int)),
        decreases words.len() - i,
    {
        proof {
            assert(all.skip(i as int)[0] == words@[i as int]@);
            assert(all.skip(i as int).skip(1) =~= all.skip(i + 1));
            if i + 1 < words@.len() {
                assert(all.skip(i as int)[1] == words@[i + 1]@);
            }
        }
        if same(words[i].as_str(), "--manager-dir") {
            return if i + 1 < words.len() {
                Some(words[i + 1].clone())
            } else {
                None
            };
        }
        match strip_prefix(&chars_of(words[i].as_str()), "--manager-dir=") {
            Some(dir) => {
                return Some(string_of(&dir));
            },
            None => {},
        }
        i += 1;
    }
    None
}

// ---------------------------------------------------------------------------
// Commands
// ---------------------------------------------------------------------------

/// The first visible argument with a long name.
pub open spec fn long_arg(args: Seq<ArgSpec>, name: Seq<char>) -> Option<ArgSpec>
    decreases args.len(),
{
    if args.len() == 0 {
        None
    } else if !args[0].hidden && crate::text::opt_text(args[0].long) == Some(name) {
        Some(args[0])
    } else {
        long_arg(args.skip(1), name)
    }
}

/// The first visible argument with a short name.
pub open spec fn short_arg(args: Seq<ArgSpec>, name: char) -> Option<ArgSpec>
    decreases args.len(),
{
    if args.len() == 0 {
        None
    } else if !args[0].hidden && args[0].short == Some(name) {
        Some(args[0])
    } else {
        short_arg(args.skip(1), name)
    }
}

/// An optional reference, as a value.
pub open spec fn opt_arg(arg: Option<&ArgSpec>) -> Option<ArgSpec> {
    match arg {
        Some(found) => Some(*found),
        None => None,
    }
}

fn find_long<'a>(command: &'a CommandSpec, name: &str) -> (out: Option<&'a ArgSpec>)
    ensures
        opt_arg(out) == long_arg(command.args@, name@),
{
    let ghost all = command.args@;
    let mut i: usize = 0;
    proof {
        assert(all.skip(0) =~= all);
    }
    while i < command.args.len()
        invariant
            i <= command.args.len(),
            all == command.args@,
            long_arg(all, name@) == long_arg(all.skip(i as int), name@),
        decreases command.args.len() - i,
    {
        proof {
            assert(all.skip(i as int)[0] == all[i as int]);
            assert(all.skip(i as int).skip(1) =~= all.skip(i + 1));
        }
        if !command.args[i].hidden {
            match &command.args[i].long {
                Some(long) => {
                    if same(long.as_str(), name) {
                        return Some(&command.args[i]);
                    }
                },
                None => {},
            }
        }
        i += 1;
    }
    None
}

fn find_short<'a>(command: &'a CommandSpec, name: char) -> (out: Option<&'a ArgSpec>)
    ensures
        opt_arg(out) == short_arg(command.args@, name),
{
    let ghost all = command.args@;
    let mut i: usize = 0;
    proof {
        assert(all.skip(0) =~= all);
    }
    while i < command.args.len()
        invariant
            i <= command.args.len(),
            all == command.args@,
            short_arg(all, name) == short_arg(all.skip(i as int), name),
        decreases command.args.len() - i,
    {
        proof {
            assert(all.skip(i as int)[0] == all[i as int]);
            assert(all.skip(i as int).skip(1) =~= all.skip(i + 1));
        }
        if !command.args[i].hidden {
            match command.args[i].short {
                Some(short) => {
                    if short == name {
                        return Some(&command.args[i]);
                    }
                },
                None => {},
            }
        }
        i += 1;
    }
    None
}

/// The long name in a word: what stands between `--` and an equals sign.
pub open spec fn long_name(word: Seq<char>) -> Option<Seq<char>> {
    match crate::text::stripped_prefix(word, "--"@) {
        None => None,
        Some(rest) => match crate::text::split_at_first(rest, '=') {
            Some(parts) => Some(parts.0),
            None => Some(rest),
        },
    }
}

/// The short name in a word: the one character behind a dash.
pub open spec fn short_name(word: Seq<char>) -> Option<char> {
    match crate::text::stripped_prefix(word, "-"@) {
        None => None,
        Some(rest) => if rest.len() == 1 {
            Some(rest[0])
        } else {
            None
        },
    }
}

/// The option with a long name that a word is.
pub open spec fn long_option(command: CommandSpec, word: Seq<char>) -> Option<ArgSpec> {
    match long_name(word) {
        Some(name) => long_arg(command.args@, name),
        None => None,
    }
}

/// The option with a short name that a word is.
pub open spec fn short_option(command: CommandSpec, word: Seq<char>) -> Option<ArgSpec> {
    match short_name(word) {
        Some(name) => short_arg(command.args@, name),
        None => None,
    }
}

fn long_arg_from_word<'a>(command: &'a CommandSpec, word: &str) -> (out: Option<&'a ArgSpec>)
    ensures
        opt_arg(out) == long_option(*command, word@),
{
    match strip_prefix(&chars_of(word), "--") {
        None => None,
        Some(rest) => match split_once(&rest, '=') {
            Some((name, _)) => find_long(command, string_of(&name).as_str()),
            None => find_long(command, string_of(&rest).as_str()),
        },
    }
}

fn short_arg_from_word<'a>(command: &'a CommandSpec, word: &str) -> (out: Option<&'a ArgSpec>)
    ensures
        opt_arg(out) == short_option(*command, word@),
{
    match strip_prefix(&chars_of(word), "-") {
        None => None,
        Some(rest) => if rest.len() == 1 {
            find_short(command, rest[0])
        } else {
            None
        },
    }
}

/// The first visible command with a name.
pub open spec fn subcommand_named(commands: Seq<CommandSpec>, name: Seq<char>) -> Option<CommandSpec>
    decreases commands.len(),
{
    if commands.len() == 0 {
        None
    } else if !commands[0].hidden && commands[0].name@ == name {
        Some(commands[0])
    } else {
        subcommand_named(commands.skip(1), name)
    }
}

/// An optional reference, as a value.
pub open spec fn opt_command(command: Option<&CommandSpec>) -> Option<CommandSpec> {
    match command {
        Some(found) => Some(*found),
        None => None,
    }
}

fn visible_subcommand<'a>(command: &'a CommandSpec, name: &str) -> (out: Option<&'a CommandSpec>)
    ensures
        opt_command(out) == subcommand_named(command.subcommands@, name@),
{
    let ghost all = command.subcommands@;
    let mut i: usize = 0;
    proof {
        assert(all.skip(0) =~= all);
    }
    while i < command.subcommands.len()
        invariant
            i <= command.subcommands.len(),
            all == command.subcommands@,
            subcommand_named(all, name@) == subcommand_named(all.skip(i as int), name@),
        decreases command.subcommands.len() - i,
    {
        proof {
            assert(all.skip(i as int)[0] == all[i as int]);
            assert(all.skip(i as int).skip(1) =~= all.skip(i + 1));
        }
        if !command.subcommands[i].hidden && same(command.subcommands[i].name.as_str(), name) {
            return Some(&command.subcommands[i]);
        }
        i += 1;
    }
    None
}

/// Whether words start with a command of this program.
pub open spec fn is_management(root: CommandSpec, words: Seq<Seq<char>>) -> bool {
    words.len() > 0 && subcommand_named(root.subcommands@, words[0]) is Some
}

/// Whether words start with a command of this program.
pub fn is_management_mode(root: &CommandSpec, words: &Vec<String>) -> (out: bool)
    ensures
        out == is_management(*root, crate::text::texts(words@)),
{
    proof {
        assert(crate::text::texts(words@).len() == words@.len());
    }
    words.len() > 0 && visible_subcommand(root, words[0].as_str()).is_some()
}

/// Where words lead: the command they name, and the plain words behind it.
/// `expecting` says that the first word is the value of an option.
pub open spec fn walked(
    command: CommandSpec,
    words: Seq<Seq<char>>,
    expecting: bool,
    plain: Seq<Seq<char>>,
) -> (CommandSpec, Seq<Seq<char>>)
    decreases words.len(),
{
    if words.len() == 0 {
        (command, plain)
    } else {
        let word = words[0];
        let rest = words.skip(1);
        if expecting {
            walked(command, rest, false, plain)
        } else if word == "--"@ {
            (command, plain)
        } else {
            match (long_option(command, word), short_option(command, word)) {
                (Some(arg), _) => walked(
                    command,
                    rest,
                    arg.takes_value && !word.contains('='),
                    plain,
                ),
                (None, Some(arg)) => walked(command, rest, arg.takes_value, plain),
                (None, None) => if crate::text::has_prefix(word, "-"@) {
                    walked(command, rest, false, plain)
                } else {
                    match subcommand_named(command.subcommands@, word) {
                        Some(below) => walked(below, rest, false, seq![]),
                        None => walked(command, rest, false, plain.push(word)),
                    }
                },
            }
        }
    }
}

/// Where words lead.
pub struct CompletionContext<'a> {
    pub command: &'a CommandSpec,
    pub positionals: Vec<String>,
}

/// Where words lead.
pub fn command_context<'a>(root: &'a CommandSpec, words: &Vec<String>) -> (out: CompletionContext<
    'a,
>)
    ensures
        (*out.command, crate::text::texts(out.positionals@)) == walked(
            *root,
            crate::text::texts(words@),
            false,
            seq![],
        ),
{
    let ghost all = crate::text::texts(words@);
    let mut command = root;
    let mut positionals: Vec<String> = Vec::new();
    let mut expecting = false;
    let mut i: usize = 0;
    proof {
        assert(all.skip(0) =~= all);
        assert(crate::text::texts(positionals@) =~= seq![]);
    }
    while i < words.len()
        invariant
            i <= words.len(),
            all == crate::text::texts(words@),
            walked(*root, all, false, seq![]) == walked(
                *command,
                all.skip(i as int),
                expecting,
                crate::text::texts(positionals@),
            ),
        decreases words.len() - i,
    {
        let word = words[i].as_str();
        proof {
            assert(all.skip(i as int)[0] == words@[i as int]@);
            assert(all.skip(i as int).skip(1) =~= all.skip(i + 1));
        }
        if expecting {
            expecting = false;
        } else if same(word, "--") {
            return CompletionContext { command, positionals };
        } else {
            match long_arg_from_word(command, word) {
                Some(arg) => {
                    expecting = arg.takes_value && !has_char(&chars_of(word), '=');
                },
                None => match short_arg_from_word(command, word) {
                    Some(arg) => {
                        expecting = arg.takes_value;
                    },
                    None => {
                        if !text_starts_with(word, "-") {
                            match visible_subcommand(command, word) {
                                Some(below) => {
                                    command = below;
                                    positionals = Vec::new();
                                    proof {
                                        assert(crate::text::texts(positionals@) =~= seq![]);
                                    }
                                },
                                None => {
                                    push_text(&mut positionals, words[i].clone());
                                },
                            }
                        }
                    },
                },
            }
        }
        i += 1;
    }
    CompletionContext { command, positionals }
}

// ---------------------------------------------------------------------------
// Candidates of commands
// ---------------------------------------------------------------------------

/// The visible commands below a command.
pub open spec fn command_list(commands: Seq<CommandSpec>) -> Seq<CandidateModel>
    decreases commands.len(),
{
    if commands.len() == 0 {
        seq![]
    } else if commands.last().hidden {
        command_list(commands.drop_last())
    } else {
        command_list(commands.drop_last()).push(
            CandidateModel { value: commands.last().name@, description: commands.last().about@ },
        )
    }
}

/// The visible commands below a command.
pub fn command_candidates(command: &CommandSpec) -> (out: Vec<Candidate>)
    ensures
        crate::candidates::candidate_models(out@) == command_list(command.subcommands@),
{
    let ghost all = command.subcommands@;
    let mut out: Vec<Candidate> = Vec::new();
    let mut i: usize = 0;
    proof {
        assert(all.take(0) =~= seq![]);
        assert(crate::candidates::candidate_models(out@) =~= seq![]);
    }
    while i < command.subcommands.len()
        invariant
            i <= command.subcommands.len(),
            all == command.subcommands@,
            crate::candidates::candidate_models(out@) == command_list(all.take(i as int)),
        decreases command.subcommands.len() - i,
    {
        proof {
            assert(all.take(i + 1).drop_last() =~= all.take(i as int));
            assert(all.take(i + 1).last() == all[i as int]);
        }
        if !command.subcommands[i].hidden {
            crate::candidates::push_candidate(
                &mut out,
                command.subcommands[i].name.as_str(),
                command.subcommands[i].about.as_str(),
            );
        }
        i += 1;
    }
    proof {
        assert(all.take(all.len() as int) =~= all);
    }
    out
}

/// The names of an option as candidates.
pub open spec fn names_of(arg: ArgSpec) -> Seq<CandidateModel> {
    let long = match arg.long {
        Some(name) => seq![CandidateModel { value: "--"@ + name@, description: arg.help@ }],
        None => seq![],
    };
    let short = match arg.short {
        Some(name) => seq![CandidateModel { value: "-"@ + seq![name], description: arg.help@ }],
        None => seq![],
    };
    long + short
}

/// The names of the visible options.
pub open spec fn option_names(args: Seq<ArgSpec>) -> Seq<CandidateModel>
    decreases args.len(),
{
    if args.len() == 0 {
        seq![]
    } else if args.last().hidden {
        option_names(args.drop_last())
    } else {
        option_names(args.drop_last()) + names_of(args.last())
    }
}

/// Whether a word is among candidates.
pub open spec fn has_word(items: Seq<CandidateModel>, word: Seq<char>) -> bool {
    exists|i: int| 0 <= i < items.len() && (#[trigger] items[i]).value == word
}

/// The visible options of a command. Help is always one.
pub open spec fn option_list(args: Seq<ArgSpec>) -> Seq<CandidateModel> {
    if has_word(option_names(args), "--help"@) {
        option_names(args)
    } else {
        option_names(args) + seq![
            CandidateModel { value: "--help"@, description: "Print help"@ },
            CandidateModel { value: "-h"@, description: "Print help"@ },
        ]
    }
}

fn holds_word(items: &Vec<Candidate>, word: &str) -> (out: bool)
    ensures
        out == has_word(crate::candidates::candidate_models(items@), word@),
{
    let ghost all = crate::candidates::candidate_models(items@);
    let mut i: usize = 0;
    while i < items.len()
        invariant
            i <= items.len(),
            all == crate::candidates::candidate_models(items@),
            forall|j: int| 0 <= j < i ==> (#[trigger] all[j]).value != word@,
        decreases items.len() - i,
    {
        if same(items[i].value.as_str(), word) {
            proof {
                assert(all[i as int].value == word@);
            }
            return true;
        }
        i += 1;
    }
    false
}

/// The visible options of a command.
pub fn option_candidates(command: &CommandSpec) -> (out: Vec<Candidate>)
    ensures
        crate::candidates::candidate_models(out@) == option_list(command.args@),
{
    let ghost all = command.args@;
    let mut out: Vec<Candidate> = Vec::new();
    let mut i: usize = 0;
    proof {
        assert(all.take(0) =~= seq![]);
        assert(crate::candidates::candidate_models(out@) =~= seq![]);
    }
    while i < command.args.len()
        invariant
            i <= command.args.len(),
            all == command.args@,
            crate::candidates::candidate_models(out@) == option_names(all.take(i as int)),
        decreases command.args.len() - i,
    {
        let ghost before = crate::candidates::candidate_models(out@);
        proof {
            assert(all.take(i + 1).drop_last() =~= all.take(i as int));
            assert(all.take(i + 1).last() == all[i as int]);
        }
        if !command.args[i].hidden {
            let help = command.args[i].help.as_str();
            match &command.args[i].long {
                Some(name) => {
                    crate::candidates::push_candidate(
                        &mut out,
                        concat2("--", name.as_str()).as_str(),
                        help,
                    );
                },
                None => {},
            }
            match command.args[i].short {
                Some(name) => {
                    let mut chars: Vec<char> = Vec::new();
                    chars.push(name);
                    proof {
                        assert(chars@ =~= seq![name]);
                    }
                    crate::candidates::push_candidate(
                        &mut out,
                        concat2("-", string_of(&chars).as_str()).as_str(),
                        help,
                    );
                },
                None => {},
            }
            proof {
                assert(crate::candidates::candidate_models(out@) =~= before + names_of(
                    all[i as int],
                ));
            }
        }
        i += 1;
    }
    proof {
        assert(all.take(all.len() as int) =~= all);
    }
    if !holds_word(&out, "--help") {
        let ghost before = crate::candidates::candidate_models(out@);
        crate::candidates::push_candidate(&mut out, "--help", "Print help");
        crate::candidates::push_candidate(&mut out, "-h", "Print help");
        proof {
            assert(crate::candidates::candidate_models(out@) =~= before + seq![
                CandidateModel { value: "--help"@, description: "Print help"@ },
                CandidateModel { value: "-h"@, description: "Print help"@ },
            ]);
        }
    }
    out
}

/// The visible choices of an argument.
pub open spec fn choice_list(choices: Seq<crate::commands::PossibleChoice>) -> Seq<CandidateModel>
    decreases choices.len(),
{
    if choices.len() == 0 {
        seq![]
    } else if choices.last().hidden {
        choice_list(choices.drop_last())
    } else {
        choice_list(choices.drop_last()).push(
            CandidateModel { value: choices.last().name@, description: choices.last().help@ },
        )
    }
}

/// The visible choices of an argument.
pub fn possible_value_candidates(arg: &ArgSpec) -> (out: Vec<Candidate>)
    ensures
        crate::candidates::candidate_models(out@) == choice_list(arg.choices@),
{
    let ghost all = arg.choices@;
    let mut out: Vec<Candidate> = Vec::new();
    let mut i: usize = 0;
    proof {
        assert(all.take(0) =~= seq![]);
        assert(crate::candidates::candidate_models(out@) =~= seq![]);
    }
    while i < arg.choices.len()
        invariant
            i <= arg.choices.len(),
            all == arg.choices@,
            crate::candidates::candidate_models(out@) == choice_list(all.take(i as int)),
        decreases arg.choices.len() - i,
    {
        proof {
            assert(all.take(i + 1).drop_last() =~= all.take(i as int));
            assert(all.take(i + 1).last() == all[i as int]);
        }
        if !arg.choices[i].hidden {
            crate::candidates::push_candidate(
                &mut out,
                arg.choices[i].name.as_str(),
                arg.choices[i].help.as_str(),
            );
        }
        i += 1;
    }
    proof {
        assert(all.take(all.len() as int) =~= all);
    }
    out
}

/// What completes the value of an argument and has to be looked up.
#[derive(Clone, Copy, Debug, PartialEq, Eq, Structural)]
pub enum ValueCompletion {
    Slots,
    Targets,
    Path(PathKind),
}

/// What completes the value of an argument and has to be looked up.
pub open spec fn completion_of(arg: ArgSpec) -> Option<ValueCompletion> {
    if arg.id@ == "slot"@ || arg.id@ == "slots"@ {
        Some(ValueCompletion::Slots)
    } else if arg.id@ == "target"@ {
        Some(ValueCompletion::Targets)
    } else {
        match arg.hint {
            ArgHint::FilePath => Some(ValueCompletion::Path(PathKind::Files)),
            ArgHint::DirPath => Some(ValueCompletion::Path(PathKind::Directories)),
            ArgHint::Other => None,
        }
    }
}

/// What completes the value of an argument and has to be looked up.
pub fn completion_for_arg(arg: &ArgSpec) -> (out: Option<ValueCompletion>)
    ensures
        out == completion_of(*arg),
{
    let id = arg.id.as_str();
    if same(id, "slot") || same(id, "slots") {
        return Some(ValueCompletion::Slots);
    }
    if same(id, "target") {
        return Some(ValueCompletion::Targets);
    }
    match arg.hint {
        ArgHint::FilePath => Some(ValueCompletion::Path(PathKind::Files)),
        ArgHint::DirPath => Some(ValueCompletion::Path(PathKind::Directories)),
        ArgHint::Other => None,
    }
}

// ---------------------------------------------------------------------------
// Answers
// ---------------------------------------------------------------------------

/// An answer to a completion.
#[derive(Debug)]
pub enum Answer {
    Done(Vec<Candidate>),
    /// Something has to be looked up: what, for paths the typed path that is
    /// listed, what the words have to start with, and what is put before them.
    LookUp { what: ValueCompletion, listed: String, prefix: String, head: String },
}

/// An answer to a completion, over mathematical values.
pub enum AnswerModel {
    Done(Seq<CandidateModel>),
    LookUp { what: ValueCompletion, listed: Seq<char>, prefix: Seq<char>, head: Seq<char> },
}

impl View for Answer {
    type V = AnswerModel;

    open spec fn view(&self) -> AnswerModel {
        match *self {
            Answer::Done(items) => AnswerModel::Done(
                crate::candidates::candidate_models(items@),
            ),
            Answer::LookUp { what, listed, prefix, head } => AnswerModel::LookUp {
                what,
                listed: listed@,
                prefix: prefix@,
                head: head@,
            },
        }
    }
}

/// The view of an optional answer.
pub open spec fn opt_answer(answer: Option<Answer>) -> Option<AnswerModel> {
    match answer {
        Some(found) => Some(found@),
        None => None,
    }
}

/// The candidates for what was looked up.
pub fn finish(found: Vec<Candidate>, prefix: &str, head: &str) -> (out: Vec<Candidate>)
    ensures
        crate::candidates::candidate_models(out@) == crate::candidates::attached(
            crate::candidates::filtered(crate::candidates::candidate_models(found@), prefix@),
            head@,
        ),
{
    attach_all(filter_candidates(found, prefix), head)
}

/// The values of an option that start with `prefix`, with `head` before each; none
/// where nothing is known of its values.
pub open spec fn values_answer(arg: ArgSpec, prefix: Seq<char>, head: Seq<char>) -> Option<
    AnswerModel,
> {
    if !arg.takes_value {
        None
    } else {
        match completion_of(arg) {
            Some(what) => Some(AnswerModel::LookUp { what, listed: prefix, prefix, head }),
            None => if choice_list(arg.choices@).len() == 0 {
                None
            } else {
                Some(
                    AnswerModel::Done(
                        crate::candidates::attached(
                            crate::candidates::filtered(choice_list(arg.choices@), prefix),
                            head,
                        ),
                    ),
                )
            },
        }
    }
}

fn value_candidates_for_arg(arg: &ArgSpec, prefix: &str, head: &str) -> (out: Option<Answer>)
    ensures
        opt_answer(out) == values_answer(*arg, prefix@, head@),
{
    if !arg.takes_value {
        return None;
    }
    match completion_for_arg(arg) {
        Some(what) => Some(
            Answer::LookUp {
                what,
                listed: copy_of(prefix),
                prefix: copy_of(prefix),
                head: copy_of(head),
            },
        ),
        None => {
            let choices = possible_value_candidates(arg);
            proof {
                assert(crate::candidates::candidate_models(choices@).len() == choices@.len());
            }
            if choices.len() == 0 {
                None
            } else {
                Some(Answer::Done(finish(choices, prefix, head)))
            }
        },
    }
}

/// The command whose options are in force.
pub open spec fn active(root: CommandSpec, launcher: CommandSpec, words: Seq<Seq<char>>) -> CommandSpec {
    if is_management(root, words) {
        walked(root, words, false, seq![]).0
    } else {
        launcher
    }
}

fn active_command<'a>(root: &'a CommandSpec, launcher: &'a CommandSpec, words: &Vec<String>) -> (out:
    &'a CommandSpec)
    ensures
        *out == active(*root, *launcher, crate::text::texts(words@)),
{
    if is_management_mode(root, words) {
        command_context(root, words).command
    } else {
        launcher
    }
}

/// The answer for a value that is attached to its option.
pub open spec fn attached_answer(
    root: CommandSpec,
    launcher: CommandSpec,
    current: Seq<char>,
    words: Seq<Seq<char>>,
) -> Option<AnswerModel> {
    match crate::text::stripped_prefix(current, "--"@) {
        None => None,
        Some(rest) => match crate::text::split_at_first(rest, '=') {
            None => None,
            Some(parts) => match long_arg(active(root, launcher, words).args@, parts.0) {
                None => None,
                Some(arg) => values_answer(arg, parts.1, "--"@ + parts.0 + "="@),
            },
        },
    }
}

/// The answer for a value that is attached to its option.
pub fn complete_attached_value(
    root: &CommandSpec,
    launcher: &CommandSpec,
    current: &str,
    words: &Vec<String>,
) -> (out: Option<Answer>)
    ensures
        opt_answer(out) == attached_answer(
            *root,
            *launcher,
            current@,
            crate::text::texts(words@),
        ),
{
    let rest = match strip_prefix(&chars_of(current), "--") {
        None => {
            return None;
        },
        Some(rest) => rest,
    };
    match split_once(&rest, '=') {
        None => None,
        Some((name, value)) => {
            let option_name = string_of(&name);
            match find_long(active_command(root, launcher, words), option_name.as_str()) {
                None => None,
                Some(arg) => value_candidates_for_arg(
                    arg,
                    string_of(&value).as_str(),
                    concat3("--", option_name.as_str(), "=").as_str(),
                ),
            }
        },
    }
}

/// The answer for a value behind its option.
pub open spec fn following_answer(
    root: CommandSpec,
    launcher: CommandSpec,
    current: Seq<char>,
    words: Seq<Seq<char>>,
) -> Option<AnswerModel> {
    if words.len() == 0 {
        None
    } else {
        let command = active(root, launcher, words.drop_last());
        match (long_option(command, words.last()), short_option(command, words.last())) {
            (Some(arg), _) => values_answer(arg, current, seq![]),
            (None, Some(arg)) => values_answer(arg, current, seq![]),
            (None, None) => None,
        }
    }
}

/// The answer for a value behind its option.
pub fn complete_value_after_previous(
    root: &CommandSpec,
    launcher: &CommandSpec,
    current: &str,
    words: &Vec<String>,
) -> (out: Option<Answer>)
    ensures
        opt_answer(out) == following_answer(
            *root,
            *launcher,
            current@,
            crate::text::texts(words@),
        ),
{
    let ghost all = crate::text::texts(words@);
    proof {
        reveal_strlit("");
        assert(""@ =~= seq![]);
    }
    let n: usize = words.len();
    if n == 0 {
        return None;
    }
    let previous = words[n - 1].as_str();
    let before = take_words(words, n - 1);
    proof {
        assert(all.take(n - 1) =~= all.drop_last());
        assert(all.last() == previous@);
    }
    let command = active_command(root, launcher, &before);
    match long_arg_from_word(command, previous) {
        Some(arg) => value_candidates_for_arg(arg, current, ""),
        None => match short_arg_from_word(command, previous) {
            Some(arg) => value_candidates_for_arg(arg, current, ""),
            None => None,
        },
    }
}

/// The visible plain arguments of a command.
pub open spec fn plain_args(args: Seq<ArgSpec>) -> Seq<ArgSpec>
    decreases args.len(),
{
    if args.len() == 0 {
        seq![]
    } else if args.last().positional && !args.last().hidden {
        plain_args(args.drop_last()).push(args.last())
    } else {
        plain_args(args.drop_last())
    }
}

/// The plain argument at a place; the last one stands for all behind it.
pub open spec fn plain_arg(args: Seq<ArgSpec>, index: nat) -> Option<ArgSpec> {
    let plain = plain_args(args);
    if plain.len() == 0 {
        None
    } else if index < plain.len() {
        Some(plain[index as int])
    } else {
        Some(plain.last())
    }
}

fn positional_arg<'a>(command: &'a CommandSpec, index: usize) -> (out: Option<&'a ArgSpec>)
    ensures
        opt_arg(out) == plain_arg(command.args@, index as nat),
{
    let ghost all = command.args@;
    let mut found: Option<usize> = None;
    let mut seen: usize = 0;
    let mut i: usize = 0;
    proof {
        assert(all.take(0) =~= seq![]);
    }
    while i < command.args.len()
        invariant
            i <= command.args.len(),
            all == command.args@,
            seen <= i,
            seen == plain_args(all.take(i as int)).len(),
            match found {
                None => seen == 0,
                Some(k) => k < i && seen > 0 && all[k as int] == (if index < seen {
                    plain_args(all.take(i as int))[index as int]
                } else {
                    plain_args(all.take(i as int)).last()
                }),
            },
        decreases command.args.len() - i,
    {
        proof {
            assert(all.take(i + 1).drop_last() =~= all.take(i as int));
            assert(all.take(i + 1).last() == all[i as int]);
        }
        if command.args[i].positional && !command.args[i].hidden {
            if seen <= index {
                found = Some(i);
            }
            seen += 1;
        }
        i += 1;
    }
    proof {
        assert(all.take(all.len() as int) =~= all);
    }
    match found {
        None => None,
        Some(k) => Some(&command.args[k]),
    }
}

/// The answer for a plain argument.
pub open spec fn plain_answer(command: CommandSpec, index: nat, current: Seq<char>) -> AnswerModel {
    match plain_arg(command.args@, index) {
        None => AnswerModel::Done(seq![]),
        Some(arg) => match completion_of(arg) {
            Some(what) => AnswerModel::LookUp {
                what,
                listed: seq![],
                prefix: current,
                head: seq![],
            },
            None => AnswerModel::Done(
                crate::candidates::filtered(choice_list(arg.choices@), current),
            ),
        },
    }
}

/// The answer for a word of a command.
pub open spec fn management_answer(root: CommandSpec, current: Seq<char>, words: Seq<Seq<char>>) -> AnswerModel {
    let place = walked(root, words, false, seq![]);
    if crate::text::has_prefix(current, "-"@) {
        AnswerModel::Done(crate::candidates::filtered(option_list(place.0.args@), current))
    } else if command_list(place.0.subcommands@).len() > 0 {
        AnswerModel::Done(crate::candidates::filtered(command_list(place.0.subcommands@), current))
    } else {
        plain_answer(place.0, place.1.len(), current)
    }
}

/// The answer for a word of a command.
pub fn management_candidates(root: &CommandSpec, current: &str, words: &Vec<String>) -> (out: Answer)
    ensures
        out@ == management_answer(*root, current@, crate::text::texts(words@)),
{
    let context = command_context(root, words);
    proof {
        reveal_strlit("");
        assert(""@ =~= seq![]);
    }
    if text_starts_with(current, "-") {
        return Answer::Done(filter_candidates(option_candidates(context.command), current));
    }
    let commands = command_candidates(context.command);
    proof {
        assert(crate::candidates::candidate_models(commands@).len() == commands@.len());
        assert(crate::text::texts(context.positionals@).len() == context.positionals@.len());
    }
    if commands.len() > 0 {
        return Answer::Done(filter_candidates(commands, current));
    }
    match positional_arg(context.command, context.positionals.len()) {
        None => {
            let none: Vec<Candidate> = Vec::new();
            proof {
                assert(crate::candidates::candidate_models(none@) =~= seq![]);
            }
            Answer::Done(none)
        },
        Some(arg) => match completion_for_arg(arg) {
            Some(what) => Answer::LookUp {
                what,
                listed: copy_of(""),
                prefix: copy_of(current),
                head: copy_of(""),
            },
            None => Answer::Done(filter_candidates(possible_value_candidates(arg), current)),
        },
    }
}

/// The answer for a word of the launcher.
pub open spec fn launcher_answer(root: CommandSpec, launcher: CommandSpec, current: Seq<char>) -> AnswerModel {
    AnswerModel::Done(
        crate::candidates::filtered(
            if crate::text::has_prefix(current, "-"@) {
                option_list(launcher.args@)
            } else {
                command_list(root.subcommands@)
            },
            current,
        ),
    )
}

/// The answer to a completion. Behind `--` nothing is completed.
pub open spec fn word_answer(
    root: CommandSpec,
    launcher: CommandSpec,
    current: Seq<char>,
    words: Seq<Seq<char>>,
) -> AnswerModel {
    if words.contains("--"@) {
        AnswerModel::Done(seq![])
    } else {
        match (
            attached_answer(root, launcher, current, words),
            following_answer(root, launcher, current, words),
        ) {
            (Some(answer), _) => answer,
            (None, Some(answer)) => answer,
            (None, None) => if is_management(root, words) {
                management_answer(root, current, words)
            } else {
                launcher_answer(root, launcher, current)
            },
        }
    }
}

fn has_separator(words: &Vec<String>) -> (out: bool)
    ensures
        out == crate::text::texts(words@).contains("--"@),
{
    let ghost all = crate::text::texts(words@);
    let mut i: usize = 0;
    while i < words.len()
        invariant
            i <= words.len(),
            all == crate::text::texts(words@),
            forall|j: int| 0 <= j < i ==> #[trigger] all[j] != "--"@,
        decreases words.len() - i,
    {
        if same(words[i].as_str(), "--") {
            proof {
                assert(all[i as int] == "--"@);
            }
            return true;
        }
        i += 1;
    }
    false
}

/// The answer to a completion.
pub fn answer_for(root: &CommandSpec, launcher: &CommandSpec, current: &str, words: &Vec<String>) -> (out:
    Answer)
    ensures
        out@ == word_answer(*root, *launcher, current@, crate::text::texts(words@)),
{
    if has_separator(words) {
        let none: Vec<Candidate> = Vec::new();
        proof {
            assert(crate::candidates::candidate_models(none@) =~= seq![]);
        }
        return Answer::Done(none);
    }
    match complete_attached_value(root, launcher, current, words) {
        Some(answer) => {
            return answer;
        },
        None => {},
    }
    match complete_value_after_previous(root, launcher, current, words) {
        Some(answer) => {
            return answer;
        },
        None => {},
    }
    if is_management_mode(root, words) {
        return management_candidates(root, current, words);
    }
    let candidates = if text_starts_with(current, "-") {
        option_candidates(launcher)
    } else {
        command_candidates(root)
    };
    Answer::Done(filter_candidates(candidates, current))
}

/// The word that is completed.
pub open spec fn current_of(args: CompleteArgs) -> Seq<char> {
    match args.current {
        Some(text) => text@,
        None => seq![],
    }
}

/// The words before the one that is completed.
pub open spec fn words_before(args: CompleteArgs) -> Seq<Seq<char>> {
    before_of(
        match args.shell {
            Some(shell) => shell,
            None => CompletionShell::Bash,
        },
        args.cursor,
        current_of(args),
        crate::text::texts(args.words@),
    )
}

/// What a completion needs: the manager directory that is named, and the answer.
pub struct WordCompletion {
    pub manager_dir: Option<String>,
    pub answer: Answer,
}

/// Completes a word. The manager directory of the request goes before the one that
/// the words name.
pub fn word_candidates(args: &CompleteArgs, root: &CommandSpec, launcher: &CommandSpec) -> (out:
    WordCompletion)
    ensures
        crate::text::opt_text(out.manager_dir) == (match args.manager_dir {
            Some(dir) => Some(dir@),
            None => named_dir(words_before(*args)),
        }),
        out.answer@ == word_answer(
            *root,
            *launcher,
            current_of(*args),
            without_program(words_before(*args)),
        ),
{
    let current = match &args.current {
        Some(text) => copy_of(text.as_str()),
        None => {
            proof {
                reveal_strlit("");
                assert(""@ =~= seq![]);
            }
            copy_of("")
        },
    };
    let shell = match args.shell {
        Some(shell) => shell,
        None => CompletionShell::Bash,
    };
    let before = words_before_current(shell, args.cursor, current.as_str(), &args.words);
    let manager_dir = match &args.manager_dir {
        Some(dir) => Some(dir.clone()),
        None => manager_dir_from(&before),
    };
    let words = strip_program_name(&before);
    WordCompletion {
        manager_dir,
        answer: answer_for(root, launcher, current.as_str(), &words),
    }
}

// ---------------------------------------------------------------------------
// Laws
// ---------------------------------------------------------------------------

/// Whether a command of that name is to be seen.
pub open spec fn is_seen(commands: Seq<CommandSpec>, name: Seq<char>) -> bool {
    exists|i: int|
        0 <= i < commands.len() && !(#[trigger] commands[i]).hidden && commands[i].name@ == name
}

/// Only commands that are to be seen are offered.
pub proof fn hidden_commands_are_not_offered(commands: Seq<CommandSpec>, k: int)
    requires
        0 <= k < command_list(commands).len(),
    ensures
        is_seen(commands, command_list(commands)[k].value),
    decreases commands.len(),
{
    if commands.len() > 0 {
        let shorter = commands.drop_last();
        if k < command_list(shorter).len() {
            hidden_commands_are_not_offered(shorter, k);
            let i = choose|i: int|
                0 <= i < shorter.len() && !(#[trigger] shorter[i]).hidden && shorter[i].name@
                    == command_list(shorter)[k].value;
            assert(commands[i] == shorter[i]);
        } else {
            assert(!commands[commands.len() - 1].hidden);
        }
    }
}

/// Every command that is to be seen is offered.
pub proof fn seen_commands_are_offered(commands: Seq<CommandSpec>, k: int)
    requires
        0 <= k < commands.len(),
        !commands[k].hidden,
    ensures
        has_word(command_list(commands), commands[k].name@),
    decreases commands.len(),
{
    let shorter = commands.drop_last();
    let all = command_list(commands);
    if k < commands.len() - 1 {
        assert(shorter[k] == commands[k]);
        seen_commands_are_offered(shorter, k);
        let i = choose|i: int|
            0 <= i < command_list(shorter).len() && (#[trigger] command_list(shorter)[i]).value
                == commands[k].name@;
        assert(all[i] == command_list(shorter)[i]);
    } else {
        assert(all[all.len() - 1].value == commands[k].name@);
    }
}

/// Help is always offered among the options.
pub proof fn help_is_offered(args: Seq<ArgSpec>)
    ensures
        has_word(option_list(args), "--help"@),
{
    if !has_word(option_names(args), "--help"@) {
        let n = option_names(args).len();
        assert(option_list(args)[n as int].value == "--help"@);
    }
}

/// Nothing behind a `--` changes which command is completed.
pub proof fn words_behind_dashes_are_not_commands(
    command: CommandSpec,
    more: Seq<Seq<char>>,
    plain: Seq<Seq<char>>,
)
    ensures
        walked(command, seq!["--"@] + more, false, plain) == (command, plain),
{
    let words = seq!["--"@] + more;
    assert(words[0] == "--"@);
}

/// The words before the one that is typed: bash counts them from nothing, zsh from
/// one, and fish hands over the typed word with them.
pub proof fn words_before_the_typed_one_count(
    before: Seq<Seq<char>>,
    current: Seq<char>,
    after: Seq<Seq<char>>,
    n: usize,
)
    requires
        n == before.len(),
        n < usize::MAX,
        current.len() > 0,
    ensures
        before_of(CompletionShell::Bash, Some(n), current, before + seq![current] + after) == before,
        before_of(
            CompletionShell::Zsh,
            Some((n + 1) as usize),
            current,
            before + seq![current] + after,
        ) == before,
        before_of(CompletionShell::Fish, None, current, before + seq![current]) == before,
        before.len() > 0 && before.last() != current ==> before_of(
            CompletionShell::Fish,
            None,
            current,
            before,
        ) == before,
        before_of(CompletionShell::Bash, None, current, before) == before,
{
    let all = before + seq![current] + after;
    assert(all.take(n as int) =~= before);
    let typed = before + seq![current];
    assert(typed.last() == current);
    assert(typed.drop_last() =~= before);
}

/// The program's own name is no word of the command.
pub proof fn the_program_is_no_word(words: Seq<Seq<char>>)
    ensures
        without_program(seq!["cx"@] + words) == words,
        words.len() > 0 && words[0] != "cx"@ ==> without_program(words) == words,
{
    assert((seq!["cx"@] + words).skip(1) =~= words);
}

/// The directory is the word behind `--manager-dir` or what stands behind its equals
/// sign, the first time that either occurs.
pub proof fn the_first_directory_counts(dir: Seq<char>, word: Seq<char>, rest: Seq<Seq<char>>)
    ensures
        named_dir(seq!["--manager-dir"@, dir] + rest) == Some(dir),
        "--manager-dir="@ + dir != "--manager-dir"@ ==> named_dir(
            seq!["--manager-dir="@ + dir] + rest,
        ) == Some(dir),
        word != "--manager-dir"@ && !crate::text::has_prefix(word, "--manager-dir="@) ==> named_dir(
            seq![word] + rest,
        ) == named_dir(rest),
        named_dir(seq![]) is None,
{
    crate::text::ends_come_off(dir, "--manager-dir="@, dir);
    assert((seq![word] + rest).skip(1) =~= rest);
}

/// An option is found by its name where it is not hidden, the first one of that name.
pub proof fn options_are_found_by_name(args: Seq<ArgSpec>, name: Seq<char>, letter: char, i: int)
    ensures
        long_arg(args, name) matches Some(arg) ==> !arg.hidden && arg.long is Some
            && arg.long->0@ == name && args.contains(arg),
        short_arg(args, letter) matches Some(arg) ==> !arg.hidden && arg.short == Some(letter)
            && args.contains(arg),
        0 <= i < args.len() && !args[i].hidden && args[i].long is Some && args[i].long->0@ == name
            ==> long_arg(args, name) is Some,
        0 <= i < args.len() && !args[i].hidden && args[i].short == Some(letter) ==> short_arg(
            args,
            letter,
        ) is Some,
    decreases args.len(),
{
    if args.len() > 0 {
        let rest = args.skip(1);
        options_are_found_by_name(rest, name, letter, i - 1);
        assert(args[0] == args[0 as int]);
        if let Some(arg) = long_arg(rest, name) {
            let k = choose|k: int| 0 <= k < rest.len() && rest[k] == arg;
            assert(args[k + 1] == arg);
        }
        if let Some(arg) = short_arg(rest, letter) {
            let k = choose|k: int| 0 <= k < rest.len() && rest[k] == arg;
            assert(args[k + 1] == arg);
        }
        if 0 < i < args.len() {
            assert(rest[i - 1] == args[i]);
        }
    }
}

/// A word with two dashes names an option up to its equals sign, one with a dash and a
/// single letter names that letter.
pub proof fn words_name_options(name: Seq<char>, value: Seq<char>, letter: char)
    requires
        !name.contains('='),
    ensures
        long_name("--"@ + name) == Some(name),
        long_name("--"@ + name + seq!['='] + value) == Some(name),
        short_name(seq!['-', letter]) == Some(letter),
        name.len() > 0 && name[0] != '-' ==> long_name(name) is None && short_name(name) is None,
{
    reveal_strlit("--");
    reveal_strlit("-");
    crate::text::ends_come_off(name, "--"@, name);
    let rest = name + seq!['='] + value;
    crate::text::ends_come_off(rest, "--"@, rest);
    assert("--"@ + name + seq!['='] + value =~= "--"@ + rest);
    assert forall|i: int| 0 <= i < name.len() implies name[i] != '=' by {
        if name[i] == '=' {
            assert(name.contains(name[i]));
        }
    }
    crate::text::lemma_find_char_is(name, '=', name.len() as int);
    assert forall|i: int| 0 <= i < name.len() implies rest[i] != '=' by {
        assert(rest[i] == name[i]);
    }
    crate::text::lemma_find_char_is(rest, '=', name.len() as int);
    assert(rest.take(name.len() as int) =~= name);
    let short = seq!['-', letter];
    assert(short.take(1) =~= "-"@);
    assert(short.skip(1) =~= seq![letter]);
    if name.len() > 0 && name[0] != '-' {
        assert(!crate::text::has_prefix(name, "-"@)) by {
            if crate::text::has_prefix(name, "-"@) {
                assert(name.take(1)[0] == name[0]);
            }
        }
        assert(!crate::text::has_prefix(name, "--"@)) by {
            if crate::text::has_prefix(name, "--"@) {
                assert(name.take(2)[0] == name[0]);
            }
        }
    }
}

/// A command is found by its name where it is not hidden.
pub proof fn commands_are_found_by_name(commands: Seq<CommandSpec>, name: Seq<char>, i: int)
    ensures
        subcommand_named(commands, name) matches Some(command) ==> !command.hidden
            && command.name@ == name && commands.contains(command),
        0 <= i < commands.len() && !commands[i].hidden && commands[i].name@ == name
            ==> subcommand_named(commands, name) is Some,
    decreases commands.len(),
{
    if commands.len() > 0 {
        let rest = commands.skip(1);
        commands_are_found_by_name(rest, name, i - 1);
        assert(commands[0] == commands[0 as int]);
        if let Some(command) = subcommand_named(rest, name) {
            let k = choose|k: int| 0 <= k < rest.len() && rest[k] == command;
            assert(commands[k + 1] == command);
        }
        if 0 < i < commands.len() {
            assert(rest[i - 1] == commands[i]);
        }
    }
}

/// A command's name leads to the command, where words are counted anew. Any other plain
/// word counts. An option counts for nothing, and one that takes a value takes the next
/// word with it, unless the value stands behind its equals sign.
pub proof fn words_lead_to_commands(
    command: CommandSpec,
    word: Seq<char>,
    value: Seq<char>,
    rest: Seq<Seq<char>>,
    plain: Seq<Seq<char>>,
)
    requires
        word != "--"@,
    ensures
        ({
            let long = long_option(command, word);
            let short = short_option(command, word);
            let below = subcommand_named(command.subcommands@, word);
            let none = long is None && short is None;
            let dashed = crate::text::has_prefix(word, "-"@);
            &&& none && !dashed && below is Some ==> walked(
                command,
                seq![word] + rest,
                false,
                plain,
            ) == walked(below->0, rest, false, seq![])
            &&& none && !dashed && below is None ==> walked(
                command,
                seq![word] + rest,
                false,
                plain,
            ) == walked(command, rest, false, plain.push(word))
            &&& none && dashed ==> walked(command, seq![word] + rest, false, plain) == walked(
                command,
                rest,
                false,
                plain,
            )
            &&& long is Some && long->0.takes_value && !word.contains('=') ==> walked(
                command,
                seq![word, value] + rest,
                false,
                plain,
            ) == walked(command, rest, false, plain)
            &&& long is Some && (!long->0.takes_value || word.contains('=')) ==> walked(
                command,
                seq![word] + rest,
                false,
                plain,
            ) == walked(command, rest, false, plain)
            &&& long is None && short is Some && short->0.takes_value ==> walked(
                command,
                seq![word, value] + rest,
                false,
                plain,
            ) == walked(command, rest, false, plain)
            &&& long is None && short is Some && !short->0.takes_value ==> walked(
                command,
                seq![word] + rest,
                false,
                plain,
            ) == walked(command, rest, false, plain)
        }),
        walked(command, seq![], false, plain) == (command, plain),
{
    reveal_with_fuel(walked, 3);
    assert((seq![word] + rest).skip(1) =~= rest);
    let two = seq![word, value] + rest;
    assert(two.skip(1) =~= seq![value] + rest);
    assert((seq![value] + rest).skip(1) =~= rest);
    assert(two.skip(1)[0] == value);
}

/// An option that is not hidden is offered under each of its names, and a value that is
/// not hidden with its help, in order.
pub proof fn seen_options_and_values_are_offered(
    args: Seq<ArgSpec>,
    arg: ArgSpec,
    choices: Seq<crate::commands::PossibleChoice>,
    choice: crate::commands::PossibleChoice,
)
    ensures
        arg.hidden ==> option_names(args.push(arg)) == option_names(args),
        !arg.hidden && arg.long is Some && arg.short is None ==> option_names(args.push(arg))
            == option_names(args).push(
            CandidateModel { value: "--"@ + arg.long->0@, description: arg.help@ },
        ),
        !arg.hidden && arg.long is None && arg.short is Some ==> option_names(args.push(arg))
            == option_names(args).push(
            CandidateModel { value: "-"@ + seq![arg.short->0], description: arg.help@ },
        ),
        !arg.hidden && arg.long is Some && arg.short is Some ==> option_names(args.push(arg))
            == option_names(args).push(
            CandidateModel { value: "--"@ + arg.long->0@, description: arg.help@ },
        ).push(CandidateModel { value: "-"@ + seq![arg.short->0], description: arg.help@ }),
        choice.hidden ==> choice_list(choices.push(choice)) == choice_list(choices),
        !choice.hidden ==> choice_list(choices.push(choice)) == choice_list(choices).push(
            CandidateModel { value: choice.name@, description: choice.help@ },
        ),
{
    assert(args.push(arg).drop_last() =~= args);
    assert(choices.push(choice).drop_last() =~= choices);
    let after = option_names(args.push(arg));
    let before = option_names(args);
    if !arg.hidden {
        let names = names_of(arg);
        assert(after == before + names);
        if arg.long is Some && arg.short is None {
            assert(after =~= before.push(names[0]));
        }
        if arg.long is None && arg.short is Some {
            assert(after =~= before.push(names[0]));
        }
        if arg.long is Some && arg.short is Some {
            assert(after =~= before.push(names[0]).push(names[1]));
        }
    }
}

/// Slots and targets are looked up for arguments that name them, files and directories
/// for those that are paths.
pub proof fn values_are_looked_up_by_kind(arg: ArgSpec)
    ensures
        arg.id@ == "slot"@ || arg.id@ == "slots"@ ==> completion_of(arg) == Some(
            ValueCompletion::Slots,
        ),
        arg.id@ == "target"@ ==> completion_of(arg) == Some(ValueCompletion::Targets),
        arg.id@ != "slot"@ && arg.id@ != "slots"@ && arg.id@ != "target"@ ==> {
            &&& arg.hint == ArgHint::FilePath ==> completion_of(arg) == Some(
                ValueCompletion::Path(PathKind::Files),
            )
            &&& arg.hint == ArgHint::DirPath ==> completion_of(arg) == Some(
                ValueCompletion::Path(PathKind::Directories),
            )
            &&& arg.hint == ArgHint::Other ==> completion_of(arg) is None
        },
{
    reveal_strlit("slot");
    reveal_strlit("slots");
    reveal_strlit("target");
    assert("slot"@.len() == 4 && "slots"@.len() == 5 && "target"@.len() == 6);
}

/// A value behind an equals sign is completed with the option in front of it; a word
/// behind an option is completed by itself.
pub proof fn values_are_completed_where_they_stand(
    root: CommandSpec,
    launcher: CommandSpec,
    name: Seq<char>,
    value: Seq<char>,
    words: Seq<Seq<char>>,
    what: ValueCompletion,
)
    requires
        !name.contains('='),
    ensures
        ({
            let found = long_arg(active(root, launcher, words).args@, name);
            let typed = "--"@ + name + seq!['='] + value;
            let answer = attached_answer(root, launcher, typed, words);
            &&& found is None ==> answer is None
            &&& found is Some && !found->0.takes_value ==> answer is None
            &&& found is Some && found->0.takes_value && completion_of(found->0) == Some(what)
                ==> answer == Some(
                (AnswerModel::LookUp {
                    what,
                    listed: value,
                    prefix: value,
                    head: "--"@ + name + "="@,
                }),
            )
        }),
        ({
            let found = long_arg(active(root, launcher, words).args@, name);
            let answer = following_answer(root, launcher, value, words.push("--"@ + name));
            found is Some && found->0.takes_value && completion_of(found->0) == Some(what)
                ==> answer == Some(
                (AnswerModel::LookUp { what, listed: value, prefix: value, head: seq![] }),
            )
        }),
        following_answer(root, launcher, value, seq![]) is None,
{
    reveal_strlit("--");
    words_name_options(name, value, 'a');
    let rest = name + seq!['='] + value;
    crate::text::ends_come_off(rest, "--"@, rest);
    assert("--"@ + name + seq!['='] + value =~= "--"@ + rest);
    assert forall|i: int| 0 <= i < name.len() implies rest[i] != '=' by {
        if rest[i] == '=' {
            assert(name[i] == rest[i]);
            assert(name.contains(name[i]));
        }
    }
    crate::text::lemma_find_char_is(rest, '=', name.len() as int);
    assert(rest.take(name.len() as int) =~= name);
    assert(rest.skip((name.len() + 1) as int) =~= value);
    let more = words.push("--"@ + name);
    assert(more.drop_last() =~= words);
    assert(more.last() == "--"@ + name);
}

/// The plain words go to the plain arguments in order, and all further ones to the
/// last.
pub proof fn plain_words_go_to_plain_arguments(args: Seq<ArgSpec>, arg: ArgSpec, index: nat)
    ensures
        arg.positional && !arg.hidden ==> plain_args(args.push(arg)) == plain_args(args).push(arg),
        !arg.positional || arg.hidden ==> plain_args(args.push(arg)) == plain_args(args),
        index < plain_args(args).len() ==> plain_arg(args, index) == Some(
            plain_args(args)[index as int],
        ),
        index >= plain_args(args).len() > 0 ==> plain_arg(args, index) == Some(
            plain_args(args).last(),
        ),
        plain_args(args).len() == 0 ==> plain_arg(args, index) is None,
{
    assert(args.push(arg).drop_last() =~= args);
}

/// Behind two dashes nothing is offered. A word with a dash is completed to options,
/// any other to commands where there are some, else to what the argument takes.
pub proof fn what_is_offered_depends_on_the_word(
    root: CommandSpec,
    launcher: CommandSpec,
    current: Seq<char>,
    words: Seq<Seq<char>>,
)
    ensures
        words.contains("--"@) ==> word_answer(root, launcher, current, words) == AnswerModel::Done(
            seq![],
        ),
        ({
            let place = walked(root, words, false, seq![]).0;
            let answer = management_answer(root, current, words);
            &&& crate::text::has_prefix(current, "-"@) ==> answer == AnswerModel::Done(
                crate::candidates::filtered(option_list(place.args@), current),
            )
            &&& !crate::text::has_prefix(current, "-"@) && command_list(place.subcommands@).len() > 0
                ==> answer == AnswerModel::Done(
                crate::candidates::filtered(command_list(place.subcommands@), current),
            )
        }),
        crate::text::has_prefix(current, "-"@) ==> launcher_answer(root, launcher, current)
            == AnswerModel::Done(
            crate::candidates::filtered(option_list(launcher.args@), current),
        ),
        !crate::text::has_prefix(current, "-"@) ==> launcher_answer(root, launcher, current)
            == AnswerModel::Done(
            crate::candidates::filtered(command_list(root.subcommands@), current),
        ),
{
}

} // verus!
