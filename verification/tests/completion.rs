//! Completing command lines.

use cx::candidates::expand_tilde;
use cx::candidates::path_candidates;
use cx::candidates::print_candidates;
use cx::candidates::slot_candidates;
use cx::candidates::split_path_prefix;
use cx::candidates::target_candidates;
use cx::candidates::Candidate;
use cx::candidates::DirEntry;
use cx::candidates::PathKind;
use cx::cli::CompleteArgs;
use cx::cli::CompleteKind;
use cx::cli::CompletionShell;
use cx::commands::launcher_spec;
use cx::commands::ArgHint;
use cx::commands::ArgSpec;
use cx::commands::CommandSpec;
use cx::commands::PossibleChoice;
use cx::completion::finish;
use cx::completion::print_script;
use cx::completion::word_candidates;
use cx::completion::words_before_current;
use cx::completion::Answer;
use cx::completion::ValueCompletion;

fn words(items: &[&str]) -> Vec<String> {
    items.iter().map(|item| item.to_string()).collect()
}

fn option(id: &str, help: &str, takes_value: bool) -> ArgSpec {
    ArgSpec {
        id: id.replace('-', "_"),
        long: Some(id.to_string()),
        short: None,
        help: help.to_string(),
        hint: ArgHint::Other,
        takes_value,
        hidden: false,
        positional: false,
        choices: Vec::new(),
    }
}

fn positional(id: &str) -> ArgSpec {
    ArgSpec {
        id: id.to_string(),
        long: None,
        short: None,
        help: String::new(),
        hint: ArgHint::Other,
        takes_value: true,
        hidden: false,
        positional: true,
        choices: Vec::new(),
    }
}

fn command(name: &str, about: &str, args: Vec<ArgSpec>, below: Vec<CommandSpec>) -> CommandSpec {
    CommandSpec {
        name: name.to_string(),
        about: about.to_string(),
        hidden: false,
        args,
        subcommands: below,
    }
}

fn root() -> CommandSpec {
    let mut sort = option("sort", "Sort status output", true);
    sort.choices = vec![
        PossibleChoice {
            name: "score".to_string(),
            help: "Show the best-scoring slots first".to_string(),
            hidden: false,
        },
        PossibleChoice {
            name: "rotation".to_string(),
            help: "Preserve rotation.txt or explicit argument order".to_string(),
            hidden: false,
        },
    ];
    let mut out = option("out", "Bundle directory", true);
    out.hint = ArgHint::DirPath;
    let mut hidden = command("__complete", "Internal", Vec::new(), Vec::new());
    hidden.hidden = true;
    command(
        "cx",
        "",
        Vec::new(),
        vec![
            command(
                "status",
                "Query every slot and show current availability",
                vec![sort, positional("slots")],
                Vec::new(),
            ),
            command(
                "remove",
                "Remove a slot from rotation",
                vec![
                    option(
                        "delete-files",
                        "Also delete the slot directory and its auth files",
                        false,
                    ),
                    positional("slot"),
                ],
                Vec::new(),
            ),
            command("login", "Run codex login", vec![positional("slot")], Vec::new()),
            command(
                "desktop",
                "Launch ChatGPT Desktop",
                vec![option("slot", "Force a slot", true)],
                Vec::new(),
            ),
            command(
                "transfer",
                "",
                Vec::new(),
                vec![command("export", "", vec![out, positional("slots")], Vec::new())],
            ),
            command(
                "target",
                "",
                Vec::new(),
                vec![
                    command(
                        "add",
                        "",
                        vec![positional("target"), positional("slots")],
                        Vec::new(),
                    ),
                    command("show", "", vec![positional("target")], Vec::new()),
                ],
            ),
            hidden,
        ],
    )
}

fn complete(typed: &[&str], current: &str, dirs: &[&str], targets: &[&str]) -> Vec<(String, String)> {
    let args = CompleteArgs {
        kind: CompleteKind::Words,
        manager_dir: Some("/m".to_string()),
        shell: Some(CompletionShell::Bash),
        cursor: Some(typed.len()),
        current: Some(current.to_string()),
        words: words(typed),
    };
    let asked = word_candidates(&args, &root(), &launcher_spec());
    assert_eq!(asked.manager_dir.as_deref(), Some("/m"));
    let found = match asked.answer {
        Answer::Done(found) => found,
        Answer::LookUp { what, listed: _, prefix, head } => {
            let all = match what {
                ValueCompletion::Slots => {
                    slot_candidates(&Vec::new(), &words(dirs), &words(dirs))
                }
                ValueCompletion::Targets => target_candidates(&words(targets)),
                ValueCompletion::Path(_) => Vec::new(),
            };
            finish(all, &prefix, &head)
        }
    };
    pairs(found)
}

fn pairs(found: Vec<Candidate>) -> Vec<(String, String)> {
    found.into_iter().map(|item| (item.value, item.description)).collect()
}

fn pair(value: &str, description: &str) -> (String, String) {
    (value.to_string(), description.to_string())
}

#[test]
fn slot_candidates_describe_rotation_and_extra_dirs() {
    let candidates = pairs(slot_candidates(
        &words(&["bus1", "missing", "bad slot"]),
        &words(&["bus1", "dia1", "bad slot"]),
        &words(&["bus1", "dia1", "bad slot"]),
    ));

    assert!(candidates.contains(&pair("bus1", "in rotation")));
    assert!(candidates.contains(&pair("dia1", "slot directory")));
    assert!(candidates.contains(&pair("missing", "in rotation, missing home")));
    assert!(!candidates.iter().any(|candidate| candidate.0 == "bad slot"));
}

#[test]
fn root_completion_comes_from_clap_commands() {
    let candidates = complete(&["cx"], "st", &[], &[]);

    assert!(candidates.iter().any(|candidate| {
        candidate.0 == "status"
            && candidate.1.starts_with("Query every slot and show current availability")
    }));
}

#[test]
fn hidden_commands_are_left_out() {
    assert!(complete(&["cx"], "__", &[], &[]).is_empty());
}

#[test]
fn management_options_come_from_clap_command() {
    let candidates = complete(&["cx", "remove"], "--d", &[], &[]);

    assert_eq!(
        candidates,
        vec![pair("--delete-files", "Also delete the slot directory and its auth files")]
    );
}

#[test]
fn help_is_among_the_options() {
    assert_eq!(complete(&["cx", "remove"], "--h", &[], &[]), vec![pair("--help", "Print help")]);
}

#[test]
fn value_enum_options_complete_possible_values() {
    let candidates = complete(&["cx", "status", "--sort"], "r", &[], &[]);

    assert_eq!(
        candidates,
        vec![pair("rotation", "Preserve rotation.txt or explicit argument order")]
    );
}

#[test]
fn attached_values_keep_their_option() {
    let candidates = complete(&["cx", "status"], "--sort=r", &[], &[]);

    assert_eq!(
        candidates,
        vec![pair("--sort=rotation", "Preserve rotation.txt or explicit argument order")]
    );
}

#[test]
fn login_positional_completes_slot_names_from_schema_arg_id() {
    let candidates = complete(&["cx", "login"], "d", &["dia1"], &[]);

    assert_eq!(candidates, vec![pair("dia1", "slot directory")]);
}

#[test]
fn repeated_slot_positionals_complete_slot_names() {
    let candidates = complete(&["cx", "status", "bus1"], "d", &["bus1", "dia1"], &[]);

    assert_eq!(candidates, vec![pair("dia1", "slot directory")]);
}

#[test]
fn nested_slot_positionals_complete_slot_names() {
    let transfer = complete(
        &["cx", "transfer", "export", "--out", "/tmp/bundle"],
        "b",
        &["bus1"],
        &[],
    );
    let target = complete(&["cx", "target", "add", "work"], "b", &["bus1"], &[]);

    assert_eq!(transfer, vec![pair("bus1", "slot directory")]);
    assert_eq!(target, transfer);
}

#[test]
fn slot_options_complete_slot_names_in_launcher_and_management_commands() {
    let launcher = complete(&["cx", "--slot"], "d", &["dia1"], &[]);
    let desktop = complete(&["cx", "desktop", "--slot"], "d", &["dia1"], &[]);

    assert_eq!(launcher, vec![pair("dia1", "slot directory")]);
    assert_eq!(desktop, launcher);
}

#[test]
fn target_positionals_complete_target_names() {
    let candidates = complete(&["cx", "target", "show"], "re", &[], &["research"]);

    assert_eq!(candidates, vec![pair("research", "target config")]);
}

#[test]
fn completion_stops_at_codex_arg_boundary() {
    assert!(complete(&["cx", "--"], "-", &[], &[]).is_empty());
}

#[test]
fn generated_shell_scripts_are_protocol_shims() {
    for shell in [CompletionShell::Fish, CompletionShell::Zsh, CompletionShell::Bash] {
        let script = print_script(shell);
        assert!(script.contains("__complete words"));
        assert!(!script.contains("login remove"));
        assert!(!script.contains("target show"));
        assert!(!script.contains("--delete-files"));
        assert!(!script.contains("Query every slot"));
    }
}

#[test]
fn shells_count_words_in_their_own_way() {
    let typed = words(&["cx", "status", "st"]);
    assert_eq!(
        words_before_current(CompletionShell::Bash, Some(2), "st", &typed),
        words(&["cx", "status"])
    );
    assert_eq!(
        words_before_current(CompletionShell::Zsh, Some(3), "st", &typed),
        words(&["cx", "status"])
    );
    assert_eq!(
        words_before_current(CompletionShell::Fish, None, "st", &typed),
        words(&["cx", "status"])
    );
}

#[test]
fn paths_are_completed() {
    assert_eq!(split_path_prefix("a/b/c"), ("a/b/".to_string(), "c".to_string()));
    assert_eq!(expand_tilde("~/x", "/home/user"), "/home/user/x");
    let entries = vec![
        DirEntry { name: "docs".to_string(), is_dir: true },
        DirEntry { name: "data.txt".to_string(), is_dir: false },
        DirEntry { name: ".hidden".to_string(), is_dir: true },
    ];
    let files = pairs(path_candidates("a/d", PathKind::Files, &entries));
    let dirs = pairs(path_candidates("a/d", PathKind::Directories, &entries));
    assert_eq!(files.len(), 2);
    assert_eq!(dirs.len(), 1);
    assert!(dirs[0].0.starts_with("a/docs"));
}

#[test]
fn lines_of_candidates_are_clean() {
    let items = vec![Candidate { value: "a\tb".to_string(), description: "c\nd".to_string() }];
    assert_eq!(print_candidates(CompleteKind::Words, &items), vec!["a b\tc d"]);
    assert_eq!(print_candidates(CompleteKind::Slots, &items), vec!["a b"]);
}
