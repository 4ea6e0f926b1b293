//! What a call of `cx` is for.

use vstd::prelude::*;

use crate::cli::Command;
use crate::cli::PrimeCommand;
use crate::cli::StatsArgs;
use crate::cli::StatusSort;
use crate::cli::TargetCommand;
use crate::cli::TransferCommand;
use crate::commands::is_management_entry_arg;
use crate::report::print_no_available;
use crate::selector::choose_result;
use crate::sorting::sort_items;
use crate::text::copy_all;
use crate::text::copy_of;
use crate::usage::SlotResult;

verus! {

/// What a call is for.
#[derive(Clone, Copy, Debug, PartialEq, Eq, Structural)]
pub enum Entry {
    /// It stands between the desktop app and Codex.
    Proxy,
    /// It starts Codex.
    Launcher,
    /// It manages slots.
    Management,
}

/// What a call is for.
pub fn entry(proxy_enabled: bool, first_arg: Option<&str>) -> (out: Entry)
    ensures
        out == (if proxy_enabled {
            Entry::Proxy
        } else if match first_arg {
            Some(word) => word@ == "help"@ || word@ == "-h"@ || word@ == "--help"@
                || crate::commands::is_command_name(word@),
            None => false,
        } {
            Entry::Management
        } else {
            Entry::Launcher
        }),
{
    if proxy_enabled {
        Entry::Proxy
    } else if is_management_entry_arg(first_arg) {
        Entry::Management
    } else {
        Entry::Launcher
    }
}

/// Whether a command first brings what is kept up to date.
pub open spec fn starts_up(command: Command) -> bool {
    match command {
        Command::Desktop(_) => false,
        Command::MergeSqlite(_) => false,
        Command::Install(_) => false,
        Command::Completions(_) => false,
        Command::Complete(_) => false,
        _ => true,
    }
}

/// Whether a command first of all brings what is kept up to date. The desktop does so
/// later, once it knows that the application does not run.
pub fn runs_startup(command: &Command) -> (out: bool)
    ensures
        out == starts_up(*command),
{
    match command {
        Command::Desktop(_) => false,
        Command::MergeSqlite(_) => false,
        Command::Install(_) => false,
        Command::Completions(_) => false,
        Command::Complete(_) => false,
        _ => true,
    }
}

/// The directory that a command was told to manage.
pub open spec fn told_directory(command: Command) -> Option<Seq<char>> {
    let asked = match command {
        Command::Status(args) => args.query.manager_dir,
        Command::Stats(args) => args.manager_dir,
        Command::Prime(args) => match args.command {
            PrimeCommand::Plan(args) => args.schedule.manager_dir,
            PrimeCommand::Install(args) => args.schedule.manager_dir,
            PrimeCommand::Run(args) => args.manager_dir,
            PrimeCommand::Status(args) => args.manager_dir,
            PrimeCommand::Uninstall(args) => args.manager_dir,
        },
        Command::Select(args) => args.manager_dir,
        Command::Add(args) => args.manager_dir,
        Command::Remove(args) => args.manager_dir,
        Command::Login(args) => args.manager_dir,
        Command::Desktop(args) => args.manager_dir,
        Command::Transfer(args) => match args.command {
            TransferCommand::Export(args) => args.manager_dir,
            TransferCommand::Import(args) => args.manager_dir,
        },
        Command::Target(args) => match args.command {
            TargetCommand::List(args) => args.manager_dir,
            TargetCommand::Show(args) => args.manager_dir,
            TargetCommand::Add(args) => args.manager_dir,
            TargetCommand::Remove(args) => args.manager_dir,
        },
        Command::Doctor(args) => args.manager_dir,
        Command::MergeSqlite(args) => args.manager_dir,
        Command::Complete(args) => args.manager_dir,
        _ => None,
    };
    match command {
        Command::Pat(args) => args.command.manager_dir_text(),
        _ => crate::text::opt_text(asked),
    }
}

fn copied(dir: &Option<String>) -> (out: Option<String>)
    ensures
        crate::text::opt_text(out) == crate::text::opt_text(*dir),
{
    crate::text::opt_copy(dir)
}

/// The directory that a command was told to manage.
pub fn manager_dir(command: &Command) -> (out: Option<String>)
    ensures
        crate::text::opt_text(out) == told_directory(*command),
{
    match command {
        Command::Status(args) => copied(&args.query.manager_dir),
        Command::Stats(args) => copied(&args.manager_dir),
        Command::Prime(args) => match &args.command {
            PrimeCommand::Plan(args) => copied(&args.schedule.manager_dir),
            PrimeCommand::Install(args) => copied(&args.schedule.manager_dir),
            PrimeCommand::Run(args) => copied(&args.manager_dir),
            PrimeCommand::Status(args) => copied(&args.manager_dir),
            PrimeCommand::Uninstall(args) => copied(&args.manager_dir),
        },
        Command::Select(args) => copied(&args.manager_dir),
        Command::Add(args) => copied(&args.manager_dir),
        Command::Remove(args) => copied(&args.manager_dir),
        Command::Login(args) => copied(&args.manager_dir),
        Command::Pat(args) => copied(args.command.manager_dir()),
        Command::Desktop(args) => copied(&args.manager_dir),
        Command::Transfer(args) => match &args.command {
            TransferCommand::Export(args) => copied(&args.manager_dir),
            TransferCommand::Import(args) => copied(&args.manager_dir),
        },
        Command::Target(args) => match &args.command {
            TargetCommand::List(args) => copied(&args.manager_dir),
            TargetCommand::Show(args) => copied(&args.manager_dir),
            TargetCommand::Add(args) => copied(&args.manager_dir),
            TargetCommand::Remove(args) => copied(&args.manager_dir),
        },
        Command::Doctor(args) => copied(&args.manager_dir),
        Command::MergeSqlite(args) => copied(&args.manager_dir),
        Command::Complete(args) => copied(&args.manager_dir),
        Command::Install(_) => None,
        Command::Completions(_) => None,
    }
}

// ---------------------------------------------------------------------------
// Slots
// ---------------------------------------------------------------------------

/// The order of scores, the highest first.
pub open spec fn score_order() -> spec_fn(SlotResult, SlotResult) -> bool {
    |a: SlotResult, b: SlotResult| a.score.rank() > b.score.rank()
}

fn scores_higher(a: &SlotResult, b: &SlotResult) -> (out: bool)
    ensures
        out == (a.score.rank() > b.score.rank()),
{
    a.score.order() > b.score.order()
}

/// Results by score, the highest first, and otherwise in the order they were in.
pub fn sort_by_score_desc(results: Vec<SlotResult>) -> (out: Vec<SlotResult>)
    ensures
        out@ == crate::sorting::sorted(results@, score_order()),
{
    sort_items(results, scores_higher, Ghost(score_order()))
}

/// Results in the order that was asked for.
pub fn sort_results(results: Vec<SlotResult>, sort: StatusSort) -> (out: Vec<SlotResult>)
    ensures
        out@ == (match sort {
            StatusSort::Score => crate::sorting::sorted(results@, score_order()),
            StatusSort::Rotation => results@,
        }),
{
    match sort {
        StatusSort::Score => sort_by_score_desc(results),
        StatusSort::Rotation => results,
    }
}

/// The name of the slot that is chosen.
pub fn chosen_slot(results: &Vec<SlotResult>) -> (out: Option<String>)
    ensures
        match out {
            Some(name) => exists|i: int|
                #[trigger] crate::selector::is_choice(results@, seq![], i) && 0 <= i
                    < results@.len() && results@[i]@.slot == name@,
            None => forall|i: int| !#[trigger] crate::selector::is_choice(results@, seq![], i),
        },
{
    match choose_result(results) {
        Some(result) => Some(result.slot.clone()),
        None => None,
    }
}

/// What `cx select` says: the name of a slot, or the lines on why there is none and
/// the error that it ends with.
#[derive(Debug)]
pub enum SelectOutcome {
    Chosen { slot: String },
    Nothing { lines: Vec<String>, error: String },
}

/// What `cx select` says.
pub fn select_outcome(results: &Vec<SlotResult>) -> (out: SelectOutcome)
    ensures
        match out {
            SelectOutcome::Chosen { slot } => exists|i: int|
                #[trigger] crate::selector::is_choice(results@, seq![], i) && 0 <= i
                    < results@.len() && results@[i]@.slot == slot@,
            SelectOutcome::Nothing { lines, error } => (forall|i: int|
                !#[trigger] crate::selector::is_choice(results@, seq![], i)) && error@
                == "no available slot"@ && crate::text::texts(lines@) == seq![
                "cx: no available slots"@,
            ] + results@.map_values(
                |result: SlotResult| crate::report::unavailable_line(result),
            ),
        },
{
    match chosen_slot(results) {
        Some(slot) => SelectOutcome::Chosen { slot },
        None => SelectOutcome::Nothing {
            lines: print_no_available(results),
            error: copy_of("no available slot"),
        },
    }
}

/// The target whose slots `cx stats` is about, where no slots are named.
pub fn stats_target(args: &StatsArgs) -> (out: Option<String>)
    ensures
        crate::text::opt_text(out) == (if args.slots@.len() == 0 {
            crate::text::opt_text(args.target)
        } else {
            None
        }),
{
    if args.slots.len() == 0 {
        copied(&args.target)
    } else {
        None
    }
}

/// The slots that `cx stats` is about, given those of the target.
pub fn stats_slots(args: &StatsArgs, target_slots: &Option<Vec<String>>) -> (out: Vec<String>)
    ensures
        crate::text::texts(out@) == (match target_slots {
            Some(slots) => if args.slots@.len() == 0 {
                crate::text::texts(slots@)
            } else {
                crate::text::texts(args.slots@)
            },
            None => crate::text::texts(args.slots@),
        }),
{
    match target_slots {
        Some(slots) => if args.slots.len() == 0 {
            copy_all(slots)
        } else {
            copy_all(&args.slots)
        },
        None => copy_all(&args.slots),
    }
}

/// What is shown while statistics are collected.
pub fn stats_progress(calibrate: bool) -> (out: &'static str)
    ensures
        out@ == (if calibrate {
            "calibrating token mix"@
        } else {
            "collecting stats"@
        }),
{
    if calibrate {
        "calibrating token mix"
    } else {
        "collecting stats"
    }
}

// ---------------------------------------------------------------------------
// Laws
// ---------------------------------------------------------------------------

/// Slots that are listed by score are listed from the highest to the lowest, and none
/// is left out.
pub proof fn slots_are_listed_by_score(results: Seq<SlotResult>)
    ensures
        ({
            let listed = crate::sorting::sorted(results, score_order());
            &&& listed.to_multiset() == results.to_multiset()
            &&& listed.len() == results.len()
            &&& forall|i: int, j: int|
                0 <= i < j < listed.len() ==> (#[trigger] listed[i]).score.rank() >= (
                #[trigger] listed[j]).score.rank()
        }),
{
    assert(crate::sorting::is_order(score_order()));
    crate::sorting::sorting_keeps_items(results, score_order());
    let listed = crate::sorting::sorted(results, score_order());
    assert forall|i: int, j: int| 0 <= i < j < listed.len() implies (#[trigger] listed[i]).score.rank()
        >= (#[trigger] listed[j]).score.rank() by {
        assert(!(score_order())(listed[j], listed[i]));
    }
}

/// Commands that only set things up, print or move files start without looking at the
/// slots first; all others look.
pub proof fn commands_look_at_the_slots_first(command: Command)
    ensures
        starts_up(command) <==> !(command is Desktop || command is MergeSqlite || command is Install
            || command is Completions || command is Complete),
{
}

/// A command is about the directory that it was told.
pub proof fn commands_use_the_directory_they_are_told(command: Command)
    ensures
        command matches Command::Select(args) ==> told_directory(command) == crate::text::opt_text(
            args.manager_dir,
        ),
        command matches Command::Status(args) ==> told_directory(command) == crate::text::opt_text(
            args.query.manager_dir,
        ),
        command matches Command::Stats(args) ==> told_directory(command) == crate::text::opt_text(
            args.manager_dir,
        ),
        command matches Command::Add(args) ==> told_directory(command) == crate::text::opt_text(
            args.manager_dir,
        ),
        command matches Command::Remove(args) ==> told_directory(command) == crate::text::opt_text(
            args.manager_dir,
        ),
        command matches Command::Login(args) ==> told_directory(command) == crate::text::opt_text(
            args.manager_dir,
        ),
        command matches Command::Desktop(args) ==> told_directory(command) == crate::text::opt_text(
            args.manager_dir,
        ),
        command matches Command::Doctor(args) ==> told_directory(command) == crate::text::opt_text(
            args.manager_dir,
        ),
        command matches Command::MergeSqlite(args) ==> told_directory(command)
            == crate::text::opt_text(args.manager_dir),
        command matches Command::Complete(args) ==> told_directory(command)
            == crate::text::opt_text(args.manager_dir),
        command is Install || command is Completions ==> told_directory(command) is None,
{
}

} // verus!
