//! Putting `cx` where the shell finds it.

use vstd::prelude::*;

use crate::cli::InstallArgs;
use crate::paths::join_path;
use crate::text::concat2;

verus! {

/// The directory that `cx` is put into.
pub open spec fn bin_dir_of(asked: Option<Seq<char>>, home: Seq<char>) -> Seq<char> {
    match asked {
        Some(dir) => dir,
        None => crate::paths::joined_path(home, ".local/bin"@),
    }
}

/// The directory that `cx` is put into.
pub fn install_dir(args: &InstallArgs, home: &str) -> (out: String)
    ensures
        out@ == bin_dir_of(crate::text::opt_text(args.bin_dir), home@),
{
    match &args.bin_dir {
        Some(dir) => dir.clone(),
        None => join_path(home, ".local/bin"),
    }
}

/// The file that `cx` becomes.
pub fn install_dest(bin_dir: &str) -> (out: String)
    ensures
        out@ == crate::paths::joined_path(bin_dir@, "cx"@),
{
    join_path(bin_dir, "cx")
}

/// What is done about the file.
#[derive(Clone, Copy, Debug, PartialEq, Eq, Structural)]
pub enum InstallStep {
    /// It is `cx` already.
    Keep,
    /// `cx` is copied there.
    Copy,
}

/// What is done about the file: nothing where it is `cx` itself, and another file is
/// replaced only where that is asked for.
pub fn install(dest: &str, same_file: bool, is_there: bool, force: bool) -> (out: Result<
    InstallStep,
    String,
>)
    ensures
        match out {
            Ok(step) => (same_file || !is_there || force) && step == (if same_file {
                InstallStep::Keep
            } else {
                InstallStep::Copy
            }),
            Err(message) => !same_file && is_there && !force && message@ == dest@
                + " already exists; pass --force to replace it"@,
        },
{
    if same_file {
        Ok(InstallStep::Keep)
    } else if is_there && !force {
        Err(concat2(dest, " already exists; pass --force to replace it"))
    } else {
        Ok(InstallStep::Copy)
    }
}

/// What is said once it is done.
pub fn install_line(step: InstallStep, dest: &str) -> (out: String)
    ensures
        out@ == (match step {
            InstallStep::Keep => "already installed: "@,
            InstallStep::Copy => "installed: "@,
        }) + dest@,
{
    match step {
        InstallStep::Keep => concat2("already installed: ", dest),
        InstallStep::Copy => concat2("installed: ", dest),
    }
}

/// The program goes where it was asked to go, and else below the home.
pub proof fn programs_go_where_asked(dir: Seq<char>, home: Seq<char>)
    ensures
        bin_dir_of(Some(dir), home) == dir,
        home.len() > 0 && home.last() != '/' ==> bin_dir_of(None, home) == home + "/.local/bin"@,
{
    reveal_strlit(".local/bin");
    reveal_strlit("/.local/bin");
    if home.len() > 0 && home.last() != '/' {
        assert(bin_dir_of(None, home) =~= home + "/.local/bin"@);
    }
}

} // verus!
