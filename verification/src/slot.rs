//! The layout of slots: names, links to shared files, and the rotation.
//!
//! What is on disk is observed by the caller. The functions here say what is
//! wrong with it, and which steps put it right.

use vstd::prelude::*;

use crate::cli::AddArgs;
use crate::cli::RemoveArgs;
use crate::envfile::write_env_file;
use crate::lines::join;
use crate::lines::split_lines;
use crate::lines::trim;
use crate::paths::join_path;
use crate::paths::same_path;
use crate::paths::ManagerPaths;
use crate::shared::shared_resources;
use crate::shared::SharedResourceKind;
use crate::shared::SlotCreationPolicy;
use crate::text::chars_of;
use crate::text::concat2;
use crate::text::concat3;
use crate::text::concat4;
use crate::text::push_text;
use crate::text::replace_all;
use crate::text::same;
use crate::text::string_of;

verus! {

// ---------------------------------------------------------------------------
// Names
// ---------------------------------------------------------------------------

/// Whether `c` may stand in the name of a slot.
pub open spec fn is_slot_char(c: char) -> bool {
    ('a' <= c <= 'z') || ('A' <= c <= 'Z') || ('0' <= c <= '9') || c == '.' || c == '_' || c == '-'
}

/// Whether `name` can be the name of a slot.
pub open spec fn is_slot_name(name: Seq<char>) -> bool {
    name.len() > 0 && forall|i: int| 0 <= i < name.len() ==> is_slot_char(#[trigger] name[i])
}

/// Why `name` is no name of a slot.
pub open spec fn bad_name(name: Seq<char>) -> Seq<char> {
    "invalid slot name: "@ + name
}

/// Accepts the names that slots can have.
pub fn validate_slot_name(slot: &str) -> (out: Result<(), String>)
    ensures
        out is Ok == is_slot_name(slot@),
        out matches Err(message) ==> message@ == bad_name(slot@),
{
    let chars = chars_of(slot);
    let mut i: usize = 0;
    while i < chars.len()
        invariant
            i <= chars.len(),
            chars@ == slot@,
            forall|j: int| 0 <= j < i ==> is_slot_char(#[trigger] slot@[j]),
        decreases chars.len() - i,
    {
        let c = chars[i];
        let fine = (c >= 'a' && c <= 'z') || (c >= 'A' && c <= 'Z') || (c >= '0' && c <= '9') || c
            == '.' || c == '_' || c == '-';
        if !fine {
            proof {
                assert(!is_slot_char(slot@[i as int]));
            }
            return Err(concat2("invalid slot name: ", slot));
        }
        i += 1;
    }
    if chars.len() == 0 {
        return Err(concat2("invalid slot name: ", slot));
    }
    Ok(())
}

/// The name of a slot holds no separator of paths, so that a slot lies directly
/// below the directory of slots.
pub proof fn slot_names_hold_no_slash(name: Seq<char>)
    requires
        is_slot_name(name),
    ensures
        !name.contains('/'),
{
    if name.contains('/') {
        let i = choose|i: int| 0 <= i < name.len() && name[i] == '/';
        assert(is_slot_char(name[i]));
    }
}

// ---------------------------------------------------------------------------
// What is on disk
// ---------------------------------------------------------------------------

/// What stands where a slot should have a link.
#[derive(Debug)]
pub enum SlotEntry {
    Absent,
    /// A file or directory of its own.
    Private,
    /// A link and where it leads.
    Link(String),
    /// A link that cannot be read.
    UnreadableLink,
}

/// What stands where a slot should have a link, over mathematical values.
pub enum EntryModel {
    Absent,
    Private,
    Link(Seq<char>),
    UnreadableLink,
}

impl View for SlotEntry {
    type V = EntryModel;

    open spec fn view(&self) -> EntryModel {
        match self {
            SlotEntry::Absent => EntryModel::Absent,
            SlotEntry::Private => EntryModel::Private,
            SlotEntry::Link(target) => EntryModel::Link(target@),
            SlotEntry::UnreadableLink => EntryModel::UnreadableLink,
        }
    }
}

/// The two sides of a shared file or directory.
#[derive(Debug)]
pub struct ResourceState {
    /// Whether the shared side exists, links followed.
    pub canonical_exists: bool,
    /// Whether the shared side is itself a link.
    pub canonical_is_link: bool,
    pub slot: SlotEntry,
}

/// The two sides of a shared file or directory, over mathematical values.
pub struct StateModel {
    pub canonical_exists: bool,
    pub canonical_is_link: bool,
    pub slot: EntryModel,
}

impl View for ResourceState {
    type V = StateModel;

    open spec fn view(&self) -> StateModel {
        StateModel {
            canonical_exists: self.canonical_exists,
            canonical_is_link: self.canonical_is_link,
            slot: self.slot@,
        }
    }
}

/// The views of states.
pub open spec fn state_models(items: Seq<ResourceState>) -> Seq<StateModel> {
    items.map_values(|s: ResourceState| s@)
}

/// What was observed of a slot: one state for each thing that slots share.
#[derive(Debug)]
pub struct SlotObservation {
    pub home_is_dir: bool,
    pub auth_exists: bool,
    pub auth_is_link: bool,
    pub resources: Vec<ResourceState>,
}

/// A step that changes what is on disk.
#[derive(Debug)]
pub enum LayoutStep {
    CreateDir(String),
    RemoveFile(String),
    RemovePath(String),
    Link { source: String, dest: String },
    CopyFile { source: String, dest: String },
    CopyDir { source: String, dest: String },
    AppendFile { source: String, dest: String },
    MergeDir { source: String, dest: String },
}

/// A step, over mathematical values.
pub enum StepModel {
    CreateDir(Seq<char>),
    RemoveFile(Seq<char>),
    RemovePath(Seq<char>),
    Link { source: Seq<char>, dest: Seq<char> },
    CopyFile { source: Seq<char>, dest: Seq<char> },
    CopyDir { source: Seq<char>, dest: Seq<char> },
    AppendFile { source: Seq<char>, dest: Seq<char> },
    MergeDir { source: Seq<char>, dest: Seq<char> },
}

impl View for LayoutStep {
    type V = StepModel;

    open spec fn view(&self) -> StepModel {
        match self {
            LayoutStep::CreateDir(path) => StepModel::CreateDir(path@),
            LayoutStep::RemoveFile(path) => StepModel::RemoveFile(path@),
            LayoutStep::RemovePath(path) => StepModel::RemovePath(path@),
            LayoutStep::Link { source, dest } => StepModel::Link { source: source@, dest: dest@ },
            LayoutStep::CopyFile { source, dest } => StepModel::CopyFile {
                source: source@,
                dest: dest@,
            },
            LayoutStep::CopyDir { source, dest } => StepModel::CopyDir {
                source: source@,
                dest: dest@,
            },
            LayoutStep::AppendFile { source, dest } => StepModel::AppendFile {
                source: source@,
                dest: dest@,
            },
            LayoutStep::MergeDir { source, dest } => StepModel::MergeDir {
                source: source@,
                dest: dest@,
            },
        }
    }
}

/// The views of steps.
pub open spec fn step_models(items: Seq<LayoutStep>) -> Seq<StepModel> {
    items.map_values(|s: LayoutStep| s@)
}

fn push_step(out: &mut Vec<LayoutStep>, step: LayoutStep)
    ensures
        step_models(final(out)@) == step_models(old(out)@).push(step@),
{
    let ghost before = out@;
    out.push(step);
    proof {
        assert(step_models(out@) =~= step_models(before).push(step@));
    }
}

fn extend_steps(out: &mut Vec<LayoutStep>, more: Vec<LayoutStep>)
    ensures
        step_models(final(out)@) == step_models(old(out)@) + step_models(more@),
{
    let ghost before = out@;
    let mut rest = more;
    out.append(&mut rest);
    proof {
        assert(step_models(out@) =~= step_models(before) + step_models(more@));
    }
}

// ---------------------------------------------------------------------------
// Putting links in place
// ---------------------------------------------------------------------------

/// Why a link could not be followed.
pub open spec fn unread_link(path: Seq<char>) -> Seq<char> {
    "read link "@ + path
}

/// The steps that make `dest` a link to `source`, unless something private is in
/// the way.
pub open spec fn link_steps(entry: EntryModel, source: Seq<char>, dest: Seq<char>) -> Seq<
    StepModel,
> {
    match entry {
        EntryModel::Private => seq![],
        EntryModel::Absent => seq![StepModel::Link { source, dest }],
        _ => seq![StepModel::RemoveFile(dest), StepModel::Link { source, dest }],
    }
}

/// The steps that link something shared into a new slot.
pub open spec fn ensure_steps(
    policy: SlotCreationPolicy,
    state: StateModel,
    canonical: Seq<char>,
    slot: Seq<char>,
) -> Result<Seq<StepModel>, Seq<char>> {
    if policy == SlotCreationPolicy::LinkWhenCanonicalExists && !state.canonical_exists {
        Ok(seq![])
    } else {
        match state.slot {
            EntryModel::UnreadableLink => Err(unread_link(slot)),
            EntryModel::Link(target) => if crate::paths::components_of(target)
                == crate::paths::components_of(canonical) {
                Ok(seq![])
            } else {
                Ok(link_steps(state.slot, canonical, slot))
            },
            _ => Ok(link_steps(state.slot, canonical, slot)),
        }
    }
}

/// The steps that turn a private copy into part of the shared side.
pub open spec fn merge_steps(
    kind: SharedResourceKind,
    canonical_exists: bool,
    canonical: Seq<char>,
    slot: Seq<char>,
) -> Seq<StepModel> {
    if kind == SharedResourceKind::Directory {
        seq![StepModel::MergeDir { source: slot, dest: canonical }]
    } else if kind == SharedResourceKind::AppendOnlyFile && canonical_exists {
        seq![StepModel::AppendFile { source: slot, dest: canonical }]
    } else if !canonical_exists {
        seq![StepModel::CopyFile { source: slot, dest: canonical }]
    } else {
        seq![]
    }
}

/// The steps that put the link of something shared right.
pub open spec fn repair_steps(
    kind: SharedResourceKind,
    state: StateModel,
    canonical: Seq<char>,
    slot: Seq<char>,
) -> Result<Seq<StepModel>, Seq<char>> {
    let first: Seq<StepModel> = if kind == SharedResourceKind::Directory {
        seq![StepModel::CreateDir(canonical)]
    } else {
        seq![]
    };
    match state.slot {
        EntryModel::UnreadableLink => Err(unread_link(slot)),
        EntryModel::Link(target) => if crate::paths::components_of(target)
            == crate::paths::components_of(canonical) {
            Ok(first)
        } else {
            Ok(first + link_steps(state.slot, canonical, slot))
        },
        EntryModel::Private => Ok(
            first + merge_steps(kind, state.canonical_exists, canonical, slot) + seq![
                StepModel::RemovePath(slot),
                StepModel::Link { source: canonical, dest: slot },
            ],
        ),
        EntryModel::Absent => Ok(first + link_steps(state.slot, canonical, slot)),
    }
}

fn plan_link(entry: &SlotEntry, source: &str, dest: &str) -> (out: Vec<LayoutStep>)
    ensures
        step_models(out@) == link_steps(entry@, source@, dest@),
{
    let mut out: Vec<LayoutStep> = Vec::new();
    match entry {
        SlotEntry::Private => {},
        SlotEntry::Absent => {
            out.push(
                LayoutStep::Link { source: String::from_str(source), dest: String::from_str(dest) },
            );
        },
        _ => {
            out.push(LayoutStep::RemoveFile(String::from_str(dest)));
            out.push(
                LayoutStep::Link { source: String::from_str(source), dest: String::from_str(dest) },
            );
        },
    }
    proof {
        assert(step_models(out@) =~= link_steps(entry@, source@, dest@));
    }
    out
}

/// The outcome of planning, over mathematical values.
pub open spec fn plan_result(out: Result<Vec<LayoutStep>, String>) -> Result<
    Seq<StepModel>,
    Seq<char>,
> {
    match out {
        Ok(steps) => Ok(step_models(steps@)),
        Err(message) => Err(message@),
    }
}

fn no_steps() -> (out: Vec<LayoutStep>)
    ensures
        step_models(out@) == Seq::<StepModel>::empty(),
{
    let out: Vec<LayoutStep> = Vec::new();
    proof {
        assert(step_models(out@) =~= Seq::<StepModel>::empty());
    }
    out
}

/// Plans how something shared is linked into a new slot.
pub fn plan_ensure(
    policy: SlotCreationPolicy,
    state: &ResourceState,
    canonical: &str,
    slot: &str,
) -> (out: Result<Vec<LayoutStep>, String>)
    ensures
        plan_result(out) == ensure_steps(policy, state@, canonical@, slot@),
{
    let conditional = match policy {
        SlotCreationPolicy::LinkWhenCanonicalExists => true,
        SlotCreationPolicy::AlwaysLink => false,
    };
    if conditional && !state.canonical_exists {
        return Ok(no_steps());
    }
    match &state.slot {
        SlotEntry::UnreadableLink => Err(concat2("read link ", slot)),
        SlotEntry::Link(target) => if same_path(target.as_str(), canonical) {
            Ok(no_steps())
        } else {
            Ok(plan_link(&state.slot, canonical, slot))
        },
        _ => Ok(plan_link(&state.slot, canonical, slot)),
    }
}

fn plan_merge(kind: SharedResourceKind, canonical_exists: bool, canonical: &str, slot: &str) -> (out:
    Vec<LayoutStep>)
    ensures
        step_models(out@) == merge_steps(kind, canonical_exists, canonical@, slot@),
{
    let mut out: Vec<LayoutStep> = Vec::new();
    let source = String::from_str(slot);
    let dest = String::from_str(canonical);
    match kind {
        SharedResourceKind::Directory => {
            out.push(LayoutStep::MergeDir { source, dest });
        },
        SharedResourceKind::AppendOnlyFile => {
            if canonical_exists {
                out.push(LayoutStep::AppendFile { source, dest });
            } else {
                out.push(LayoutStep::CopyFile { source, dest });
            }
        },
        SharedResourceKind::RegularFile => {
            if !canonical_exists {
                out.push(LayoutStep::CopyFile { source, dest });
            }
        },
    }
    proof {
        assert(step_models(out@) =~= merge_steps(kind, canonical_exists, canonical@, slot@));
    }
    out
}

/// Plans how the link of something shared is put right.
pub fn plan_repair(kind: SharedResourceKind, state: &ResourceState, canonical: &str, slot: &str) -> (out:
    Result<Vec<LayoutStep>, String>)
    ensures
        plan_result(out) == repair_steps(kind, state@, canonical@, slot@),
{
    let mut out: Vec<LayoutStep> = Vec::new();
    if let SharedResourceKind::Directory = kind {
        out.push(LayoutStep::CreateDir(String::from_str(canonical)));
    }
    let ghost first: Seq<StepModel> = if kind == SharedResourceKind::Directory {
        seq![StepModel::CreateDir(canonical@)]
    } else {
        seq![]
    };
    proof {
        assert(step_models(out@) =~= first);
    }
    match &state.slot {
        SlotEntry::UnreadableLink => Err(concat2("read link ", slot)),
        SlotEntry::Link(target) => {
            if !same_path(target.as_str(), canonical) {
                extend_steps(&mut out, plan_link(&state.slot, canonical, slot));
            }
            Ok(out)
        },
        SlotEntry::Private => {
            extend_steps(&mut out, plan_merge(kind, state.canonical_exists, canonical, slot));
            let ghost merged = step_models(out@);
            push_step(&mut out, LayoutStep::RemovePath(String::from_str(slot)));
            push_step(
                &mut out,
                LayoutStep::Link { source: String::from_str(canonical), dest: String::from_str(slot) },
            );
            proof {
                assert(step_models(out@) =~= merged + seq![
                    StepModel::RemovePath(slot@),
                    StepModel::Link { source: canonical@, dest: slot@ },
                ]);
            }
            Ok(out)
        },
        SlotEntry::Absent => {
            extend_steps(&mut out, plan_link(&state.slot, canonical, slot));
            Ok(out)
        },
    }
}

/// The steps for the first `n` of the things that slots share, or why there are
/// none.
pub open spec fn ensure_all(
    paths: ManagerPaths,
    slot: Seq<char>,
    states: Seq<StateModel>,
    n: nat,
) -> Result<Seq<StepModel>, Seq<char>>
    decreases n,
{
    if n == 0 {
        Ok(seq![StepModel::CreateDir(paths.slot_home_text(slot))])
    } else {
        let resource = crate::shared::shared_table()[n - 1];
        match ensure_all(paths, slot, states, (n - 1) as nat) {
            Err(message) => Err(message),
            Ok(steps) => match ensure_steps(
                resource.policy,
                states[n - 1],
                crate::shared::canonical_path_of(paths, resource.name),
                crate::shared::slot_path_of(paths, slot, resource.name),
            ) {
                Err(message) => Err(message),
                Ok(more) => Ok(steps + more),
            },
        }
    }
}

/// The steps that put the first `n` links right, or why there are none.
pub open spec fn repair_all(
    paths: ManagerPaths,
    slot: Seq<char>,
    states: Seq<StateModel>,
    n: nat,
) -> Result<Seq<StepModel>, Seq<char>>
    decreases n,
{
    if n == 0 {
        Ok(seq![StepModel::CreateDir(paths.slot_home_text(slot))])
    } else {
        let resource = crate::shared::shared_table()[n - 1];
        match repair_all(paths, slot, states, (n - 1) as nat) {
            Err(message) => Err(message),
            Ok(steps) => match repair_steps(
                resource.kind,
                states[n - 1],
                crate::shared::canonical_path_of(paths, resource.name),
                crate::shared::slot_path_of(paths, slot, resource.name),
            ) {
                Err(message) => Err(message),
                Ok(more) => Ok(steps + more),
            },
        }
    }
}

proof fn lemma_ensure_fails_early(
    paths: ManagerPaths,
    slot: Seq<char>,
    states: Seq<StateModel>,
    k: nat,
    n: nat,
)
    requires
        k <= n,
        ensure_all(paths, slot, states, k) is Err,
    ensures
        ensure_all(paths, slot, states, n) == ensure_all(paths, slot, states, k),
    decreases n,
{
    if k < n {
        lemma_ensure_fails_early(paths, slot, states, k, (n - 1) as nat);
    }
}

proof fn lemma_repair_fails_early(
    paths: ManagerPaths,
    slot: Seq<char>,
    states: Seq<StateModel>,
    k: nat,
    n: nat,
)
    requires
        k <= n,
        repair_all(paths, slot, states, k) is Err,
    ensures
        repair_all(paths, slot, states, n) == repair_all(paths, slot, states, k),
    decreases n,
{
    if k < n {
        lemma_repair_fails_early(paths, slot, states, k, (n - 1) as nat);
    }
}

/// The steps of a new slot.
pub open spec fn ensured_layout(paths: ManagerPaths, slot: Seq<char>, states: Seq<StateModel>) -> Result<
    Seq<StepModel>,
    Seq<char>,
> {
    if !is_slot_name(slot) {
        Err(bad_name(slot))
    } else {
        ensure_all(paths, slot, states, crate::shared::shared_table().len())
    }
}

/// The steps that put a slot right.
pub open spec fn repaired_layout(paths: ManagerPaths, slot: Seq<char>, states: Seq<StateModel>) -> Result<
    Seq<StepModel>,
    Seq<char>,
> {
    if !is_slot_name(slot) {
        Err(bad_name(slot))
    } else {
        repair_all(paths, slot, states, crate::shared::shared_table().len())
    }
}

/// Plans the layout of a new slot.
pub fn ensure_slot_layout(paths: &ManagerPaths, slot: &str, observed: &SlotObservation) -> (out: Result<
    Vec<LayoutStep>,
    String,
>)
    requires
        observed.resources@.len() == crate::shared::shared_table().len(),
    ensures
        plan_result(out) == ensured_layout(*paths, slot@, state_models(observed.resources@)),
{
    if let Err(message) = validate_slot_name(slot) {
        return Err(message);
    }
    let ghost states = state_models(observed.resources@);
    let resources = shared_resources();
    let ghost table = crate::shared::shared_table();
    let mut out: Vec<LayoutStep> = Vec::new();
    out.push(LayoutStep::CreateDir(paths.slot_home(slot)));
    proof {
        assert(step_models(out@) =~= seq![StepModel::CreateDir(paths.slot_home_text(slot@))]);
    }
    let mut i: usize = 0;
    while i < resources.len()
        invariant
            i <= resources.len(),
            is_slot_name(slot@),
            observed.resources@.len() == resources@.len(),
            states == state_models(observed.resources@),
            table == crate::shared::shared_table(),
            crate::shared::shared_models(resources@) == table,
            ensure_all(*paths, slot@, states, i as nat) == Ok::<Seq<StepModel>, Seq<char>>(
                step_models(out@),
            ),
        decreases resources.len() - i,
    {
        let canonical = resources[i].canonical_path(paths);
        let path = resources[i].slot_path(paths, slot);
        proof {
            assert(crate::shared::shared_models(resources@)[i as int] == resources@[i as int]@);
            assert(states[i as int] == observed.resources@[i as int]@);
        }
        match plan_ensure(
            resources[i].creation_policy,
            &observed.resources[i],
            canonical.as_str(),
            path.as_str(),
        ) {
            Err(message) => {
                proof {
                    lemma_ensure_fails_early(*paths, slot@, states, (i + 1) as nat, table.len());
                }
                return Err(message);
            },
            Ok(more) => {
                extend_steps(&mut out, more);
            },
        }
        i += 1;
    }
    Ok(out)
}

/// Plans how the layout of a slot is put right.
pub fn repair_slot_layout(paths: &ManagerPaths, slot: &str, observed: &SlotObservation) -> (out: Result<
    Vec<LayoutStep>,
    String,
>)
    requires
        observed.resources@.len() == crate::shared::shared_table().len(),
    ensures
        plan_result(out) == repaired_layout(*paths, slot@, state_models(observed.resources@)),
{
    if let Err(message) = validate_slot_name(slot) {
        return Err(message);
    }
    let ghost states = state_models(observed.resources@);
    let resources = shared_resources();
    let ghost table = crate::shared::shared_table();
    let mut out: Vec<LayoutStep> = Vec::new();
    out.push(LayoutStep::CreateDir(paths.slot_home(slot)));
    proof {
        assert(step_models(out@) =~= seq![StepModel::CreateDir(paths.slot_home_text(slot@))]);
    }
    let mut i: usize = 0;
    while i < resources.len()
        invariant
            i <= resources.len(),
            is_slot_name(slot@),
            observed.resources@.len() == resources@.len(),
            states == state_models(observed.resources@),
            table == crate::shared::shared_table(),
            crate::shared::shared_models(resources@) == table,
            repair_all(*paths, slot@, states, i as nat) == Ok::<Seq<StepModel>, Seq<char>>(
                step_models(out@),
            ),
        decreases resources.len() - i,
    {
        let canonical = resources[i].canonical_path(paths);
        let path = resources[i].slot_path(paths, slot);
        proof {
            assert(crate::shared::shared_models(resources@)[i as int] == resources@[i as int]@);
            assert(states[i as int] == observed.resources@[i as int]@);
        }
        match plan_repair(
            resources[i].kind,
            &observed.resources[i],
            canonical.as_str(),
            path.as_str(),
        ) {
            Err(message) => {
                proof {
                    lemma_repair_fails_early(*paths, slot@, states, (i + 1) as nat, table.len());
                }
                return Err(message);
            },
            Ok(more) => {
                extend_steps(&mut out, more);
            },
        }
        i += 1;
    }
    Ok(out)
}

// ---------------------------------------------------------------------------
// Audits
// ---------------------------------------------------------------------------

/// Something that is wrong with a slot.
#[derive(Debug)]
pub struct SlotLayoutIssue {
    pub path: String,
    pub message: String,
}

/// What is wrong with a slot.
#[derive(Debug)]
pub struct SlotLayoutAudit {
    pub slot: String,
    pub home_exists: bool,
    pub auth_exists: bool,
    pub issues: Vec<SlotLayoutIssue>,
}

/// The views of issues: paths and messages.
pub open spec fn issue_models(items: Seq<SlotLayoutIssue>) -> Seq<(Seq<char>, Seq<char>)> {
    items.map_values(|i: SlotLayoutIssue| (i.path@, i.message@))
}

/// What is wrong with something shared, if anything is.
pub open spec fn resource_issue(state: StateModel, canonical: Seq<char>) -> Result<
    Option<Seq<char>>,
    (),
> {
    match state.slot {
        EntryModel::Absent => if state.canonical_exists || state.canonical_is_link {
            Ok(Some("missing shared link to "@ + canonical))
        } else {
            Ok(None)
        },
        EntryModel::Private => Ok(Some("private copy; expected symlink to "@ + canonical)),
        EntryModel::UnreadableLink => Err(()),
        EntryModel::Link(target) => if crate::paths::components_of(target)
            == crate::paths::components_of(canonical) {
            Ok(None)
        } else {
            Ok(Some("points to "@ + target + "; expected "@ + canonical))
        },
    }
}

/// What is wrong with something shared, if anything is.
pub fn audit_resource(state: &ResourceState, canonical: &str) -> (out: Result<Option<String>, ()>)
    ensures
        match out {
            Ok(message) => resource_issue(state@, canonical@) == Ok::<Option<Seq<char>>, ()>(
                crate::text::opt_text(message),
            ),
            Err(_) => resource_issue(state@, canonical@) is Err,
        },
{
    match &state.slot {
        SlotEntry::Absent => if state.canonical_exists || state.canonical_is_link {
            Ok(Some(concat2("missing shared link to ", canonical)))
        } else {
            Ok(None)
        },
        SlotEntry::Private => Ok(Some(concat2("private copy; expected symlink to ", canonical))),
        SlotEntry::UnreadableLink => Err(()),
        SlotEntry::Link(target) => if same_path(target.as_str(), canonical) {
            Ok(None)
        } else {
            Ok(Some(concat4("points to ", target.as_str(), "; expected ", canonical)))
        },
    }
}

/// What is wrong with the first `n` of the things that slots share, behind the
/// issues in `before`.
pub open spec fn issues_up_to(
    paths: ManagerPaths,
    slot: Seq<char>,
    states: Seq<StateModel>,
    before: Seq<(Seq<char>, Seq<char>)>,
    n: nat,
) -> Result<Seq<(Seq<char>, Seq<char>)>, Seq<char>>
    decreases n,
{
    if n == 0 {
        Ok(before)
    } else {
        let name = crate::shared::shared_table()[n - 1].name;
        let path = crate::shared::slot_path_of(paths, slot, name);
        match issues_up_to(paths, slot, states, before, (n - 1) as nat) {
            Err(message) => Err(message),
            Ok(issues) => match resource_issue(
                states[n - 1],
                crate::shared::canonical_path_of(paths, name),
            ) {
                Err(_) => Err(unread_link(path)),
                Ok(None) => Ok(issues),
                Ok(Some(message)) => Ok(issues.push((path, message))),
            },
        }
    }
}

/// What is wrong with the login of a slot.
pub open spec fn auth_issues(auth_exists: bool, auth_is_link: bool, path: Seq<char>) -> Seq<
    (Seq<char>, Seq<char>),
> {
    if !auth_exists {
        seq![(path, "missing slot auth.json"@)]
    } else if auth_is_link {
        seq![(path, "auth.json should be slot-private, not a symlink"@)]
    } else {
        seq![]
    }
}

/// What is wrong with a slot.
pub open spec fn audited(
    paths: ManagerPaths,
    slot: Seq<char>,
    observed: &SlotObservation,
) -> Result<Seq<(Seq<char>, Seq<char>)>, Seq<char>> {
    let home = paths.slot_home_text(slot);
    if !is_slot_name(slot) {
        Err(bad_name(slot))
    } else if !observed.home_is_dir {
        Ok(seq![(home, "missing slot home"@)])
    } else {
        issues_up_to(
            paths,
            slot,
            state_models(observed.resources@),
            auth_issues(
                observed.auth_exists,
                observed.auth_is_link,
                crate::paths::joined_path(home, "auth.json"@),
            ),
            crate::shared::shared_table().len(),
        )
    }
}

proof fn lemma_audit_fails_early(
    paths: ManagerPaths,
    slot: Seq<char>,
    states: Seq<StateModel>,
    before: Seq<(Seq<char>, Seq<char>)>,
    k: nat,
    n: nat,
)
    requires
        k <= n,
        issues_up_to(paths, slot, states, before, k) is Err,
    ensures
        issues_up_to(paths, slot, states, before, n) == issues_up_to(paths, slot, states, before, k),
    decreases n,
{
    if k < n {
        lemma_audit_fails_early(paths, slot, states, before, k, (n - 1) as nat);
    }
}

/// Finds what is wrong with a slot.
pub fn audit_slot_layout(paths: &ManagerPaths, slot: &str, observed: &SlotObservation) -> (out: Result<
    SlotLayoutAudit,
    String,
>)
    requires
        observed.resources@.len() == crate::shared::shared_table().len(),
    ensures
        match out {
            Ok(audit) => audited(*paths, slot@, observed) == Ok::<
                Seq<(Seq<char>, Seq<char>)>,
                Seq<char>,
            >(issue_models(audit.issues@)) && audit.slot@ == slot@ && audit.home_exists
                == observed.home_is_dir && audit.auth_exists == (observed.home_is_dir
                && observed.auth_exists),
            Err(message) => audited(*paths, slot@, observed) == Err::<
                Seq<(Seq<char>, Seq<char>)>,
                Seq<char>,
            >(message@),
        },
{
    if let Err(message) = validate_slot_name(slot) {
        return Err(message);
    }
    let home = paths.slot_home(slot);
    let mut issues: Vec<SlotLayoutIssue> = Vec::new();
    if !observed.home_is_dir {
        issues.push(
            SlotLayoutIssue { path: home, message: String::from_str("missing slot home") },
        );
        proof {
            assert(issue_models(issues@) =~= seq![
                (paths.slot_home_text(slot@), "missing slot home"@),
            ]);
        }
        return Ok(
            SlotLayoutAudit {
                slot: String::from_str(slot),
                home_exists: false,
                auth_exists: false,
                issues,
            },
        );
    }
    let auth_path = join_path(home.as_str(), "auth.json");
    let ghost auth_text = auth_path@;
    if !observed.auth_exists {
        issues.push(
            SlotLayoutIssue { path: auth_path, message: String::from_str("missing slot auth.json") },
        );
    } else if observed.auth_is_link {
        issues.push(
            SlotLayoutIssue {
                path: auth_path,
                message: String::from_str("auth.json should be slot-private, not a symlink"),
            },
        );
    }
    let ghost before = auth_issues(observed.auth_exists, observed.auth_is_link, auth_text);
    proof {
        assert(issue_models(issues@) =~= before);
    }
    let ghost states = state_models(observed.resources@);
    let resources = shared_resources();
    let ghost table = crate::shared::shared_table();
    let mut i: usize = 0;
    while i < resources.len()
        invariant
            i <= resources.len(),
            is_slot_name(slot@),
            observed.home_is_dir,
            observed.resources@.len() == resources@.len(),
            states == state_models(observed.resources@),
            table == crate::shared::shared_table(),
            crate::shared::shared_models(resources@) == table,
            before == auth_issues(
                observed.auth_exists,
                observed.auth_is_link,
                crate::paths::joined_path(paths.slot_home_text(slot@), "auth.json"@),
            ),
            issues_up_to(*paths, slot@, states, before, i as nat) == Ok::<
                Seq<(Seq<char>, Seq<char>)>,
                Seq<char>,
            >(issue_models(issues@)),
        decreases resources.len() - i,
    {
        let canonical = resources[i].canonical_path(paths);
        let path = resources[i].slot_path(paths, slot);
        proof {
            assert(crate::shared::shared_models(resources@)[i as int] == resources@[i as int]@);
            assert(states[i as int] == observed.resources@[i as int]@);
        }
        match audit_resource(&observed.resources[i], canonical.as_str()) {
            Err(_) => {
                proof {
                    lemma_audit_fails_early(
                        *paths,
                        slot@,
                        states,
                        before,
                        (i + 1) as nat,
                        table.len(),
                    );
                }
                return Err(concat2("read link ", path.as_str()));
            },
            Ok(None) => {},
            Ok(Some(message)) => {
                let ghost old_issues = issues@;
                let ghost pair = (path@, message@);
                issues.push(SlotLayoutIssue { path, message });
                proof {
                    assert(issue_models(issues@) =~= issue_models(old_issues).push(pair));
                }
            },
        }
        i += 1;
    }
    Ok(
        SlotLayoutAudit {
            slot: String::from_str(slot),
            home_exists: true,
            auth_exists: observed.auth_exists,
            issues,
        },
    )
}

// ---------------------------------------------------------------------------
// What the steps do
// ---------------------------------------------------------------------------

/// The two sides of something shared after a step.
pub open spec fn after_step(
    state: StateModel,
    step: StepModel,
    canonical: Seq<char>,
    slot: Seq<char>,
) -> StateModel {
    match step {
        StepModel::CreateDir(path) => if path == canonical {
            StateModel { canonical_exists: true, ..state }
        } else {
            state
        },
        StepModel::RemoveFile(path) => if path == slot {
            StateModel { slot: EntryModel::Absent, ..state }
        } else {
            state
        },
        StepModel::RemovePath(path) => if path == slot {
            StateModel { slot: EntryModel::Absent, ..state }
        } else {
            state
        },
        StepModel::Link { source, dest } => if dest == slot && state.slot is Absent {
            StateModel { slot: EntryModel::Link(source), ..state }
        } else {
            state
        },
        StepModel::CopyFile { source, dest } => if source == slot && dest == canonical {
            StateModel { canonical_exists: true, ..state }
        } else {
            state
        },
        _ => state,
    }
}

/// The two sides of something shared after some steps.
pub open spec fn after_steps(
    state: StateModel,
    steps: Seq<StepModel>,
    canonical: Seq<char>,
    slot: Seq<char>,
) -> StateModel
    decreases steps.len(),
{
    if steps.len() == 0 {
        state
    } else {
        after_step(
            after_steps(state, steps.drop_last(), canonical, slot),
            steps.last(),
            canonical,
            slot,
        )
    }
}

proof fn lemma_steps_append(
    state: StateModel,
    a: Seq<StepModel>,
    b: Seq<StepModel>,
    canonical: Seq<char>,
    slot: Seq<char>,
)
    ensures
        after_steps(state, a + b, canonical, slot) == after_steps(
            after_steps(state, a, canonical, slot),
            b,
            canonical,
            slot,
        ),
    decreases b.len(),
{
    if b.len() == 0 {
        assert(a + b =~= a);
    } else {
        lemma_steps_append(state, a, b.drop_last(), canonical, slot);
        assert((a + b).drop_last() =~= a + b.drop_last());
        assert((a + b).last() == b.last());
    }
}

/// After a repair, something shared passes the audit: its link leads to the
/// shared side.
pub proof fn repairs_pass_the_audit(
    kind: SharedResourceKind,
    state: StateModel,
    canonical: Seq<char>,
    slot: Seq<char>,
)
    requires
        slot != canonical,
        repair_steps(kind, state, canonical, slot) is Ok,
    ensures
        resource_issue(
            after_steps(state, repair_steps(kind, state, canonical, slot)->Ok_0, canonical, slot),
            canonical,
        ) == Ok::<Option<Seq<char>>, ()>(None),
{
    let first: Seq<StepModel> = if kind == SharedResourceKind::Directory {
        seq![StepModel::CreateDir(canonical)]
    } else {
        seq![]
    };
    reveal_with_fuel(after_steps, 3);
    let started = after_steps(state, first, canonical, slot);
    assert(started.slot == state.slot) by {
        if kind == SharedResourceKind::Directory {
            assert(first.drop_last() =~= seq![]);
        }
    }
    match state.slot {
        EntryModel::Private => {
            let merge = merge_steps(kind, state.canonical_exists, canonical, slot);
            let end = seq![
                StepModel::RemovePath(slot),
                StepModel::Link { source: canonical, dest: slot },
            ];
            lemma_steps_append(state, first, merge, canonical, slot);
            lemma_steps_append(state, first + merge, end, canonical, slot);
            assert(end.drop_last() =~= seq![StepModel::RemovePath(slot)]);
            assert(end.drop_last().drop_last() =~= seq![]);
        },
        _ => {
            let link = link_steps(state.slot, canonical, slot);
            lemma_steps_append(state, first, link, canonical, slot);
            if state.slot is Absent {
                assert(link.drop_last() =~= seq![]);
            } else {
                assert(link.drop_last() =~= seq![StepModel::RemoveFile(slot)]);
                assert(link.drop_last().drop_last() =~= seq![]);
            }
        },
    }
}

/// Making a slot leaves private files alone.
pub proof fn new_slots_keep_private_files(
    policy: SlotCreationPolicy,
    state: StateModel,
    canonical: Seq<char>,
    slot: Seq<char>,
)
    requires
        state.slot is Private,
    ensures
        ensure_steps(policy, state, canonical, slot) == Ok::<Seq<StepModel>, Seq<char>>(seq![]),
{
}

/// Making a slot twice does nothing the second time.
pub proof fn new_slots_settle(
    policy: SlotCreationPolicy,
    state: StateModel,
    canonical: Seq<char>,
    slot: Seq<char>,
)
    requires
        ensure_steps(policy, state, canonical, slot) is Ok,
    ensures
        ensure_steps(
            policy,
            after_steps(
                state,
                ensure_steps(policy, state, canonical, slot)->Ok_0,
                canonical,
                slot,
            ),
            canonical,
            slot,
        ) == Ok::<Seq<StepModel>, Seq<char>>(seq![]),
{
    reveal_with_fuel(after_steps, 3);
    let steps = ensure_steps(policy, state, canonical, slot)->Ok_0;
    if steps.len() == 1 {
        assert(steps.drop_last() =~= seq![]);
    } else if steps.len() == 2 {
        assert(steps.drop_last() =~= seq![StepModel::RemoveFile(slot)]);
        assert(steps.drop_last().drop_last() =~= seq![]);
    }
}

// ---------------------------------------------------------------------------
// Lists in files
// ---------------------------------------------------------------------------

/// The lines of a list that count: trimmed, and neither empty nor comments.
pub open spec fn listed(lines: Seq<Seq<char>>) -> Seq<Seq<char>>
    decreases lines.len(),
{
    if lines.len() == 0 {
        seq![]
    } else {
        let line = crate::lines::trimmed(lines.last());
        if line.len() == 0 || line[0] == '#' {
            listed(lines.drop_last())
        } else {
            listed(lines.drop_last()).push(line)
        }
    }
}

/// The lines of a list that count.
pub fn list_entries(content: &str) -> (out: Vec<String>)
    ensures
        crate::text::texts(out@) == listed(crate::lines::lines_of(content@)),
{
    let lines = split_lines(&chars_of(content));
    let ghost all = crate::lines::lines_of(content@);
    let mut out: Vec<String> = Vec::new();
    let mut i: usize = 0;
    proof {
        assert(crate::text::texts(out@) =~= listed(all.take(0)));
    }
    while i < lines.len()
        invariant
            i <= lines.len(),
            crate::lines::rows(lines@) == all,
            crate::text::texts(out@) == listed(all.take(i as int)),
        decreases lines.len() - i,
    {
        proof {
            assert(all.take(i + 1).drop_last() =~= all.take(i as int));
            assert(all.take(i + 1).last() == crate::lines::rows(lines@)[i as int]);
        }
        let line = trim(&lines[i]);
        if line.len() > 0 && line[0] != '#' {
            push_text(&mut out, string_of(&line));
        }
        i += 1;
    }
    proof {
        assert(all.take(lines@.len() as int) =~= all);
    }
    out
}

/// The configuration overrides of a slot.
pub fn read_override_lines(content: &Option<String>) -> (out: Vec<String>)
    ensures
        crate::text::texts(out@) == (match content {
            Some(text) => listed(crate::lines::lines_of(text@)),
            None => seq![],
        }),
{
    match content {
        Some(text) => list_entries(text.as_str()),
        None => {
            let out: Vec<String> = Vec::new();
            proof {
                assert(crate::text::texts(out@) =~= seq![]);
            }
            out
        },
    }
}

// ---------------------------------------------------------------------------
// The rotation
// ---------------------------------------------------------------------------

/// `names` without `name`.
pub open spec fn without(names: Seq<Seq<char>>, name: Seq<char>) -> Seq<Seq<char>>
    decreases names.len(),
{
    if names.len() == 0 {
        seq![]
    } else if names.last() == name {
        without(names.drop_last(), name)
    } else {
        without(names.drop_last(), name).push(names.last())
    }
}

/// The slots in rotation: the default slot if it has a login, then those listed.
pub open spec fn rotation_of(default_has_auth: bool, content: Option<Seq<char>>) -> Seq<Seq<char>> {
    let first: Seq<Seq<char>> = if default_has_auth {
        seq!["default"@]
    } else {
        seq![]
    };
    match content {
        Some(text) => first + without(listed(crate::lines::lines_of(text)), "default"@),
        None => first,
    }
}

fn drop_name(names: &Vec<String>, name: &str) -> (out: Vec<String>)
    ensures
        crate::text::texts(out@) == without(crate::text::texts(names@), name@),
{
    let ghost all = crate::text::texts(names@);
    let mut out: Vec<String> = Vec::new();
    let mut i: usize = 0;
    proof {
        assert(crate::text::texts(out@) =~= without(all.take(0), name@));
    }
    while i < names.len()
        invariant
            i <= names.len(),
            all == crate::text::texts(names@),
            crate::text::texts(out@) == without(all.take(i as int), name@),
        decreases names.len() - i,
    {
        proof {
            assert(all.take(i + 1).drop_last() =~= all.take(i as int));
            assert(all.take(i + 1).last() == names@[i as int]@);
        }
        if !same(names[i].as_str(), name) {
            push_text(&mut out, names[i].clone());
        }
        i += 1;
    }
    proof {
        assert(all.take(names@.len() as int) =~= all);
    }
    out
}

/// The slots in rotation.
pub fn load_rotation(default_has_auth: bool, content: &Option<String>) -> (out: Vec<String>)
    ensures
        crate::text::texts(out@) == rotation_of(
            default_has_auth,
            crate::text::opt_text(*content),
        ),
{
    let mut out: Vec<String> = Vec::new();
    if default_has_auth {
        out.push(String::from_str("default"));
    }
    proof {
        let first: Seq<Seq<char>> = if default_has_auth {
            seq!["default"@]
        } else {
            seq![]
        };
        assert(crate::text::texts(out@) =~= first);
    }
    if let Some(text) = content {
        crate::text::extend(&mut out, drop_name(&list_entries(text.as_str()), "default"));
    }
    out
}

/// The content of a file that lists `slots`.
pub open spec fn rotation_text(slots: Seq<Seq<char>>) -> Seq<char> {
    if slots.len() == 0 {
        seq![]
    } else {
        crate::lines::joined(slots, "\n"@) + "\n"@
    }
}

fn write_rotation(slots: &Vec<String>) -> (out: String)
    ensures
        out@ == rotation_text(crate::text::texts(slots@)),
{
    if slots.len() == 0 {
        let out = String::new();
        proof {
            assert(out@ =~= seq![]);
        }
        return out;
    }
    concat2(join(slots, "\n").as_str(), "\n")
}

fn holds_name(names: &Vec<String>, name: &str) -> (out: bool)
    ensures
        out == crate::text::texts(names@).contains(name@),
{
    let ghost all = crate::text::texts(names@);
    let mut i: usize = 0;
    while i < names.len()
        invariant
            i <= names.len(),
            all == crate::text::texts(names@),
            forall|j: int| 0 <= j < i ==> #[trigger] all[j] != name@,
        decreases names.len() - i,
    {
        if same(names[i].as_str(), name) {
            proof {
                assert(all[i as int] == name@);
            }
            return true;
        }
        i += 1;
    }
    false
}

/// The new content of the rotation file that puts `slot` into rotation, if it is
/// not there yet.
pub open spec fn appended_rotation(
    default_has_auth: bool,
    content: Option<Seq<char>>,
    slot: Seq<char>,
) -> Option<Seq<char>> {
    let slots = rotation_of(default_has_auth, content);
    if slots.contains(slot) {
        None
    } else {
        Some(rotation_text(slots.push(slot)))
    }
}

/// The new content of the rotation file that puts `slot` into rotation, if it is
/// not there yet.
pub fn append_rotation(default_has_auth: bool, content: &Option<String>, slot: &str) -> (out: Option<
    String,
>)
    ensures
        crate::text::opt_text(out) == appended_rotation(
            default_has_auth,
            crate::text::opt_text(*content),
            slot@,
        ),
{
    let mut slots = load_rotation(default_has_auth, content);
    if holds_name(&slots, slot) {
        return None;
    }
    push_text(&mut slots, String::from_str(slot));
    Some(write_rotation(&slots))
}

/// The new content of the rotation file that takes `slot` out of rotation, if it
/// is there.
pub open spec fn removed_rotation(
    default_has_auth: bool,
    content: Option<Seq<char>>,
    slot: Seq<char>,
) -> Option<Seq<char>> {
    let slots = rotation_of(default_has_auth, content);
    if content is None || without(slots, slot).len() == slots.len() {
        None
    } else {
        Some(rotation_text(without(slots, slot)))
    }
}

/// The new content of the rotation file that takes `slot` out of rotation, if it
/// is there.
pub fn remove_from_rotation(default_has_auth: bool, content: &Option<String>, slot: &str) -> (out:
    Option<String>)
    ensures
        crate::text::opt_text(out) == removed_rotation(
            default_has_auth,
            crate::text::opt_text(*content),
            slot@,
        ),
{
    if content.is_none() {
        return None;
    }
    let slots = load_rotation(default_has_auth, content);
    let rest = drop_name(&slots, slot);
    proof {
        assert(crate::text::texts(slots@).len() == slots@.len());
        assert(crate::text::texts(rest@).len() == rest@.len());
    }
    if rest.len() == slots.len() {
        return None;
    }
    Some(write_rotation(&rest))
}

/// Whether `name` is read back from a line of its own.
pub open spec fn is_list_entry(name: Seq<char>) -> bool {
    name.len() > 0 && name[0] != '#' && !name.contains('\n') && !crate::lines::is_white(name[0])
        && !crate::lines::is_white(name.last())
}

proof fn lemma_rotation_text(slots: Seq<Seq<char>>)
    requires
        slots.len() > 0,
    ensures
        rotation_text(slots) == crate::lines::line_block(slots),
    decreases slots.len(),
{
    reveal_strlit("\n");
    let end = "\n"@;
    assert(end =~= seq!['\n']);
    let rest = slots.drop_last();
    if slots.len() == 1 {
        assert(crate::lines::line_block(rest) =~= seq![]);
        assert(rotation_text(slots) =~= crate::lines::line_block(slots));
    } else {
        lemma_rotation_text(rest);
        assert(crate::lines::joined(slots, end) == crate::lines::joined(rest, end) + end
            + slots.last());
        assert(rotation_text(slots) =~= crate::lines::line_block(slots));
    }
}

proof fn lemma_block_reads_back(names: Seq<Seq<char>>)
    requires
        forall|i: int| 0 <= i < names.len() ==> is_list_entry(#[trigger] names[i]),
    ensures
        crate::lines::lines_of(crate::lines::line_block(names)) == names,
        names.len() > 0 ==> crate::lines::line_block(names).len() > 0
            && crate::lines::line_block(names).last() == '\n',
        listed(names) == names,
    decreases names.len(),
{
    if names.len() == 0 {
        assert(crate::lines::lines_of(crate::lines::line_block(names)) =~= names);
        assert(listed(names) =~= names);
    } else {
        let rest = names.drop_last();
        let last = names.last();
        assert forall|i: int| 0 <= i < rest.len() implies is_list_entry(#[trigger] rest[i]) by {
            assert(rest[i] == names[i]);
        }
        lemma_block_reads_back(rest);
        assert(is_list_entry(names[names.len() - 1]));
        crate::lines::lemma_lines_of_added_line(crate::lines::line_block(rest), last);
        assert(rest.push(last) =~= names);
        crate::lines::lemma_trimmed_fixed(last);
    }
}

proof fn lemma_listed_entries(lines: Seq<Seq<char>>)
    requires
        forall|i: int| 0 <= i < lines.len() ==> !(#[trigger] lines[i]).contains('\n'),
    ensures
        forall|i: int| 0 <= i < listed(lines).len() ==> is_list_entry(#[trigger] listed(lines)[i]),
    decreases lines.len(),
{
    if lines.len() > 0 {
        let rest = lines.drop_last();
        assert forall|i: int| 0 <= i < rest.len() implies !(#[trigger] rest[i]).contains('\n') by {
            assert(rest[i] == lines[i]);
        }
        lemma_listed_entries(rest);
        let line = crate::lines::trimmed(lines.last());
        crate::lines::lemma_trimmed_ends(lines.last());
        assert(!lines[lines.len() - 1].contains('\n'));
        assert forall|i: int| 0 <= i < listed(lines).len() implies is_list_entry(
            #[trigger] listed(lines)[i],
        ) by {
            if i < listed(rest).len() {
                assert(listed(lines)[i] == listed(rest)[i]);
            }
        }
    }
}

proof fn lemma_lines_hold_no_break(s: Seq<char>)
    ensures
        forall|i: int|
            0 <= i < crate::lines::lines_of(s).len() ==> !(#[trigger] crate::lines::lines_of(
                s,
            )[i]).contains('\n'),
    decreases s.len(),
{
    let lines = crate::lines::lines_of(s);
    let k = crate::text::find_char(s, '\n');
    crate::text::lemma_find_char(s, '\n');
    if s.len() > 0 {
        if 0 <= k < s.len() {
            lemma_lines_hold_no_break(s.skip(k + 1));
            let head = crate::lines::without_cr(s.take(k));
            assert(!head.contains('\n')) by {
                if head.contains('\n') {
                    let j = choose|j: int| 0 <= j < head.len() && head[j] == '\n';
                    assert(s[j] == '\n');
                }
            }
            assert forall|i: int| 0 <= i < lines.len() implies !(#[trigger] lines[i]).contains(
                '\n',
            ) by {
                if i > 0 {
                    assert(lines[i] == crate::lines::lines_of(s.skip(k + 1))[i - 1]);
                }
            }
        } else {
            assert(!s.contains('\n')) by {
                if s.contains('\n') {
                    let j = choose|j: int| 0 <= j < s.len() && s[j] == '\n';
                    assert(s[j] == '\n');
                }
            }
        }
    }
}

proof fn lemma_rotation_entries(default_has_auth: bool, content: Option<Seq<char>>)
    ensures
        forall|i: int|
            0 <= i < rotation_of(default_has_auth, content).len() ==> is_list_entry(
                #[trigger] rotation_of(default_has_auth, content)[i],
            ),
{
    reveal_strlit("default");
    let slots = rotation_of(default_has_auth, content);
    let d = "default"@;
    assert(d[0] == 'd' && d.last() == 't');
    assert(!d.contains('\n')) by {
        assert forall|j: int| 0 <= j < d.len() implies d[j] != '\n' by {
            assert(d.len() == 7);
        }
    }
    if let Some(text) = content {
        let names = listed(crate::lines::lines_of(text));
        lemma_lines_hold_no_break(text);
        lemma_listed_entries(crate::lines::lines_of(text));
        lemma_without_keeps(names, d);
        let rest = without(names, d);
        assert forall|i: int| 0 <= i < slots.len() implies is_list_entry(#[trigger] slots[i]) by {
            if default_has_auth {
                if i > 0 {
                    assert(slots[i] == rest[i - 1]);
                }
            } else {
                assert(slots[i] == rest[i]);
            }
        }
    }
}

proof fn lemma_without_keeps(names: Seq<Seq<char>>, name: Seq<char>)
    requires
        forall|i: int| 0 <= i < names.len() ==> is_list_entry(#[trigger] names[i]),
    ensures
        forall|i: int|
            0 <= i < without(names, name).len() ==> is_list_entry(
                #[trigger] without(names, name)[i],
            ),
    decreases names.len(),
{
    if names.len() > 0 {
        let rest = names.drop_last();
        assert forall|i: int| 0 <= i < rest.len() implies is_list_entry(#[trigger] rest[i]) by {
            assert(rest[i] == names[i]);
        }
        lemma_without_keeps(rest, name);
        assert(is_list_entry(names[names.len() - 1]));
        assert forall|i: int| 0 <= i < without(names, name).len() implies is_list_entry(
            #[trigger] without(names, name)[i],
        ) by {
            if i < without(rest, name).len() {
                assert(without(names, name)[i] == without(rest, name)[i]);
            }
        }
    }
}

/// A list without `name` does not hold it, and one that does not hold it is kept.
pub proof fn lemma_without(names: Seq<Seq<char>>, name: Seq<char>)
    ensures
        !without(names, name).contains(name),
        !names.contains(name) ==> without(names, name) == names,
        without(names, name).len() <= names.len(),
        forall|other: Seq<char>|
            other != name ==> without(names, name).contains(other) == names.contains(other),
    decreases names.len(),
{
    if names.len() > 0 {
        let rest = names.drop_last();
        lemma_without(rest, name);
        let out = without(names, name);
        assert(rest.push(names.last()) =~= names);
        assert forall|x: Seq<char>| names.contains(x) == (rest.contains(x) || x == names.last()) by {
            if rest.contains(x) {
                let j = choose|j: int| 0 <= j < rest.len() && rest[j] == x;
                assert(names[j] == x);
            }
            if x == names.last() {
                assert(names[names.len() - 1] == x);
            }
        }
        if names.last() != name {
            let head = without(rest, name);
            assert forall|x: Seq<char>| out.contains(x) == (head.contains(x) || x
                == names.last()) by {
                if head.contains(x) {
                    let j = choose|j: int| 0 <= j < head.len() && head[j] == x;
                    assert(out[j] == x);
                }
                if x == names.last() {
                    assert(out[out.len() - 1] == x);
                }
            }
        }
        if !names.contains(name) {
            assert(names.last() != name);
            assert(!rest.contains(name));
        }
    }
}

proof fn lemma_without_append(a: Seq<Seq<char>>, b: Seq<Seq<char>>, name: Seq<char>)
    ensures
        without(a + b, name) == without(a, name) + without(b, name),
    decreases b.len(),
{
    if b.len() == 0 {
        assert(a + b =~= a);
        assert(without(a, name) + without(b, name) =~= without(a, name));
    } else {
        lemma_without_append(a, b.drop_last(), name);
        assert((a + b).drop_last() =~= a + b.drop_last());
        assert((a + b).last() == b.last());
        assert(without(a + b, name) =~= without(a, name) + without(b, name));
    }
}

/// A list of slots that was written is read back: after the default slot, the
/// same slots are in rotation, in the same order.
pub proof fn rotations_read_back(default_has_auth: bool, slots: Seq<Seq<char>>)
    requires
        forall|i: int| 0 <= i < slots.len() ==> is_list_entry(#[trigger] slots[i]),
    ensures
        rotation_of(default_has_auth, Some(rotation_text(slots))) == (if default_has_auth {
            seq!["default"@]
        } else {
            seq![]
        }) + without(slots, "default"@),
{
    if slots.len() > 0 {
        lemma_rotation_text(slots);
        lemma_block_reads_back(slots);
    } else {
        assert(crate::lines::lines_of(rotation_text(slots)) =~= seq![]);
        assert(listed(Seq::<Seq<char>>::empty()) =~= seq![]);
        assert(without(slots, "default"@) =~= seq![]);
    }
}

/// A slot that is put into rotation is its last slot, and the others stay.
pub proof fn appended_slots_are_in_rotation(
    default_has_auth: bool,
    content: Option<Seq<char>>,
    slot: Seq<char>,
)
    requires
        is_slot_name(slot),
        slot != "default"@,
        appended_rotation(default_has_auth, content, slot) is Some,
    ensures
        rotation_of(default_has_auth, appended_rotation(default_has_auth, content, slot))
            == rotation_of(default_has_auth, content).push(slot),
{
    let slots = rotation_of(default_has_auth, content);
    lemma_rotation_entries(default_has_auth, content);
    lemma_slot_is_entry(slot);
    let all = slots.push(slot);
    assert forall|i: int| 0 <= i < all.len() implies is_list_entry(#[trigger] all[i]) by {
        if i < slots.len() {
            assert(all[i] == slots[i]);
        }
    }
    rotations_read_back(default_has_auth, all);
    lemma_rotation_without_default(default_has_auth, content);
    assert(all.drop_last() =~= slots);
    let d = "default"@;
    if default_has_auth {
        assert(seq![d] + without(slots, d).push(slot) =~= slots.push(slot));
    } else {
        assert(Seq::<Seq<char>>::empty() + without(slots, d).push(slot) =~= slots.push(slot));
    }
}

proof fn lemma_rotation_without_default(default_has_auth: bool, content: Option<Seq<char>>)
    ensures
        (if default_has_auth {
            seq!["default"@]
        } else {
            seq![]
        }) + without(rotation_of(default_has_auth, content), "default"@) == rotation_of(
            default_has_auth,
            content,
        ),
{
    let d = "default"@;
    let rest = match content {
        Some(text) => without(listed(crate::lines::lines_of(text)), d),
        None => seq![],
    };
    assert(!rest.contains(d)) by {
        if let Some(text) = content {
            lemma_without(listed(crate::lines::lines_of(text)), d);
        }
    }
    lemma_without(rest, d);
    let slots = rotation_of(default_has_auth, content);
    if default_has_auth {
        assert(slots =~= seq![d] + rest);
        lemma_without_append(seq![d], rest, d);
        assert(seq![d].drop_last() =~= seq![]);
        assert(without(seq![d].drop_last(), d) =~= seq![]);
        assert(without(seq![d], d) =~= seq![]);
        assert(without(slots, d) =~= rest);
        assert(seq![d] + without(slots, d) =~= slots);
    } else {
        assert(slots =~= rest);
        assert(Seq::<Seq<char>>::empty() + without(slots, d) =~= slots);
    }
}

proof fn lemma_slot_is_entry(slot: Seq<char>)
    requires
        is_slot_name(slot),
    ensures
        is_list_entry(slot),
{
    assert(is_slot_char(slot[0]));
    assert(is_slot_char(slot[slot.len() - 1]));
    if slot.contains('\n') {
        let j = choose|j: int| 0 <= j < slot.len() && slot[j] == '\n';
        assert(is_slot_char(slot[j]));
    }
}

/// A slot that is taken out of rotation is no longer in it.
pub proof fn removed_slots_leave_rotation(
    default_has_auth: bool,
    content: Option<Seq<char>>,
    slot: Seq<char>,
)
    requires
        slot != "default"@,
        removed_rotation(default_has_auth, content, slot) is Some,
    ensures
        rotation_of(default_has_auth, removed_rotation(default_has_auth, content, slot)) == without(
            rotation_of(default_has_auth, content),
            slot,
        ),
        !rotation_of(
            default_has_auth,
            removed_rotation(default_has_auth, content, slot),
        ).contains(slot),
{
    let d = "default"@;
    let slots = rotation_of(default_has_auth, content);
    let rest = without(slots, slot);
    lemma_rotation_entries(default_has_auth, content);
    lemma_without_keeps(slots, slot);
    lemma_without(slots, slot);
    rotations_read_back(default_has_auth, rest);
    lemma_rotation_without_default(default_has_auth, content);
    let first: Seq<Seq<char>> = if default_has_auth {
        seq![d]
    } else {
        seq![]
    };
    let tail = without(slots, d);
    assert(slots == first + tail);
    lemma_without_append(first, tail, slot);
    lemma_without(first, slot);
    assert(!first.contains(slot));
    assert(rest == first + without(tail, slot));
    lemma_without(slots, d);
    lemma_without(tail, slot);
    assert(!without(tail, slot).contains(d));
    lemma_without(without(tail, slot), d);
    lemma_without_append(first, without(tail, slot), d);
    assert(without(first, d) =~= seq![]) by {
        if default_has_auth {
            assert(seq![d].drop_last() =~= seq![]);
            assert(without(seq![d].drop_last(), d) =~= seq![]);
        }
    }
    assert(without(rest, d) =~= without(tail, slot));
}

// ---------------------------------------------------------------------------
// Adding and removing slots
// ---------------------------------------------------------------------------

/// What adding a slot writes and says.
#[derive(Debug)]
pub struct AddPlan {
    /// The new content of the overrides file, if it changes.
    pub overrides: Option<String>,
    /// The new content of the environment file, if it changes, or why it cannot be
    /// written.
    pub env: Result<Option<String>, String>,
    pub report: Vec<String>,
}

/// What a file of settings is given: the new lines, or nothing if it lacks.
pub open spec fn settings_text(lines: Seq<Seq<char>>, exists: bool) -> Option<Seq<char>> {
    if lines.len() > 0 {
        Some(crate::lines::joined(lines, "\n"@) + "\n"@)
    } else if exists {
        None
    } else {
        Some(""@)
    }
}

/// What the environment file is given.
pub open spec fn env_text(envs: Seq<Seq<char>>, exists: bool) -> Result<
    Option<Seq<char>>,
    Seq<char>,
> {
    if envs.len() > 0 {
        match crate::envfile::env_file(envs) {
            Ok(text) => Ok(Some(text)),
            Err(message) => Err(message),
        }
    } else if exists {
        Ok(None)
    } else {
        Ok(Some(""@))
    }
}

/// What is said of an added slot.
pub open spec fn add_report(paths: ManagerPaths, args: &AddArgs) -> Seq<Seq<char>> {
    let slot = args.slot@;
    let a = seq!["updated slot: "@ + slot];
    let b = if args.from_current {
        a.push("copied auth from current ~/.codex into slot: "@ + slot)
    } else {
        a
    };
    let c = if args.rotate {
        b.push("added to rotation: "@ + slot)
    } else {
        b
    };
    c.push("slot home: "@ + paths.slot_home_text(slot))
}

/// Plans how a slot is added.
pub fn add_slot(
    paths: &ManagerPaths,
    args: &AddArgs,
    overrides_exist: bool,
    env_exists: bool,
) -> (out: Result<AddPlan, String>)
    ensures
        match out {
            Ok(plan) => is_slot_name(args.slot@) && crate::text::opt_text(plan.overrides)
                == settings_text(crate::text::texts(args.sets@), overrides_exist) && (
            match plan.env {
                Ok(text) => env_text(crate::text::texts(args.envs@), env_exists) == Ok::<
                    Option<Seq<char>>,
                    Seq<char>,
                >(crate::text::opt_text(text)),
                Err(message) => env_text(crate::text::texts(args.envs@), env_exists) == Err::<
                    Option<Seq<char>>,
                    Seq<char>,
                >(message@),
            }) && crate::text::texts(plan.report@) == add_report(*paths, args),
            Err(message) => !is_slot_name(args.slot@) && message@ == bad_name(args.slot@),
        },
{
    if let Err(message) = validate_slot_name(args.slot.as_str()) {
        return Err(message);
    }
    proof {
        assert(crate::text::texts(args.sets@).len() == args.sets@.len());
        assert(crate::text::texts(args.envs@).len() == args.envs@.len());
    }
    let overrides = if args.sets.len() > 0 {
        Some(concat2(join(&args.sets, "\n").as_str(), "\n"))
    } else if overrides_exist {
        None
    } else {
        Some(String::from_str(""))
    };
    let env = if args.envs.len() > 0 {
        match write_env_file(&args.envs) {
            Ok(text) => Ok(Some(text)),
            Err(message) => Err(message),
        }
    } else if env_exists {
        Ok(None)
    } else {
        Ok(Some(String::from_str("")))
    };
    let slot = args.slot.as_str();
    let mut report: Vec<String> = Vec::new();
    report.push(concat2("updated slot: ", slot));
    proof {
        assert(crate::text::texts(report@) =~= seq!["updated slot: "@ + slot@]);
    }
    if args.from_current {
        push_text(&mut report, concat2("copied auth from current ~/.codex into slot: ", slot));
    }
    if args.rotate {
        push_text(&mut report, concat2("added to rotation: ", slot));
    }
    push_text(&mut report, concat2("slot home: ", paths.slot_home(slot).as_str()));
    Ok(AddPlan { overrides, env, report })
}

/// What is said of a removed slot, where `deleted` says whether there were files
/// to delete.
pub open spec fn remove_report(
    paths: ManagerPaths,
    args: &RemoveArgs,
    was_in_rotation: bool,
    deleted: bool,
) -> Seq<Seq<char>> {
    let slot = args.slot@;
    let dir = paths.slot_dir_text(slot);
    seq![
        "removed slot: "@ + slot,
        if was_in_rotation {
            "removed from rotation: "@ + slot
        } else {
            "not in rotation: "@ + slot
        },
        if !args.delete_files {
            "slot files kept: "@ + dir
        } else if deleted {
            "deleted slot files: "@ + dir
        } else {
            "slot files not found: "@ + dir
        },
    ]
}

/// Says what became of a removed slot.
pub fn remove_slot(
    paths: &ManagerPaths,
    args: &RemoveArgs,
    was_in_rotation: bool,
    deleted: bool,
) -> (out: Result<Vec<String>, String>)
    ensures
        match out {
            Ok(report) => is_slot_name(args.slot@) && crate::text::texts(report@) == remove_report(
                *paths,
                args,
                was_in_rotation,
                deleted,
            ),
            Err(message) => !is_slot_name(args.slot@) && message@ == bad_name(args.slot@),
        },
{
    if let Err(message) = validate_slot_name(args.slot.as_str()) {
        return Err(message);
    }
    let slot = args.slot.as_str();
    let dir = paths.slot_dir(slot);
    let mut report: Vec<String> = Vec::new();
    report.push(concat2("removed slot: ", slot));
    if was_in_rotation {
        report.push(concat2("removed from rotation: ", slot));
    } else {
        report.push(concat2("not in rotation: ", slot));
    }
    if !args.delete_files {
        report.push(concat2("slot files kept: ", dir.as_str()));
    } else if deleted {
        report.push(concat2("deleted slot files: ", dir.as_str()));
    } else {
        report.push(concat2("slot files not found: ", dir.as_str()));
    }
    proof {
        assert(crate::text::texts(report@) =~= remove_report(
            *paths,
            args,
            was_in_rotation,
            deleted,
        ));
    }
    Ok(report)
}

/// What was observed before a login is copied.
#[derive(Debug)]
pub struct AuthObservation {
    pub auth_exists: bool,
    pub current_exists: bool,
    pub current_in_slot: SlotEntry,
    pub accounts_is_dir: bool,
    pub accounts_in_slot: SlotEntry,
}

/// Whether `entry` is a link to `path`, or nothing if it cannot be read.
pub open spec fn links_to(entry: EntryModel, path: Seq<char>) -> Option<bool> {
    match entry {
        EntryModel::UnreadableLink => None,
        EntryModel::Link(target) => Some(
            crate::paths::components_of(target) == crate::paths::components_of(path),
        ),
        _ => Some(false),
    }
}

fn is_link_to(entry: &SlotEntry, path: &str) -> (out: Option<bool>)
    ensures
        out == links_to(entry@, path@),
{
    match entry {
        SlotEntry::UnreadableLink => None,
        SlotEntry::Link(target) => Some(same_path(target.as_str(), path)),
        _ => Some(false),
    }
}

/// The steps that copy the login of the default slot into a slot.
pub open spec fn auth_steps(paths: ManagerPaths, slot: Seq<char>, seen: &AuthObservation) -> Result<
    Seq<StepModel>,
    Seq<char>,
> {
    let base = paths.base_codex_home@;
    let home = paths.slot_home_text(slot);
    let current = crate::paths::joined_path(base, "current"@);
    let accounts = crate::paths::joined_path(base, "accounts"@);
    let slot_current = crate::paths::joined_path(home, "current"@);
    let slot_accounts = crate::paths::joined_path(home, "accounts"@);
    let a: Seq<StepModel> = if seen.auth_exists {
        seq![
            StepModel::CopyFile {
                source: crate::paths::joined_path(base, "auth.json"@),
                dest: crate::paths::joined_path(home, "auth.json"@),
            },
        ]
    } else {
        seq![]
    };
    let b: Result<Seq<StepModel>, Seq<char>> = if !seen.current_exists {
        Ok(a)
    } else {
        match links_to(seen.current_in_slot@, current) {
            None => Err(unread_link(slot_current)),
            Some(true) => Ok(a),
            Some(false) => Ok(
                a.push(StepModel::CopyFile { source: current, dest: slot_current }),
            ),
        }
    };
    match b {
        Err(message) => Err(message),
        Ok(steps) => if !seen.accounts_is_dir {
            Ok(steps)
        } else {
            match links_to(seen.accounts_in_slot@, accounts) {
                None => Err(unread_link(slot_accounts)),
                Some(true) => Ok(steps),
                Some(false) => {
                    let cleared = if seen.accounts_in_slot@ is Absent {
                        steps
                    } else {
                        steps.push(StepModel::RemovePath(slot_accounts))
                    };
                    Ok(cleared.push(StepModel::CopyDir { source: accounts, dest: slot_accounts }))
                },
            }
        },
    }
}

/// Plans how the login of the default slot is copied into a slot.
pub fn copy_auth_from_current(paths: &ManagerPaths, slot: &str, seen: &AuthObservation) -> (out:
    Result<Vec<LayoutStep>, String>)
    ensures
        plan_result(out) == auth_steps(*paths, slot@, seen),
{
    let base = paths.base_codex_home.as_str();
    let home = paths.slot_home(slot);
    let current = join_path(base, "current");
    let accounts = join_path(base, "accounts");
    let slot_current = join_path(home.as_str(), "current");
    let slot_accounts = join_path(home.as_str(), "accounts");
    let mut out = no_steps();
    if seen.auth_exists {
        let source = join_path(base, "auth.json");
        let dest = join_path(home.as_str(), "auth.json");
        let ghost first = StepModel::CopyFile { source: source@, dest: dest@ };
        push_step(&mut out, LayoutStep::CopyFile { source, dest });
        proof {
            assert(step_models(out@) =~= seq![first]);
        }
    }
    if seen.current_exists {
        match is_link_to(&seen.current_in_slot, current.as_str()) {
            None => {
                return Err(concat2("read link ", slot_current.as_str()));
            },
            Some(true) => {},
            Some(false) => {
                push_step(&mut out, LayoutStep::CopyFile { source: current, dest: slot_current });
            },
        }
    }
    if seen.accounts_is_dir {
        match is_link_to(&seen.accounts_in_slot, accounts.as_str()) {
            None => {
                return Err(concat2("read link ", slot_accounts.as_str()));
            },
            Some(true) => {},
            Some(false) => {
                let absent = match &seen.accounts_in_slot {
                    SlotEntry::Absent => true,
                    _ => false,
                };
                if !absent {
                    push_step(&mut out, LayoutStep::RemovePath(slot_accounts.clone()));
                }
                push_step(&mut out, LayoutStep::CopyDir { source: accounts, dest: slot_accounts });
            },
        }
    }
    Ok(out)
}

/// `name` as a quoted name in SQL.
pub open spec fn quoted_ident(name: Seq<char>) -> Seq<char> {
    "\""@ + crate::text::replaced(name, "\""@, "\"\""@) + "\""@
}

/// `name` as a quoted name in SQL.
pub fn quote_sqlite_ident(name: &str) -> (out: String)
    ensures
        out@ == quoted_ident(name@),
{
    proof {
        reveal_strlit("\"");
    }
    concat3("\"", replace_all(name, "\"", "\"\"").as_str(), "\"")
}

/// The statement that adds the rows of a table of the slot's database.
pub fn merge_table_sql(table: &str) -> (out: String)
    ensures
        out@ == "INSERT OR IGNORE INTO "@ + quoted_ident(table@) + " SELECT * FROM slot_db."@
            + quoted_ident(table@),
{
    let ident = quote_sqlite_ident(table);
    concat4("INSERT OR IGNORE INTO ", ident.as_str(), " SELECT * FROM slot_db.", ident.as_str())
}

// ---------------------------------------------------------------------------
// Further laws
// ---------------------------------------------------------------------------

/// A list in a file holds its lines in order, without the space around them; empty lines
/// and those that begin with a number sign do not count.
pub proof fn lists_hold_their_lines(a: Seq<Seq<char>>, b: Seq<Seq<char>>, line: Seq<char>)
    ensures
        listed(a + b) == listed(a) + listed(b),
        ({
            let entry = crate::lines::trimmed(line);
            listed(seq![line]) == (if entry.len() == 0 || entry[0] == '#' {
                seq![]
            } else {
                seq![entry]
            })
        }),
    decreases b.len(),
{
    assert(seq![line].drop_last() =~= seq![]);
    assert(seq![line].last() == line);
    assert(listed(Seq::<Seq<char>>::empty()) =~= seq![]);
    assert(Seq::<Seq<char>>::empty().push(crate::lines::trimmed(line)) =~= seq![
        crate::lines::trimmed(line),
    ]);
    if b.len() == 0 {
        assert(a + b =~= a);
        assert(listed(a) + listed(b) =~= listed(a));
    } else {
        lists_hold_their_lines(a, b.drop_last(), line);
        assert((a + b).drop_last() =~= a + b.drop_last());
        assert((a + b).last() == b.last());
        assert(listed(a + b) =~= listed(a) + listed(b));
    }
}

/// The default slot comes first in rotation where it has a login, and nowhere else; the
/// other slots are those that the file lists, in its order.
pub proof fn rotations_hold_listed_slots(default_has_auth: bool, content: Option<Seq<char>>, slot: Seq<char>)
    ensures
        default_has_auth ==> rotation_of(default_has_auth, content).len() > 0 && rotation_of(
            default_has_auth,
            content,
        )[0] == "default"@,
        rotation_of(default_has_auth, content).contains("default"@) == default_has_auth,
        slot != "default"@ ==> rotation_of(default_has_auth, content).contains(slot) == (
        content matches Some(text) && listed(crate::lines::lines_of(text)).contains(slot)),
        content matches Some(text) ==> !listed(crate::lines::lines_of(text)).contains("default"@)
            ==> rotation_of(default_has_auth, content).skip(
            if default_has_auth {
                1int
            } else {
                0
            },
        ) == listed(crate::lines::lines_of(text)),
{
    let d = "default"@;
    let slots = rotation_of(default_has_auth, content);
    let first: Seq<Seq<char>> = if default_has_auth {
        seq![d]
    } else {
        seq![]
    };
    match content {
        Some(text) => {
            let names = listed(crate::lines::lines_of(text));
            lemma_without(names, d);
            let rest = without(names, d);
            assert(slots =~= first + rest);
            lemma_joined_contains(first, rest, slot);
            lemma_joined_contains(first, rest, d);
            if default_has_auth {
                assert(first[0] == d);
                assert(first.contains(d));
            }
            assert(slots.skip(first.len() as int) =~= rest);
        },
        None => {
            if default_has_auth {
                assert(first[0] == d);
                assert(first.contains(d));
            }
        },
    }
}

proof fn lemma_joined_contains(a: Seq<Seq<char>>, b: Seq<Seq<char>>, item: Seq<char>)
    ensures
        (a + b).contains(item) == (a.contains(item) || b.contains(item)),
{
    let all = a + b;
    if a.contains(item) {
        let k = choose|k: int| 0 <= k < a.len() && a[k] == item;
        assert(all[k] == item);
    }
    if b.contains(item) {
        let k = choose|k: int| 0 <= k < b.len() && b[k] == item;
        assert(all[a.len() + k] == item);
    }
    if all.contains(item) {
        let k = choose|k: int| 0 <= k < all.len() && all[k] == item;
        if k < a.len() {
            assert(a[k] == item);
        } else {
            assert(b[k - a.len()] == item);
        }
    }
}

/// The rotation is rewritten when a slot is added that is not in it, or removed that is,
/// and left alone otherwise. Removing a slot removes no other.
pub proof fn rotations_change_only_as_asked(
    default_has_auth: bool,
    content: Option<Seq<char>>,
    slot: Seq<char>,
    other: Seq<char>,
)
    requires
        slot != "default"@,
        other != slot,
    ensures
        appended_rotation(default_has_auth, content, slot) is Some <==> !rotation_of(
            default_has_auth,
            content,
        ).contains(slot),
        removed_rotation(default_has_auth, content, slot) is Some <==> rotation_of(
            default_has_auth,
            content,
        ).contains(slot),
        removed_rotation(default_has_auth, content, slot) is Some ==> rotation_of(
            default_has_auth,
            removed_rotation(default_has_auth, content, slot),
        ).contains(other) == rotation_of(default_has_auth, content).contains(other),
{
    let slots = rotation_of(default_has_auth, content);
    lemma_without(slots, slot);
    lemma_without_shrinks(slots, slot);
    rotations_hold_listed_slots(default_has_auth, content, slot);
    if removed_rotation(default_has_auth, content, slot) is Some {
        removed_slots_leave_rotation(default_has_auth, content, slot);
    }
}

proof fn lemma_without_shrinks(names: Seq<Seq<char>>, name: Seq<char>)
    ensures
        names.contains(name) ==> without(names, name).len() < names.len(),
    decreases names.len(),
{
    if names.len() > 0 {
        let rest = names.drop_last();
        lemma_without(rest, name);
        lemma_without_shrinks(rest, name);
        if names.contains(name) && names.last() != name {
            let k = choose|k: int| 0 <= k < names.len() && names[k] == name;
            assert(rest[k] == name);
        }
    }
}

/// What a new slot has to share is linked to the shared side where that exists or is to
/// be linked anyway; a link that leads there stays, one that leads elsewhere is replaced,
/// and what the slot has of its own is left alone.
pub proof fn new_slots_link_what_is_shared(
    state: StateModel,
    canonical: Seq<char>,
    slot: Seq<char>,
    target: Seq<char>,
)
    ensures
        ({
            let always = ensure_steps(SlotCreationPolicy::AlwaysLink, state, canonical, slot);
            let existing = ensure_steps(
                SlotCreationPolicy::LinkWhenCanonicalExists,
                state,
                canonical,
                slot,
            );
            let link = StepModel::Link { source: canonical, dest: slot };
            let leads_there = crate::paths::components_of(target) == crate::paths::components_of(
                canonical,
            );
            &&& state.canonical_exists ==> existing == always
            &&& !state.canonical_exists ==> existing == Ok::<Seq<StepModel>, Seq<char>>(seq![])
            &&& state.slot == EntryModel::Absent ==> always == Ok::<Seq<StepModel>, Seq<char>>(
                seq![link],
            )
            &&& state.slot == EntryModel::Private ==> always == Ok::<Seq<StepModel>, Seq<char>>(
                seq![],
            )
            &&& state.slot == EntryModel::Link(target) && leads_there ==> always == Ok::<
                Seq<StepModel>,
                Seq<char>,
            >(seq![])
            &&& state.slot == EntryModel::Link(target) && !leads_there ==> always == Ok::<
                Seq<StepModel>,
                Seq<char>,
            >(seq![StepModel::RemoveFile(slot), link])
            &&& state.slot == EntryModel::UnreadableLink ==> always is Err
        }),
{
}

/// Nothing is wrong with what a slot shares if it is a link to the shared side, or is
/// missing on both sides.
pub proof fn audits_want_links(state: StateModel, canonical: Seq<char>)
    ensures
        resource_issue(state, canonical) == Ok::<Option<Seq<char>>, ()>(None) <==> {
            ||| state.slot is Absent && !state.canonical_exists && !state.canonical_is_link
            ||| state.slot is Link && crate::paths::components_of(state.slot->Link_0)
                == crate::paths::components_of(canonical)
        },
        resource_issue(state, canonical) is Err <==> state.slot is UnreadableLink,
{
}

proof fn lemma_issues(
    paths: ManagerPaths,
    slot: Seq<char>,
    states: Seq<StateModel>,
    before: Seq<(Seq<char>, Seq<char>)>,
    n: nat,
    k: int,
)
    requires
        issues_up_to(paths, slot, states, before, n) is Ok,
    ensures
        ({
            let found = issues_up_to(paths, slot, states, before, n)->Ok_0;
            &&& found.len() >= before.len()
            &&& found.take(before.len() as int) == before
            &&& 0 <= k < n ==> {
                let name = crate::shared::shared_table()[k].name;
                let issue = resource_issue(
                    states[k],
                    crate::shared::canonical_path_of(paths, name),
                );
                &&& issue is Ok
                &&& issue->Ok_0 matches Some(message) ==> found.contains(
                    (crate::shared::slot_path_of(paths, slot, name), message),
                )
            }
            &&& (forall|i: int|
                0 <= i < n ==> #[trigger] resource_issue(
                    states[i],
                    crate::shared::canonical_path_of(paths, crate::shared::shared_table()[i].name),
                ) == Ok::<Option<Seq<char>>, ()>(None)) ==> found == before
        }),
    decreases n,
{
    let found = issues_up_to(paths, slot, states, before, n)->Ok_0;
    if n == 0 {
        assert(found.take(before.len() as int) =~= before);
    } else {
        let m = (n - 1) as nat;
        lemma_issues(paths, slot, states, before, m, k);
        let rest = issues_up_to(paths, slot, states, before, m)->Ok_0;
        let name = crate::shared::shared_table()[n - 1].name;
        let path = crate::shared::slot_path_of(paths, slot, name);
        let issue = resource_issue(states[n - 1], crate::shared::canonical_path_of(paths, name));
        match issue->Ok_0 {
            Some(message) => {
                assert(found == rest.push((path, message)));
                assert(found[rest.len() as int] == (path, message));
                assert(found.take(before.len() as int) =~= rest.take(before.len() as int));
                if 0 <= k < m {
                    let other = crate::shared::shared_table()[k].name;
                    let there = resource_issue(
                        states[k],
                        crate::shared::canonical_path_of(paths, other),
                    );
                    match there->Ok_0 {
                        Some(said) => {
                            let item = (crate::shared::slot_path_of(paths, slot, other), said);
                            let i = choose|i: int| 0 <= i < rest.len() && rest[i] == item;
                            assert(found[i] == item);
                        },
                        None => {},
                    }
                }
            },
            None => {},
        }
    }
}

/// An audit reports every thing that a slot should share and does not, and a login that
/// is missing or shared; it reports nothing where all is as it should be.
pub proof fn audits_find_every_issue(
    paths: ManagerPaths,
    slot: Seq<char>,
    observed: &SlotObservation,
    k: int,
)
    requires
        is_slot_name(slot),
        observed.home_is_dir,
        audited(paths, slot, observed) is Ok,
    ensures
        ({
            let found = audited(paths, slot, observed)->Ok_0;
            let table = crate::shared::shared_table();
            let states = state_models(observed.resources@);
            let login = crate::paths::joined_path(paths.slot_home_text(slot), "auth.json"@);
            &&& !observed.auth_exists ==> found.len() > 0 && found[0] == (
                login,
                "missing slot auth.json"@,
            )
            &&& observed.auth_exists && observed.auth_is_link ==> found.len() > 0 && found[0] == (
                login,
                "auth.json should be slot-private, not a symlink"@,
            )
            &&& 0 <= k < table.len() ==> {
                let issue = resource_issue(
                    states[k],
                    crate::shared::canonical_path_of(paths, table[k].name),
                );
                issue->Ok_0 matches Some(message) ==> found.contains(
                    (crate::shared::slot_path_of(paths, slot, table[k].name), message),
                )
            }
            &&& observed.auth_exists && !observed.auth_is_link && (forall|i: int|
                0 <= i < table.len() ==> #[trigger] resource_issue(
                    states[i],
                    crate::shared::canonical_path_of(paths, table[i].name),
                ) == Ok::<Option<Seq<char>>, ()>(None)) ==> found.len() == 0
        }),
{
    let login = crate::paths::joined_path(paths.slot_home_text(slot), "auth.json"@);
    let before = auth_issues(observed.auth_exists, observed.auth_is_link, login);
    lemma_issues(
        paths,
        slot,
        state_models(observed.resources@),
        before,
        crate::shared::shared_table().len(),
        k,
    );
    let found = audited(paths, slot, observed)->Ok_0;
    if before.len() > 0 {
        assert(found.take(before.len() as int)[0] == before[0]);
        assert(found[0] == before[0]);
    }
}

/// A slot without a home has no other issue, and one with a bad name is not looked at.
pub proof fn audits_look_for_the_home(paths: ManagerPaths, slot: Seq<char>, observed: &SlotObservation)
    ensures
        !is_slot_name(slot) ==> audited(paths, slot, observed) is Err,
        is_slot_name(slot) && !observed.home_is_dir ==> audited(paths, slot, observed) == Ok::<
            Seq<(Seq<char>, Seq<char>)>,
            Seq<char>,
        >(seq![(paths.slot_home_text(slot), "missing slot home"@)]),
{
}

/// The settings that a slot is added with are the ones that its runs read. Without any,
/// settings that are there stay.
pub proof fn added_settings_read_back(lines: Seq<Seq<char>>, exists: bool)
    requires
        forall|i: int| 0 <= i < lines.len() ==> is_list_entry(#[trigger] lines[i]),
    ensures
        settings_text(lines, exists) matches Some(text) ==> listed(crate::lines::lines_of(text))
            == lines,
        settings_text(lines, exists) is None <==> lines.len() == 0 && exists,
{
    if lines.len() > 0 {
        lemma_rotation_text(lines);
        lemma_block_reads_back(lines);
    } else {
        reveal_strlit("");
        assert(""@ =~= seq![]);
        assert(crate::lines::lines_of(""@) =~= seq![]);
        assert(listed(Seq::<Seq<char>>::empty()) =~= lines);
    }
}

/// The variables that a slot is added with are written as its file of variables. Without
/// any, a file that is there stays.
pub proof fn added_variables_are_written(envs: Seq<Seq<char>>, exists: bool)
    ensures
        envs.len() > 0 ==> (match crate::envfile::env_file(envs) {
            Ok(text) => env_text(envs, exists) == Ok::<Option<Seq<char>>, Seq<char>>(Some(text)),
            Err(message) => env_text(envs, exists) == Err::<Option<Seq<char>>, Seq<char>>(message),
        }),
        envs.len() == 0 ==> env_text(envs, exists) is Ok && env_text(envs, exists)->Ok_0 is None
            == exists,
{
}

/// A login that is there is copied from the base home into the slot, before all else; what
/// is not there is not copied.
pub proof fn logins_are_copied(paths: ManagerPaths, slot: Seq<char>, seen: &AuthObservation, k: int)
    requires
        auth_steps(paths, slot, seen) is Ok,
    ensures
        ({
            let steps = auth_steps(paths, slot, seen)->Ok_0;
            let base = paths.base_codex_home@;
            let home = paths.slot_home_text(slot);
            let login = StepModel::CopyFile {
                source: crate::paths::joined_path(base, "auth.json"@),
                dest: crate::paths::joined_path(home, "auth.json"@),
            };
            let current = StepModel::CopyFile {
                source: crate::paths::joined_path(base, "current"@),
                dest: crate::paths::joined_path(home, "current"@),
            };
            let accounts = StepModel::CopyDir {
                source: crate::paths::joined_path(base, "accounts"@),
                dest: crate::paths::joined_path(home, "accounts"@),
            };
            &&& seen.auth_exists ==> steps.len() > 0 && steps[0] == login
            &&& !seen.auth_exists && !seen.current_exists && !seen.accounts_is_dir ==> steps.len()
                == 0
            &&& seen.current_exists && seen.current_in_slot@ !is Link ==> steps.contains(current)
            &&& seen.accounts_is_dir && seen.accounts_in_slot@ !is Link ==> steps.len() > 0
                && steps.last() == accounts
            &&& 0 <= k < steps.len() ==> steps[k] == login || steps[k] == current || steps[k]
                == accounts || steps[k] == StepModel::RemovePath(
                crate::paths::joined_path(home, "accounts"@),
            )
        }),
{
    let steps = auth_steps(paths, slot, seen)->Ok_0;
    let base = paths.base_codex_home@;
    let home = paths.slot_home_text(slot);
    let current = StepModel::CopyFile {
        source: crate::paths::joined_path(base, "current"@),
        dest: crate::paths::joined_path(home, "current"@),
    };
    if seen.current_exists && seen.current_in_slot@ !is Link {
        if seen.auth_exists {
            assert(steps[1] == current);
        } else {
            assert(steps[0] == current);
        }
    }
}

/// What a slot has of its own is moved into the home that all share: directories are
/// merged, what is only added to is added, and another file is copied where there is
/// none yet.
pub proof fn own_files_are_moved_to_the_shared_home(
    canonical_exists: bool,
    canonical: Seq<char>,
    slot: Seq<char>,
)
    ensures
        merge_steps(SharedResourceKind::Directory, canonical_exists, canonical, slot) == seq![
            StepModel::MergeDir { source: slot, dest: canonical },
        ],
        merge_steps(SharedResourceKind::AppendOnlyFile, true, canonical, slot) == seq![
            StepModel::AppendFile { source: slot, dest: canonical },
        ],
        merge_steps(SharedResourceKind::AppendOnlyFile, false, canonical, slot) == seq![
            StepModel::CopyFile { source: slot, dest: canonical },
        ],
        merge_steps(SharedResourceKind::RegularFile, false, canonical, slot) == seq![
            StepModel::CopyFile { source: slot, dest: canonical },
        ],
        merge_steps(SharedResourceKind::RegularFile, true, canonical, slot).len() == 0,
{
}

/// A link is made where there is none, in place of a wrong one, and never in place of
/// what a slot has of its own.
pub proof fn links_replace_links_only(target: Seq<char>, source: Seq<char>, dest: Seq<char>)
    ensures
        link_steps(EntryModel::Private, source, dest).len() == 0,
        link_steps(EntryModel::Absent, source, dest) == seq![StepModel::Link { source, dest }],
        link_steps(EntryModel::Link(target), source, dest) == seq![
            StepModel::RemoveFile(dest),
            StepModel::Link { source, dest },
        ],
        link_steps(EntryModel::UnreadableLink, source, dest) == seq![
            StepModel::RemoveFile(dest),
            StepModel::Link { source, dest },
        ],
        links_to(EntryModel::Link(source), source) == Some(true),
        links_to(EntryModel::Private, source) == Some(false),
        links_to(EntryModel::Absent, source) == Some(false),
        links_to(EntryModel::UnreadableLink, source) is None,
{
}

/// A home is made before anything is put into it, and each shared resource adds its own
/// steps behind those of the ones before.
pub proof fn homes_are_made_first(
    paths: ManagerPaths,
    slot: Seq<char>,
    states: Seq<StateModel>,
    n: nat,
)
    ensures
        ensure_all(paths, slot, states, n) matches Ok(steps) ==> steps.len() > 0 && steps[0]
            == StepModel::CreateDir(paths.slot_home_text(slot)),
        repair_all(paths, slot, states, n) matches Ok(steps) ==> steps.len() > 0 && steps[0]
            == StepModel::CreateDir(paths.slot_home_text(slot)),
        n > 0 && ensure_all(paths, slot, states, (n - 1) as nat) is Err ==> ensure_all(
            paths,
            slot,
            states,
            n,
        ) is Err,
        n > 0 && repair_all(paths, slot, states, (n - 1) as nat) is Err ==> repair_all(
            paths,
            slot,
            states,
            n,
        ) is Err,
    decreases n,
{
    if n > 0 {
        homes_are_made_first(paths, slot, states, (n - 1) as nat);
    }
}

/// A slot has a login of its own: none, or one that is linked, is noted.
pub proof fn logins_are_slots_own(auth_exists: bool, auth_is_link: bool, path: Seq<char>)
    ensures
        auth_exists && !auth_is_link ==> auth_issues(auth_exists, auth_is_link, path).len() == 0,
        !auth_exists ==> auth_issues(auth_exists, auth_is_link, path) == seq![
            (path, "missing slot auth.json"@),
        ],
        auth_exists && auth_is_link ==> auth_issues(auth_exists, auth_is_link, path) == seq![
            (path, "auth.json should be slot-private, not a symlink"@),
        ],
{
}

/// What was done to a slot that was added or removed is told, and nothing that was not.
pub proof fn what_was_done_is_told(
    paths: ManagerPaths,
    add: &AddArgs,
    remove: &RemoveArgs,
    was_in_rotation: bool,
    deleted: bool,
)
    ensures
        ({
            let lines = add_report(paths, add);
            let copied = "copied auth from current ~/.codex into slot: "@ + add.slot@;
            let rotated = "added to rotation: "@ + add.slot@;
            &&& lines[0] == "updated slot: "@ + add.slot@
            &&& lines.last() == "slot home: "@ + paths.slot_home_text(add.slot@)
            &&& add.from_current ==> lines[1] == copied
            &&& add.rotate ==> lines[lines.len() - 2] == rotated
            &&& !add.from_current && !add.rotate ==> lines.len() == 2
            &&& add.from_current && !add.rotate ==> lines.len() == 3
            &&& !add.from_current && add.rotate ==> lines.len() == 3
        }),
        ({
            let lines = remove_report(paths, remove, was_in_rotation, deleted);
            let dir = paths.slot_dir_text(remove.slot@);
            &&& lines.len() == 3
            &&& lines[0] == "removed slot: "@ + remove.slot@
            &&& was_in_rotation ==> lines[1] == "removed from rotation: "@ + remove.slot@
            &&& !was_in_rotation ==> lines[1] == "not in rotation: "@ + remove.slot@
            &&& !remove.delete_files ==> lines[2] == "slot files kept: "@ + dir
            &&& remove.delete_files && deleted ==> lines[2] == "deleted slot files: "@ + dir
            &&& remove.delete_files && !deleted ==> lines[2] == "slot files not found: "@ + dir
        }),
{
}

/// The name of a slot is something, and holds letters, digits, dots, lines and dashes.
pub proof fn slot_names_hold_plain_characters(name: Seq<char>)
    ensures
        is_slot_name(name) <==> name.len() > 0 && forall|i: int|
            0 <= i < name.len() ==> ('a' <= #[trigger] name[i] <= 'z') || ('A' <= name[i] <= 'Z')
                || ('0' <= name[i] <= '9') || name[i] == '.' || name[i] == '_' || name[i] == '-',
{
    if is_slot_name(name) {
        assert forall|i: int| 0 <= i < name.len() implies ('a' <= #[trigger] name[i] <= 'z') || ('A'
            <= name[i] <= 'Z') || ('0' <= name[i] <= '9') || name[i] == '.' || name[i] == '_'
            || name[i] == '-' by {
            assert(is_slot_char(name[i]));
        }
    }
}

} // verus!
