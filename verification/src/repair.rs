//! What the steps of a repair do to the files of a slot, and what they keep.

use vstd::prelude::*;

use crate::paths::ManagerPaths;
use crate::shared::SharedResourceKind;
use crate::slot::EntryModel;
use crate::slot::SlotObservation;
use crate::slot::StateModel;
use crate::slot::StepModel;

verus! {

// ---------------------------------------------------------------------------
// Files
// ---------------------------------------------------------------------------

/// What stands at a path.
pub enum NodeModel {
    File(Seq<u8>),
    /// The files below a directory, by the names on the way to them.
    Dir(Map<Seq<Seq<char>>, Seq<u8>>),
    /// A link and where it leads.
    Link(Seq<char>),
}

/// Whether some file lies below `path`.
pub open spec fn is_dir_among(files: Map<Seq<Seq<char>>, Seq<u8>>, path: Seq<Seq<char>>) -> bool {
    exists|file: Seq<Seq<char>>| #[trigger]
        files.dom().contains(file) && path.len() < file.len() && file.take(path.len() as int) == path
}

/// The files of a directory with those of another whose places are free.
pub open spec fn merged_files(
    files: Map<Seq<Seq<char>>, Seq<u8>>,
    more: Map<Seq<Seq<char>>, Seq<u8>>,
) -> Map<Seq<Seq<char>>, Seq<u8>> {
    Map::new(
        |path: Seq<Seq<char>>|
            files.dom().contains(path) || (more.dom().contains(path) && !is_dir_among(files, path)),
        |path: Seq<Seq<char>>|
            if files.dom().contains(path) {
                files[path]
            } else {
                more[path]
            },
    )
}

/// What stands where after a step that succeeds. Nothing is written through a link.
pub open spec fn disk_after(disk: Map<Seq<char>, NodeModel>, step: StepModel) -> Map<
    Seq<char>,
    NodeModel,
> {
    match step {
        StepModel::CreateDir(path) => if disk.dom().contains(path) {
            disk
        } else {
            disk.insert(path, NodeModel::Dir(Map::empty()))
        },
        StepModel::RemoveFile(path) => disk.remove(path),
        StepModel::RemovePath(path) => disk.remove(path),
        StepModel::Link { source, dest } => if disk.dom().contains(dest) {
            disk
        } else {
            disk.insert(dest, NodeModel::Link(source))
        },
        StepModel::CopyFile { source, dest } => if disk.dom().contains(source)
            && disk[source] is File && !(disk.dom().contains(dest) && disk[dest] is Link) {
            disk.insert(dest, disk[source])
        } else {
            disk
        },
        StepModel::CopyDir { source, dest } => if disk.dom().contains(source) && disk[source] is Dir
            && !disk.dom().contains(dest) {
            disk.insert(dest, disk[source])
        } else {
            disk
        },
        StepModel::AppendFile { source, dest } => if disk.dom().contains(source)
            && disk.dom().contains(dest) && disk[source] is File && disk[dest] is File {
            disk.insert(dest, NodeModel::File(disk[dest]->File_0 + disk[source]->File_0))
        } else {
            disk
        },
        StepModel::MergeDir { source, dest } => if disk.dom().contains(source)
            && disk.dom().contains(dest) && disk[source] is Dir && disk[dest] is Dir {
            disk.insert(
                dest,
                NodeModel::Dir(merged_files(disk[dest]->Dir_0, disk[source]->Dir_0)),
            )
        } else {
            disk
        },
    }
}

/// What stands where after some steps.
pub open spec fn disk_after_all(disk: Map<Seq<char>, NodeModel>, steps: Seq<StepModel>) -> Map<
    Seq<char>,
    NodeModel,
>
    decreases steps.len(),
{
    if steps.len() == 0 {
        disk
    } else {
        disk_after(disk_after_all(disk, steps.drop_last()), steps.last())
    }
}

/// Whether a state is that of something shared. Whether a shared side that is a link
/// exists depends on what is behind it.
pub open spec fn is_state_of(
    state: StateModel,
    disk: Map<Seq<char>, NodeModel>,
    canonical: Seq<char>,
    slot: Seq<char>,
) -> bool {
    &&& state.canonical_is_link == (disk.dom().contains(canonical) && disk[canonical] is Link)
    &&& !state.canonical_is_link ==> state.canonical_exists == disk.dom().contains(canonical)
    &&& match state.slot {
        EntryModel::Absent => !disk.dom().contains(slot),
        EntryModel::Private => disk.dom().contains(slot) && !(disk[slot] is Link),
        EntryModel::Link(target) => disk.dom().contains(slot) && disk[slot] == NodeModel::Link(
            target,
        ),
        EntryModel::UnreadableLink => disk.dom().contains(slot) && disk[slot] is Link,
    }
}

/// Where the `i`-th of the things that slots share lies.
pub open spec fn shared_path(paths: ManagerPaths, i: int) -> Seq<char> {
    crate::shared::canonical_path_of(paths, crate::shared::shared_table()[i].name)
}

/// Where a slot has its link to the `i`-th of the things that slots share.
pub open spec fn link_path(paths: ManagerPaths, slot: Seq<char>, i: int) -> Seq<char> {
    crate::shared::slot_path_of(paths, slot, crate::shared::shared_table()[i].name)
}

/// Where a slot has its login.
pub open spec fn login_path(paths: ManagerPaths, slot: Seq<char>) -> Seq<char> {
    crate::paths::joined_path(paths.slot_home_text(slot), "auth.json"@)
}

/// Whether states are those of all that a slot shares.
pub open spec fn are_states_of(
    states: Seq<StateModel>,
    disk: Map<Seq<char>, NodeModel>,
    paths: ManagerPaths,
    slot: Seq<char>,
) -> bool {
    &&& states.len() == crate::shared::shared_table().len()
    &&& forall|i: int|
        0 <= i < states.len() ==> is_state_of(
            #[trigger] states[i],
            disk,
            shared_path(paths, i),
            link_path(paths, slot, i),
        )
}

/// Whether what was observed of a slot is what stands there.
pub open spec fn is_observation_of(
    observed: SlotObservation,
    disk: Map<Seq<char>, NodeModel>,
    paths: ManagerPaths,
    slot: Seq<char>,
) -> bool {
    let home = paths.slot_home_text(slot);
    let login = login_path(paths, slot);
    &&& are_states_of(crate::slot::state_models(observed.resources@), disk, paths, slot)
    &&& disk.dom().contains(home) && disk[home] is Dir ==> observed.home_is_dir
    &&& disk.dom().contains(login) && disk[login] is File ==> observed.auth_exists
        && !observed.auth_is_link
}

/// Whether a slot is not the base home itself: none of its links is the shared side.
pub open spec fn is_apart(paths: ManagerPaths, slot: Seq<char>) -> bool {
    forall|i: int|
        0 <= i < crate::shared::shared_table().len() ==> #[trigger] link_path(paths, slot, i)
            != shared_path(paths, i)
}

/// Whether a path is a link to something shared.
pub open spec fn is_linked(
    disk: Map<Seq<char>, NodeModel>,
    canonical: Seq<char>,
    slot: Seq<char>,
) -> bool {
    node_at(disk, slot) matches Some(NodeModel::Link(target)) && crate::paths::components_of(target)
        == crate::paths::components_of(canonical)
}

/// What stands at a path, if anything does.
pub open spec fn node_at(disk: Map<Seq<char>, NodeModel>, path: Seq<char>) -> Option<NodeModel> {
    if disk.dom().contains(path) {
        Some(disk[path])
    } else {
        None
    }
}

/// What a repair leaves on the shared side: what was there, with what the slot had for
/// itself. A journal goes behind the shared one, the files of a directory go where
/// there is none yet, and another file only counts where there is none at all.
pub open spec fn kept_node(
    kind: SharedResourceKind,
    shared: Option<NodeModel>,
    private: Option<NodeModel>,
) -> Option<NodeModel> {
    let there = if shared is None && kind == SharedResourceKind::Directory {
        Some(NodeModel::Dir(Map::empty()))
    } else {
        shared
    };
    match (there, private) {
        (Some(NodeModel::File(head)), Some(NodeModel::File(tail))) => if kind
            == SharedResourceKind::AppendOnlyFile {
            Some(NodeModel::File(head + tail))
        } else {
            there
        },
        (Some(NodeModel::Dir(files)), Some(NodeModel::Dir(more))) => if kind
            == SharedResourceKind::Directory {
            Some(NodeModel::Dir(merged_files(files, more)))
        } else {
            there
        },
        (None, Some(NodeModel::File(text))) => Some(NodeModel::File(text)),
        _ => there,
    }
}

// ---------------------------------------------------------------------------
// Paths
// ---------------------------------------------------------------------------

/// A number that tells the names of what slots share apart.
spec fn mark(name: Seq<char>) -> int {
    name.len() * 1000000 + name[0] as int * 1000 + name[1] as int
}

/// The place of a name in the table, by its mark.
spec fn place(mark: int) -> int {
    if mark == 11099111 {
        0
    } else if mark == 9065071 {
        1
    } else if mark == 8097099 {
        2
    } else if mark == 7099117 {
        3
    } else if mark == 13104105 {
        4
    } else if mark == 8109101 {
        5
    } else if mark == 17109111 {
        6
    } else if mark == 26109111 {
        7
    } else if mark == 7112108 {
        8
    } else if mark == 7112114 {
        9
    } else if mark == 5114117 {
        10
    } else if mark == 19115101 {
        11
    } else if mark == 8115101 {
        12
    } else if mark == 15115104 {
        13
    } else if mark == 6115107 {
        14
    } else if mark == 11115107 {
        15
    } else if mark == 15105110 {
        16
    } else if mark == 14118101 {
        17
    } else if mark == 12118101 {
        18
    } else if mark == 10104111 {
        19
    } else if mark == 20104101 {
        20
    } else {
        -1
    }
}

spec fn is_plain(name: Seq<char>) -> bool {
    name.len() > 0 && forall|k: int| 0 <= k < name.len() ==> #[trigger] name[k] != '/'
}

#[verifier::rlimit(50)]
proof fn lemma_table_names(i: int)
    requires
        0 <= i < crate::shared::shared_table().len(),
    ensures
        is_plain(crate::shared::shared_table()[i].name),
        place(mark(crate::shared::shared_table()[i].name)) == i,
{
    if i == 0 {
        reveal_strlit("config.toml");
        assert("config.toml"@ =~= seq!['c', 'o', 'n', 'f', 'i', 'g', '.', 't', 'o', 'm', 'l']);
        assert(is_plain("config.toml"@));
    }
    if i == 1 {
        reveal_strlit("AGENTS.md");
        assert("AGENTS.md"@ =~= seq!['A', 'G', 'E', 'N', 'T', 'S', '.', 'm', 'd']);
        assert(is_plain("AGENTS.md"@));
    }
    if i == 2 {
        reveal_strlit("accounts");
        assert("accounts"@ =~= seq!['a', 'c', 'c', 'o', 'u', 'n', 't', 's']);
        assert(is_plain("accounts"@));
    }
    if i == 3 {
        reveal_strlit("current");
        assert("current"@ =~= seq!['c', 'u', 'r', 'r', 'e', 'n', 't']);
        assert(is_plain("current"@));
    }
    if i == 4 {
        reveal_strlit("history.jsonl");
        assert("history.jsonl"@ =~= seq!['h', 'i', 's', 't', 'o', 'r', 'y', '.', 'j', 's', 'o', 'n', 'l']);
        assert(is_plain("history.jsonl"@));
    }
    if i == 5 {
        reveal_strlit("memories");
        assert("memories"@ =~= seq!['m', 'e', 'm', 'o', 'r', 'i', 'e', 's']);
        assert(is_plain("memories"@));
    }
    if i == 6 {
        reveal_strlit("models_cache.json");
        assert("models_cache.json"@ =~= seq!['m', 'o', 'd', 'e', 'l', 's', '_', 'c', 'a', 'c', 'h', 'e', '.', 'j', 's', 'o', 'n']);
        assert(is_plain("models_cache.json"@));
    }
    if i == 7 {
        reveal_strlit("models_catalog_static.json");
        assert("models_catalog_static.json"@ =~= seq!['m', 'o', 'd', 'e', 'l', 's', '_', 'c', 'a', 't', 'a', 'l', 'o', 'g', '_', 's', 't', 'a', 't', 'i', 'c', '.', 'j', 's', 'o', 'n']);
        assert(is_plain("models_catalog_static.json"@));
    }
    if i == 8 {
        reveal_strlit("plugins");
        assert("plugins"@ =~= seq!['p', 'l', 'u', 'g', 'i', 'n', 's']);
        assert(is_plain("plugins"@));
    }
    if i == 9 {
        reveal_strlit("prompts");
        assert("prompts"@ =~= seq!['p', 'r', 'o', 'm', 'p', 't', 's']);
        assert(is_plain("prompts"@));
    }
    if i == 10 {
        reveal_strlit("rules");
        assert("rules"@ =~= seq!['r', 'u', 'l', 'e', 's']);
        assert(is_plain("rules"@));
    }
    if i == 11 {
        reveal_strlit("session_index.jsonl");
        assert("session_index.jsonl"@ =~= seq!['s', 'e', 's', 's', 'i', 'o', 'n', '_', 'i', 'n', 'd', 'e', 'x', '.', 'j', 's', 'o', 'n', 'l']);
        assert(is_plain("session_index.jsonl"@));
    }
    if i == 12 {
        reveal_strlit("sessions");
        assert("sessions"@ =~= seq!['s', 'e', 's', 's', 'i', 'o', 'n', 's']);
        assert(is_plain("sessions"@));
    }
    if i == 13 {
        reveal_strlit("shell_snapshots");
        assert("shell_snapshots"@ =~= seq!['s', 'h', 'e', 'l', 'l', '_', 's', 'n', 'a', 'p', 's', 'h', 'o', 't', 's']);
        assert(is_plain("shell_snapshots"@));
    }
    if i == 14 {
        reveal_strlit("skills");
        assert("skills"@ =~= seq!['s', 'k', 'i', 'l', 'l', 's']);
        assert(is_plain("skills"@));
    }
    if i == 15 {
        reveal_strlit("skills-data");
        assert("skills-data"@ =~= seq!['s', 'k', 'i', 'l', 'l', 's', '-', 'd', 'a', 't', 'a']);
        assert(is_plain("skills-data"@));
    }
    if i == 16 {
        reveal_strlit("installation_id");
        assert("installation_id"@ =~= seq!['i', 'n', 's', 't', 'a', 'l', 'l', 'a', 't', 'i', 'o', 'n', '_', 'i', 'd']);
        assert(is_plain("installation_id"@));
    }
    if i == 17 {
        reveal_strlit("vendor_imports");
        assert("vendor_imports"@ =~= seq!['v', 'e', 'n', 'd', 'o', 'r', '_', 'i', 'm', 'p', 'o', 'r', 't', 's']);
        assert(is_plain("vendor_imports"@));
    }
    if i == 18 {
        reveal_strlit("version.json");
        assert("version.json"@ =~= seq!['v', 'e', 'r', 's', 'i', 'o', 'n', '.', 'j', 's', 'o', 'n']);
        assert(is_plain("version.json"@));
    }
    if i == 19 {
        reveal_strlit("hooks.json");
        assert("hooks.json"@ =~= seq!['h', 'o', 'o', 'k', 's', '.', 'j', 's', 'o', 'n']);
        assert(is_plain("hooks.json"@));
    }
    if i == 20 {
        reveal_strlit("herdr-agent-state.sh");
        assert("herdr-agent-state.sh"@ =~= seq!['h', 'e', 'r', 'd', 'r', '-', 'a', 'g', 'e', 'n', 't', '-', 's', 't', 'a', 't', 'e', '.', 's', 'h']);
        assert(is_plain("herdr-agent-state.sh"@));
    }
}

spec fn front(base: Seq<char>) -> Seq<char> {
    if base.len() == 0 || base.last() == '/' {
        base
    } else {
        base.push('/')
    }
}

proof fn lemma_joined(base: Seq<char>, name: Seq<char>)
    requires
        is_plain(name),
    ensures
        crate::paths::joined_path(base, name) == front(base) + name,
        front(base).len() == 0 || front(base).last() == '/',
{
    assert(name[0] != '/');
}

proof fn lemma_same_end(p: Seq<char>, a: Seq<char>, q: Seq<char>, b: Seq<char>)
    requires
        p.len() == 0 || p.last() == '/',
        q.len() == 0 || q.last() == '/',
        is_plain(a),
        is_plain(b),
        p + a == q + b,
    ensures
        p == q,
        a == b,
{
    assert((p + a).len() == p.len() + a.len());
    assert((q + b).len() == q.len() + b.len());
    if p.len() < q.len() {
        assert((q + b)[q.len() - 1] == '/');
        assert((p + a)[q.len() - 1] == a[q.len() - 1 - p.len()]);
    } else if q.len() < p.len() {
        assert((p + a)[p.len() - 1] == '/');
        assert((q + b)[p.len() - 1] == b[p.len() - 1 - q.len()]);
    }
    assert forall|k: int| 0 <= k < p.len() implies p[k] == q[k] by {
        assert((p + a)[k] == p[k]);
        assert((q + b)[k] == q[k]);
    }
    assert forall|k: int| 0 <= k < a.len() implies a[k] == b[k] by {
        assert((p + a)[p.len() + k] == a[k]);
        assert((q + b)[p.len() + k] == b[k]);
    }
    assert(p =~= q);
    assert(a =~= b);
}

proof fn lemma_paths_apart(paths: ManagerPaths, slot: Seq<char>, i: int, j: int)
    requires
        is_apart(paths, slot),
        0 <= i < crate::shared::shared_table().len(),
        0 <= j < crate::shared::shared_table().len(),
    ensures
        i != j ==> shared_path(paths, i) != shared_path(paths, j),
        i != j ==> link_path(paths, slot, i) != link_path(paths, slot, j),
        link_path(paths, slot, i) != shared_path(paths, j),
        paths.slot_home_text(slot) != shared_path(paths, i),
        paths.slot_home_text(slot) != link_path(paths, slot, i),
        login_path(paths, slot) != shared_path(paths, i),
        login_path(paths, slot) != link_path(paths, slot, i),
        login_path(paths, slot) != paths.slot_home_text(slot),
{
    let base = paths.base_codex_home@;
    let home = paths.slot_home_text(slot);
    let a = crate::shared::shared_table()[i].name;
    let b = crate::shared::shared_table()[j].name;
    lemma_table_names(i);
    lemma_table_names(j);
    lemma_joined(base, a);
    lemma_joined(base, b);
    lemma_joined(home, a);
    lemma_joined(home, b);
    if front(base) + a == front(base) + b {
        lemma_same_end(front(base), a, front(base), b);
    }
    if front(home) + a == front(home) + b {
        lemma_same_end(front(home), a, front(home), b);
    }
    assert(link_path(paths, slot, i) != shared_path(paths, i));
    if front(home) + a == front(base) + b {
        lemma_same_end(front(home), a, front(base), b);
        assert(a == b);
    }
    reveal_strlit("home");
    reveal_strlit("auth.json");
    assert("home"@ =~= seq!['h', 'o', 'm', 'e']);
    assert("auth.json"@ =~= seq!['a', 'u', 't', 'h', '.', 'j', 's', 'o', 'n']);
    assert(is_plain("home"@));
    assert(is_plain("auth.json"@));
    assert(slot != "default"@) by {
        if slot == "default"@ {
            assert(home == base);
        }
    }
    let dir = paths.slot_dir_text(slot);
    lemma_joined(dir, "home"@);
    lemma_joined(home, "auth.json"@);
    assert(mark("home"@) == 4104111);
    assert(mark("auth.json"@) == 9097117);
    if home == front(base) + a {
        lemma_same_end(front(dir), "home"@, front(base), a);
    }
    assert((front(home) + a).len() > home.len());
    if front(home) + "auth.json"@ == front(base) + a {
        lemma_same_end(front(home), "auth.json"@, front(base), a);
    }
    if front(home) + "auth.json"@ == front(home) + a {
        lemma_same_end(front(home), "auth.json"@, front(home), a);
    }
    assert((front(home) + "auth.json"@).len() > home.len());
}

/// A slot whose home is not the base home lies apart from it.
pub proof fn other_homes_are_apart(paths: ManagerPaths, slot: Seq<char>)
    requires
        paths.slot_home_text(slot) != paths.base_codex_home@,
        paths.slot_home_text(slot).push('/') != paths.base_codex_home@,
    ensures
        is_apart(paths, slot),
{
    let base = paths.base_codex_home@;
    let home = paths.slot_home_text(slot);
    let dir = paths.slot_dir_text(slot);
    reveal_strlit("home");
    assert("home"@ =~= seq!['h', 'o', 'm', 'e']);
    lemma_joined(dir, "home"@);
    assert((front(dir) + "home"@).last() == 'e');
    assert forall|i: int| 0 <= i < crate::shared::shared_table().len() implies #[trigger] link_path(
        paths,
        slot,
        i,
    ) != shared_path(paths, i) by {
        let name = crate::shared::shared_table()[i].name;
        lemma_table_names(i);
        lemma_joined(base, name);
        lemma_joined(home, name);
        if front(home) + name == front(base) + name {
            lemma_same_end(front(home), name, front(base), name);
            assert(home.push('/').drop_last() =~= home);
            assert(base.push('/').drop_last() =~= base);
        }
    }
}

// ---------------------------------------------------------------------------
// One shared thing
// ---------------------------------------------------------------------------

proof fn lemma_steps_in_turn(
    disk: Map<Seq<char>, NodeModel>,
    a: Seq<StepModel>,
    b: Seq<StepModel>,
)
    ensures
        disk_after_all(disk, a + b) == disk_after_all(disk_after_all(disk, a), b),
    decreases b.len(),
{
    if b.len() == 0 {
        assert(a + b =~= a);
    } else {
        lemma_steps_in_turn(disk, a, b.drop_last());
        assert((a + b).drop_last() =~= a + b.drop_last());
        assert((a + b).last() == b.last());
    }
}

proof fn lemma_one_step(disk: Map<Seq<char>, NodeModel>, step: StepModel)
    ensures
        disk_after_all(disk, seq![step]) == disk_after(disk, step),
{
    reveal_with_fuel(disk_after_all, 2);
    assert(seq![step].drop_last() =~= seq![]);
}

proof fn lemma_two_steps(disk: Map<Seq<char>, NodeModel>, a: StepModel, b: StepModel)
    ensures
        disk_after_all(disk, seq![a, b]) == disk_after(disk_after(disk, a), b),
{
    assert(seq![a, b] =~= seq![a] + seq![b]);
    lemma_steps_in_turn(disk, seq![a], seq![b]);
    lemma_one_step(disk, a);
    lemma_one_step(disk_after(disk, a), b);
}

/// Whether `after` is what `before` becomes where something shared is repaired: the
/// slot links to the shared side, which has kept what was there.
pub open spec fn is_repaired(
    kind: SharedResourceKind,
    before: Map<Seq<char>, NodeModel>,
    after: Map<Seq<char>, NodeModel>,
    canonical: Seq<char>,
    slot: Seq<char>,
) -> bool {
    &&& is_linked(after, canonical, slot)
    &&& (before.dom().contains(slot) && before[slot] is Link) || node_at(after, slot) == Some(
        NodeModel::Link(canonical),
    )
    &&& node_at(after, canonical) == kept_node(
        kind,
        node_at(before, canonical),
        node_at(before, slot),
    )
}

proof fn lemma_repair_of_one(
    kind: SharedResourceKind,
    state: StateModel,
    disk: Map<Seq<char>, NodeModel>,
    canonical: Seq<char>,
    slot: Seq<char>,
)
    requires
        canonical != slot,
        is_state_of(state, disk, canonical, slot),
        crate::slot::repair_steps(kind, state, canonical, slot) is Ok,
    ensures
        ({
            let after = disk_after_all(
                disk,
                crate::slot::repair_steps(kind, state, canonical, slot)->Ok_0,
            );
            &&& is_repaired(kind, disk, after, canonical, slot)
            &&& forall|path: Seq<char>|
                path != canonical && path != slot ==> #[trigger] node_at(after, path) == node_at(
                    disk,
                    path,
                )
        }),
{
    let first: Seq<StepModel> = if kind == SharedResourceKind::Directory {
        seq![StepModel::CreateDir(canonical)]
    } else {
        seq![]
    };
    let started = disk_after_all(disk, first);
    if kind == SharedResourceKind::Directory {
        lemma_one_step(disk, StepModel::CreateDir(canonical));
    }
    match state.slot {
        EntryModel::Private => {
            let merge = crate::slot::merge_steps(kind, state.canonical_exists, canonical, slot);
            let remove = StepModel::RemovePath(slot);
            let link = StepModel::Link { source: canonical, dest: slot };
            lemma_steps_in_turn(disk, first, merge);
            lemma_steps_in_turn(disk, first + merge, seq![remove, link]);
            let mixed = disk_after_all(started, merge);
            if merge.len() == 1 {
                assert(merge =~= seq![merge[0]]);
                lemma_one_step(started, merge[0]);
            }
            lemma_two_steps(mixed, remove, link);
            assert(node_at(mixed, canonical) == kept_node(
                kind,
                node_at(disk, canonical),
                node_at(disk, slot),
            ));
        },
        EntryModel::Absent => {
            let link = StepModel::Link { source: canonical, dest: slot };
            lemma_steps_in_turn(disk, first, seq![link]);
            lemma_one_step(started, link);
        },
        EntryModel::Link(target) => {
            if crate::paths::components_of(target) != crate::paths::components_of(canonical) {
                let remove = StepModel::RemoveFile(slot);
                let link = StepModel::Link { source: canonical, dest: slot };
                lemma_steps_in_turn(disk, first, seq![remove, link]);
                lemma_two_steps(started, remove, link);
            }
        },
        EntryModel::UnreadableLink => {},
    }
}

// ---------------------------------------------------------------------------
// A whole slot
// ---------------------------------------------------------------------------

/// Whether every link of a slot could be read.
pub open spec fn are_readable(states: Seq<StateModel>) -> bool {
    forall|i: int| 0 <= i < states.len() ==> !((#[trigger] states[i]).slot is UnreadableLink)
}

/// What stands where after a repair of a slot.
pub open spec fn repaired_disk(
    paths: ManagerPaths,
    slot: Seq<char>,
    states: Seq<StateModel>,
    disk: Map<Seq<char>, NodeModel>,
) -> Map<Seq<char>, NodeModel> {
    disk_after_all(disk, crate::slot::repaired_layout(paths, slot, states)->Ok_0)
}

/// Whether the first `n` of the things that slots share have been repaired, and the
/// others are as before.
spec fn is_repaired_up_to(
    paths: ManagerPaths,
    slot: Seq<char>,
    before: Map<Seq<char>, NodeModel>,
    after: Map<Seq<char>, NodeModel>,
    n: int,
) -> bool {
    let table = crate::shared::shared_table();
    let home = paths.slot_home_text(slot);
    &&& forall|i: int|
        0 <= i < n ==> is_repaired(
            (#[trigger] table[i]).kind,
            before,
            after,
            shared_path(paths, i),
            link_path(paths, slot, i),
        )
    &&& forall|i: int|
        n <= i < table.len() ==> node_at(after, #[trigger] shared_path(paths, i)) == node_at(
            before,
            shared_path(paths, i),
        ) && node_at(after, link_path(paths, slot, i)) == node_at(
            before,
            link_path(paths, slot, i),
        )
    &&& node_at(after, home) == kept_node(
        SharedResourceKind::Directory,
        node_at(before, home),
        None,
    )
    &&& node_at(after, login_path(paths, slot)) == node_at(before, login_path(paths, slot))
}

proof fn lemma_repair_up_to(
    paths: ManagerPaths,
    slot: Seq<char>,
    states: Seq<StateModel>,
    disk: Map<Seq<char>, NodeModel>,
    n: nat,
)
    requires
        is_apart(paths, slot),
        are_states_of(states, disk, paths, slot),
        are_readable(states),
        n <= crate::shared::shared_table().len(),
    ensures
        crate::slot::repair_all(paths, slot, states, n) is Ok,
        is_repaired_up_to(
            paths,
            slot,
            disk,
            disk_after_all(disk, crate::slot::repair_all(paths, slot, states, n)->Ok_0),
            n as int,
        ),
    decreases n,
{
    let table = crate::shared::shared_table();
    let home = paths.slot_home_text(slot);
    if n == 0 {
        lemma_one_step(disk, StepModel::CreateDir(home));
        assert forall|i: int| 0 <= i < table.len() implies home != #[trigger] shared_path(paths, i)
            && home != link_path(paths, slot, i) by {
            lemma_paths_apart(paths, slot, i, i);
        }
        lemma_paths_apart(paths, slot, 0, 0);
    } else {
        let k = n - 1;
        lemma_repair_up_to(paths, slot, states, disk, k as nat);
        let steps = crate::slot::repair_all(paths, slot, states, k as nat)->Ok_0;
        let middle = disk_after_all(disk, steps);
        let shared = shared_path(paths, k);
        let link = link_path(paths, slot, k);
        let kind = table[k].kind;
        assert(node_at(middle, shared) == node_at(disk, shared));
        assert(node_at(middle, link) == node_at(disk, link));
        assert(is_state_of(states[k], disk, shared, link));
        assert(is_state_of(states[k], middle, shared, link));
        lemma_paths_apart(paths, slot, k, k);
        assert(!(states[k].slot is UnreadableLink));
        let more = crate::slot::repair_steps(kind, states[k], shared, link)->Ok_0;
        lemma_repair_of_one(kind, states[k], middle, shared, link);
        lemma_steps_in_turn(disk, steps, more);
        let after = disk_after_all(middle, more);
        assert(crate::slot::repair_all(paths, slot, states, n) == Ok::<Seq<StepModel>, Seq<char>>(
            steps + more,
        ));
        assert forall|i: int| 0 <= i < table.len() && i != k implies node_at(
            after,
            #[trigger] shared_path(paths, i),
        ) == node_at(middle, shared_path(paths, i)) && node_at(after, link_path(paths, slot, i))
            == node_at(middle, link_path(paths, slot, i)) by {
            lemma_paths_apart(paths, slot, i, k);
            lemma_paths_apart(paths, slot, k, i);
        }
        assert forall|i: int| 0 <= i < n implies is_repaired(
            (#[trigger] table[i]).kind,
            disk,
            after,
            shared_path(paths, i),
            link_path(paths, slot, i),
        ) by {
            if i < k {
                assert(is_repaired(
                    table[i].kind,
                    disk,
                    middle,
                    shared_path(paths, i),
                    link_path(paths, slot, i),
                ));
            }
        }
    }
}

/// A repair of a slot loses nothing that is shared: each shared side has kept what was
/// there, with what the slot had for itself, and the slot links to it. In particular a
/// shared journal is what it was, followed by the slot's own. The login of the slot is
/// left alone.
pub proof fn repairs_keep_what_was_there(
    paths: ManagerPaths,
    slot: Seq<char>,
    states: Seq<StateModel>,
    disk: Map<Seq<char>, NodeModel>,
)
    requires
        crate::slot::is_slot_name(slot),
        is_apart(paths, slot),
        are_states_of(states, disk, paths, slot),
        are_readable(states),
    ensures
        crate::slot::repaired_layout(paths, slot, states) is Ok,
        forall|i: int|
            0 <= i < crate::shared::shared_table().len() ==> is_repaired(
                (#[trigger] crate::shared::shared_table()[i]).kind,
                disk,
                repaired_disk(paths, slot, states, disk),
                shared_path(paths, i),
                link_path(paths, slot, i),
            ),
        node_at(repaired_disk(paths, slot, states, disk), login_path(paths, slot)) == node_at(
            disk,
            login_path(paths, slot),
        ),
{
    lemma_repair_up_to(paths, slot, states, disk, crate::shared::shared_table().len());
}

/// After a repair, a journal that a slot kept for itself follows what the shared one
/// held, and the slot links to the shared one.
pub proof fn repairs_join_journals(
    paths: ManagerPaths,
    slot: Seq<char>,
    states: Seq<StateModel>,
    disk: Map<Seq<char>, NodeModel>,
    i: int,
    shared: Seq<u8>,
    private: Seq<u8>,
)
    requires
        crate::slot::is_slot_name(slot),
        is_apart(paths, slot),
        are_states_of(states, disk, paths, slot),
        are_readable(states),
        0 <= i < crate::shared::shared_table().len(),
        crate::shared::shared_table()[i].kind == SharedResourceKind::AppendOnlyFile,
        node_at(disk, shared_path(paths, i)) == Some(NodeModel::File(shared)),
        node_at(disk, link_path(paths, slot, i)) == Some(NodeModel::File(private)),
    ensures
        node_at(repaired_disk(paths, slot, states, disk), shared_path(paths, i)) == Some(
            NodeModel::File(shared + private),
        ),
        node_at(repaired_disk(paths, slot, states, disk), link_path(paths, slot, i)) == Some(
            NodeModel::Link(shared_path(paths, i)),
        ),
{
    repairs_keep_what_was_there(paths, slot, states, disk);
    let after = repaired_disk(paths, slot, states, disk);
    assert(is_repaired(
        crate::shared::shared_table()[i].kind,
        disk,
        after,
        shared_path(paths, i),
        link_path(paths, slot, i),
    ));
}

/// Whether a repair has nothing to do: the home and every shared directory exist, and
/// every shared thing is linked.
spec fn is_settled(paths: ManagerPaths, slot: Seq<char>, disk: Map<Seq<char>, NodeModel>) -> bool {
    let table = crate::shared::shared_table();
    &&& disk.dom().contains(paths.slot_home_text(slot))
    &&& forall|i: int|
        0 <= i < table.len() ==> is_linked(
            disk,
            #[trigger] shared_path(paths, i),
            link_path(paths, slot, i),
        ) && (table[i].kind == SharedResourceKind::Directory ==> disk.dom().contains(
            shared_path(paths, i),
        ))
}

proof fn lemma_settled_up_to(
    paths: ManagerPaths,
    slot: Seq<char>,
    states: Seq<StateModel>,
    disk: Map<Seq<char>, NodeModel>,
    n: nat,
)
    requires
        is_settled(paths, slot, disk),
        are_states_of(states, disk, paths, slot),
        are_readable(states),
        n <= crate::shared::shared_table().len(),
    ensures
        crate::slot::repair_all(paths, slot, states, n) is Ok,
        disk_after_all(disk, crate::slot::repair_all(paths, slot, states, n)->Ok_0) == disk,
    decreases n,
{
    if n == 0 {
        lemma_one_step(disk, StepModel::CreateDir(paths.slot_home_text(slot)));
    } else {
        let k = n - 1;
        lemma_settled_up_to(paths, slot, states, disk, k as nat);
        let shared = shared_path(paths, k);
        let link = link_path(paths, slot, k);
        let kind = crate::shared::shared_table()[k].kind;
        let steps = crate::slot::repair_all(paths, slot, states, k as nat)->Ok_0;
        assert(is_linked(disk, shared, link));
        assert(is_state_of(states[k], disk, shared, link));
        assert(!(states[k].slot is UnreadableLink));
        let more = crate::slot::repair_steps(kind, states[k], shared, link)->Ok_0;
        lemma_steps_in_turn(disk, steps, more);
        if kind == SharedResourceKind::Directory {
            lemma_one_step(disk, StepModel::CreateDir(shared));
        }
    }
}

proof fn lemma_repaired_is_settled(
    paths: ManagerPaths,
    slot: Seq<char>,
    states: Seq<StateModel>,
    disk: Map<Seq<char>, NodeModel>,
)
    requires
        crate::slot::is_slot_name(slot),
        is_apart(paths, slot),
        are_states_of(states, disk, paths, slot),
        are_readable(states),
    ensures
        is_settled(paths, slot, repaired_disk(paths, slot, states, disk)),
        is_repaired_up_to(
            paths,
            slot,
            disk,
            repaired_disk(paths, slot, states, disk),
            crate::shared::shared_table().len() as int,
        ),
{
    let table = crate::shared::shared_table();
    let after = repaired_disk(paths, slot, states, disk);
    lemma_repair_up_to(paths, slot, states, disk, table.len());
    assert(node_at(after, paths.slot_home_text(slot)) is Some);
    assert forall|i: int| 0 <= i < table.len() implies is_linked(
        after,
        #[trigger] shared_path(paths, i),
        link_path(paths, slot, i),
    ) && (table[i].kind == SharedResourceKind::Directory ==> after.dom().contains(
        shared_path(paths, i),
    )) by {
        assert(is_repaired(
            table[i].kind,
            disk,
            after,
            shared_path(paths, i),
            link_path(paths, slot, i),
        ));
    }
}

/// A second repair changes nothing: neither what is shared nor what the slot has.
pub proof fn repairs_settle(
    paths: ManagerPaths,
    slot: Seq<char>,
    states: Seq<StateModel>,
    disk: Map<Seq<char>, NodeModel>,
    again: Seq<StateModel>,
)
    requires
        crate::slot::is_slot_name(slot),
        is_apart(paths, slot),
        are_states_of(states, disk, paths, slot),
        are_readable(states),
        are_states_of(again, repaired_disk(paths, slot, states, disk), paths, slot),
        are_readable(again),
    ensures
        crate::slot::repaired_layout(paths, slot, again) is Ok,
        repaired_disk(paths, slot, again, repaired_disk(paths, slot, states, disk))
            == repaired_disk(paths, slot, states, disk),
{
    lemma_repaired_is_settled(paths, slot, states, disk);
    lemma_settled_up_to(
        paths,
        slot,
        again,
        repaired_disk(paths, slot, states, disk),
        crate::shared::shared_table().len(),
    );
}

proof fn lemma_no_issues_up_to(
    paths: ManagerPaths,
    slot: Seq<char>,
    states: Seq<StateModel>,
    disk: Map<Seq<char>, NodeModel>,
    n: nat,
)
    requires
        is_settled(paths, slot, disk),
        are_states_of(states, disk, paths, slot),
        are_readable(states),
        n <= crate::shared::shared_table().len(),
    ensures
        crate::slot::issues_up_to(paths, slot, states, seq![], n) == Ok::<
            Seq<(Seq<char>, Seq<char>)>,
            Seq<char>,
        >(seq![]),
    decreases n,
{
    if n > 0 {
        let k = n - 1;
        lemma_no_issues_up_to(paths, slot, states, disk, k as nat);
        assert(is_linked(disk, shared_path(paths, k), link_path(paths, slot, k)));
        assert(is_state_of(states[k], disk, shared_path(paths, k), link_path(paths, slot, k)));
        assert(!(states[k].slot is UnreadableLink));
    }
}

/// A slot that has a login of its own passes the audit once it has been repaired: its
/// home and its login are there, and nothing is wrong with it.
pub proof fn repaired_slots_pass_the_audit(
    paths: ManagerPaths,
    slot: Seq<char>,
    states: Seq<StateModel>,
    disk: Map<Seq<char>, NodeModel>,
    observed: SlotObservation,
)
    requires
        crate::slot::is_slot_name(slot),
        is_apart(paths, slot),
        are_states_of(states, disk, paths, slot),
        are_readable(states),
        !disk.dom().contains(paths.slot_home_text(slot)) || disk[paths.slot_home_text(slot)] is Dir
            || observed.home_is_dir,
        disk.dom().contains(login_path(paths, slot)),
        disk[login_path(paths, slot)] is File,
        is_observation_of(observed, repaired_disk(paths, slot, states, disk), paths, slot),
        are_readable(crate::slot::state_models(observed.resources@)),
    ensures
        observed.home_is_dir,
        observed.auth_exists,
        crate::slot::audited(paths, slot, &observed) == Ok::<
            Seq<(Seq<char>, Seq<char>)>,
            Seq<char>,
        >(seq![]),
{
    let after = repaired_disk(paths, slot, states, disk);
    lemma_repaired_is_settled(paths, slot, states, disk);
    assert(node_at(after, login_path(paths, slot)) == node_at(disk, login_path(paths, slot)));
    lemma_no_issues_up_to(
        paths,
        slot,
        crate::slot::state_models(observed.resources@),
        after,
        crate::shared::shared_table().len(),
    );
}

} // verus!
