//! What slots share with the base home, and what stays private.

use vstd::prelude::*;

use crate::paths::join_path;
use crate::paths::ManagerPaths;
use crate::text::same;
use crate::text::text_starts_with;

verus! {

/// What kind of thing is shared.
#[derive(Clone, Copy, Debug, PartialEq, Eq, Structural)]
pub enum SharedResourceKind {
    RegularFile,
    AppendOnlyFile,
    Directory,
}

/// When a new slot gets a link.
#[derive(Clone, Copy, Debug, PartialEq, Eq, Structural)]
pub enum SlotCreationPolicy {
    AlwaysLink,
    LinkWhenCanonicalExists,
}

/// A file or directory that slots share.
#[derive(Clone, Copy, Debug)]
pub struct SharedResource {
    pub name: &'static str,
    pub kind: SharedResourceKind,
    pub creation_policy: SlotCreationPolicy,
}

/// A shared file or directory, over mathematical values.
pub struct SharedModel {
    pub name: Seq<char>,
    pub kind: SharedResourceKind,
    pub policy: SlotCreationPolicy,
}

impl View for SharedResource {
    type V = SharedModel;

    open spec fn view(&self) -> SharedModel {
        SharedModel { name: self.name@, kind: self.kind, policy: self.creation_policy }
    }
}

/// The views of shared files and directories.
pub open spec fn shared_models(items: Seq<SharedResource>) -> Seq<SharedModel> {
    items.map_values(|r: SharedResource| r@)
}

/// All that slots share.
pub open spec fn shared_table() -> Seq<SharedModel> {
    seq![
        SharedModel {
            name: "config.toml"@,
            kind: SharedResourceKind::RegularFile,
            policy: SlotCreationPolicy::AlwaysLink,
        },
        SharedModel {
            name: "AGENTS.md"@,
            kind: SharedResourceKind::RegularFile,
            policy: SlotCreationPolicy::LinkWhenCanonicalExists,
        },
        SharedModel {
            name: "accounts"@,
            kind: SharedResourceKind::Directory,
            policy: SlotCreationPolicy::LinkWhenCanonicalExists,
        },
        SharedModel {
            name: "current"@,
            kind: SharedResourceKind::RegularFile,
            policy: SlotCreationPolicy::LinkWhenCanonicalExists,
        },
        SharedModel {
            name: "history.jsonl"@,
            kind: SharedResourceKind::AppendOnlyFile,
            policy: SlotCreationPolicy::LinkWhenCanonicalExists,
        },
        SharedModel {
            name: "memories"@,
            kind: SharedResourceKind::Directory,
            policy: SlotCreationPolicy::LinkWhenCanonicalExists,
        },
        SharedModel {
            name: "models_cache.json"@,
            kind: SharedResourceKind::RegularFile,
            policy: SlotCreationPolicy::LinkWhenCanonicalExists,
        },
        SharedModel {
            name: "models_catalog_static.json"@,
            kind: SharedResourceKind::RegularFile,
            policy: SlotCreationPolicy::LinkWhenCanonicalExists,
        },
        SharedModel {
            name: "plugins"@,
            kind: SharedResourceKind::Directory,
            policy: SlotCreationPolicy::LinkWhenCanonicalExists,
        },
        SharedModel {
            name: "prompts"@,
            kind: SharedResourceKind::Directory,
            policy: SlotCreationPolicy::LinkWhenCanonicalExists,
        },
        SharedModel {
            name: "rules"@,
            kind: SharedResourceKind::Directory,
            policy: SlotCreationPolicy::LinkWhenCanonicalExists,
        },
        SharedModel {
            name: "session_index.jsonl"@,
            kind: SharedResourceKind::AppendOnlyFile,
            policy: SlotCreationPolicy::LinkWhenCanonicalExists,
        },
        SharedModel {
            name: "sessions"@,
            kind: SharedResourceKind::Directory,
            policy: SlotCreationPolicy::LinkWhenCanonicalExists,
        },
        SharedModel {
            name: "shell_snapshots"@,
            kind: SharedResourceKind::Directory,
            policy: SlotCreationPolicy::LinkWhenCanonicalExists,
        },
        SharedModel {
            name: "skills"@,
            kind: SharedResourceKind::Directory,
            policy: SlotCreationPolicy::LinkWhenCanonicalExists,
        },
        SharedModel {
            name: "skills-data"@,
            kind: SharedResourceKind::Directory,
            policy: SlotCreationPolicy::LinkWhenCanonicalExists,
        },
        SharedModel {
            name: "installation_id"@,
            kind: SharedResourceKind::RegularFile,
            policy: SlotCreationPolicy::LinkWhenCanonicalExists,
        },
        SharedModel {
            name: "vendor_imports"@,
            kind: SharedResourceKind::Directory,
            policy: SlotCreationPolicy::LinkWhenCanonicalExists,
        },
        SharedModel {
            name: "version.json"@,
            kind: SharedResourceKind::RegularFile,
            policy: SlotCreationPolicy::LinkWhenCanonicalExists,
        },
        SharedModel {
            name: "hooks.json"@,
            kind: SharedResourceKind::RegularFile,
            policy: SlotCreationPolicy::LinkWhenCanonicalExists,
        },
        SharedModel {
            name: "herdr-agent-state.sh"@,
            kind: SharedResourceKind::RegularFile,
            policy: SlotCreationPolicy::LinkWhenCanonicalExists,
        },
    ]
}

/// All that slots share.
pub fn shared_resources() -> (out: Vec<SharedResource>)
    ensures
        shared_models(out@) == shared_table(),
{
    let mut out: Vec<SharedResource> = Vec::new();
    out.push(
        SharedResource {
            name: "config.toml",
            kind: SharedResourceKind::RegularFile,
            creation_policy: SlotCreationPolicy::AlwaysLink,
        },
    );
    out.push(
        SharedResource {
            name: "AGENTS.md",
            kind: SharedResourceKind::RegularFile,
            creation_policy: SlotCreationPolicy::LinkWhenCanonicalExists,
        },
    );
    out.push(
        SharedResource {
            name: "accounts",
            kind: SharedResourceKind::Directory,
            creation_policy: SlotCreationPolicy::LinkWhenCanonicalExists,
        },
    );
    out.push(
        SharedResource {
            name: "current",
            kind: SharedResourceKind::RegularFile,
            creation_policy: SlotCreationPolicy::LinkWhenCanonicalExists,
        },
    );
    out.push(
        SharedResource {
            name: "history.jsonl",
            kind: SharedResourceKind::AppendOnlyFile,
            creation_policy: SlotCreationPolicy::LinkWhenCanonicalExists,
        },
    );
    out.push(
        SharedResource {
            name: "memories",
            kind: SharedResourceKind::Directory,
            creation_policy: SlotCreationPolicy::LinkWhenCanonicalExists,
        },
    );
    out.push(
        SharedResource {
            name: "models_cache.json",
            kind: SharedResourceKind::RegularFile,
            creation_policy: SlotCreationPolicy::LinkWhenCanonicalExists,
        },
    );
    out.push(
        SharedResource {
            name: "models_catalog_static.json",
            kind: SharedResourceKind::RegularFile,
            creation_policy: SlotCreationPolicy::LinkWhenCanonicalExists,
        },
    );
    out.push(
        SharedResource {
            name: "plugins",
            kind: SharedResourceKind::Directory,
            creation_policy: SlotCreationPolicy::LinkWhenCanonicalExists,
        },
    );
    out.push(
        SharedResource {
            name: "prompts",
            kind: SharedResourceKind::Directory,
            creation_policy: SlotCreationPolicy::LinkWhenCanonicalExists,
        },
    );
    out.push(
        SharedResource {
            name: "rules",
            kind: SharedResourceKind::Directory,
            creation_policy: SlotCreationPolicy::LinkWhenCanonicalExists,
        },
    );
    out.push(
        SharedResource {
            name: "session_index.jsonl",
            kind: SharedResourceKind::AppendOnlyFile,
            creation_policy: SlotCreationPolicy::LinkWhenCanonicalExists,
        },
    );
    out.push(
        SharedResource {
            name: "sessions",
            kind: SharedResourceKind::Directory,
            creation_policy: SlotCreationPolicy::LinkWhenCanonicalExists,
        },
    );
    out.push(
        SharedResource {
            name: "shell_snapshots",
            kind: SharedResourceKind::Directory,
            creation_policy: SlotCreationPolicy::LinkWhenCanonicalExists,
        },
    );
    out.push(
        SharedResource {
            name: "skills",
            kind: SharedResourceKind::Directory,
            creation_policy: SlotCreationPolicy::LinkWhenCanonicalExists,
        },
    );
    out.push(
        SharedResource {
            name: "skills-data",
            kind: SharedResourceKind::Directory,
            creation_policy: SlotCreationPolicy::LinkWhenCanonicalExists,
        },
    );
    out.push(
        SharedResource {
            name: "installation_id",
            kind: SharedResourceKind::RegularFile,
            creation_policy: SlotCreationPolicy::LinkWhenCanonicalExists,
        },
    );
    out.push(
        SharedResource {
            name: "vendor_imports",
            kind: SharedResourceKind::Directory,
            creation_policy: SlotCreationPolicy::LinkWhenCanonicalExists,
        },
    );
    out.push(
        SharedResource {
            name: "version.json",
            kind: SharedResourceKind::RegularFile,
            creation_policy: SlotCreationPolicy::LinkWhenCanonicalExists,
        },
    );
    out.push(
        SharedResource {
            name: "hooks.json",
            kind: SharedResourceKind::RegularFile,
            creation_policy: SlotCreationPolicy::LinkWhenCanonicalExists,
        },
    );
    out.push(
        SharedResource {
            name: "herdr-agent-state.sh",
            kind: SharedResourceKind::RegularFile,
            creation_policy: SlotCreationPolicy::LinkWhenCanonicalExists,
        },
    );
    proof {
        assert(shared_models(out@) =~= shared_table());
    }
    out
}

/// Where the shared file or directory lies.
pub open spec fn canonical_path_of(paths: ManagerPaths, name: Seq<char>) -> Seq<char> {
    crate::paths::joined_path(paths.base_codex_home@, name)
}

/// Where a slot has its link.
pub open spec fn slot_path_of(paths: ManagerPaths, slot: Seq<char>, name: Seq<char>) -> Seq<char> {
    crate::paths::joined_path(paths.slot_home_text(slot), name)
}

impl SharedResource {
    /// Where the shared file or directory lies.
    pub fn canonical_path(&self, paths: &ManagerPaths) -> (out: String)
        ensures
            out@ == canonical_path_of(*paths, self.name@),
    {
        join_path(paths.base_codex_home.as_str(), self.name)
    }

    /// Where a slot has its link.
    pub fn slot_path(&self, paths: &ManagerPaths, slot: &str) -> (out: String)
        ensures
            out@ == slot_path_of(*paths, slot@, self.name@),
    {
        join_path(paths.slot_home(slot).as_str(), self.name)
    }
}

/// Whether something stays private to a slot and is never linked.
pub open spec fn is_private(name: Seq<char>) -> bool {
    ||| name == "auth.json"@
    ||| name == "auth.json.oauth.bak"@
    ||| name == "keychain.conf"@
    ||| name == "keychain-meta.json"@
    ||| name == "overrides.conf"@
    ||| name == "env.conf"@
    ||| name == "sqlite"@
    ||| name == ".tmp"@
    ||| name == "tmp"@
    ||| name == "log"@
    ||| name == "cache"@
    ||| name == "computer-use"@
    ||| name == ".codex-global-state.json"@
    ||| name == ".codex-global-state.json.bak"@
    ||| name == ".personality_migration"@
    ||| name == "state_5.sqlite"@
    ||| name == "state_5.sqlite-shm"@
    ||| name == "state_5.sqlite-wal"@
    ||| name == "logs_2.sqlite"@
    ||| name == "logs_2.sqlite-shm"@
    ||| name == "logs_2.sqlite-wal"@
    ||| name == "goals_1.sqlite"@
    ||| name == "goals_1.sqlite-shm"@
    ||| name == "goals_1.sqlite-wal"@
    ||| name == "memories_1.sqlite"@
    ||| name == "memories_1.sqlite-shm"@
    ||| name == "memories_1.sqlite-wal"@
    ||| name == "profile-manager"@
    ||| name == "cxrun"@
    ||| name == "archived_sessions"@
    ||| name == "attachments"@
    ||| name == "bin"@
    ||| name == "process_manager"@
    ||| crate::text::has_prefix(name, "config.toml.bak-"@)
}

/// Whether something stays private to a slot.
pub fn is_blacklisted(name: &str) -> (out: bool)
    ensures
        out == is_private(name@),
{
    same(name, "auth.json")
        || same(name, "auth.json.oauth.bak")
        || same(name, "keychain.conf")
        || same(name, "keychain-meta.json")
        || same(name, "overrides.conf")
        || same(name, "env.conf")
        || same(name, "sqlite")
        || same(name, ".tmp")
        || same(name, "tmp")
        || same(name, "log")
        || same(name, "cache")
        || same(name, "computer-use")
        || same(name, ".codex-global-state.json")
        || same(name, ".codex-global-state.json.bak")
        || same(name, ".personality_migration")
        || same(name, "state_5.sqlite")
        || same(name, "state_5.sqlite-shm")
        || same(name, "state_5.sqlite-wal")
        || same(name, "logs_2.sqlite")
        || same(name, "logs_2.sqlite-shm")
        || same(name, "logs_2.sqlite-wal")
        || same(name, "goals_1.sqlite")
        || same(name, "goals_1.sqlite-shm")
        || same(name, "goals_1.sqlite-wal")
        || same(name, "memories_1.sqlite")
        || same(name, "memories_1.sqlite-shm")
        || same(name, "memories_1.sqlite-wal")
        || same(name, "profile-manager")
        || same(name, "cxrun")
        || same(name, "archived_sessions")
        || same(name, "attachments")
        || same(name, "bin")
        || same(name, "process_manager")
        || text_starts_with(name, "config.toml.bak-")
}

/// Whether slots share something of this name.
pub open spec fn is_shared(name: Seq<char>) -> bool {
    exists|i: int| 0 <= i < shared_table().len() && (#[trigger] shared_table()[i]).name == name
}

/// Whether slots share something of this name.
pub fn is_known_shared(name: &str) -> (out: bool)
    ensures
        out == is_shared(name@),
{
    let resources = shared_resources();
    let mut i: usize = 0;
    while i < resources.len()
        invariant
            i <= resources.len(),
            shared_models(resources@) == shared_table(),
            forall|j: int| 0 <= j < i ==> (#[trigger] shared_table()[j]).name != name@,
        decreases resources.len() - i,
    {
        proof {
            assert(shared_models(resources@)[i as int] == resources@[i as int]@);
        }
        if same(resources[i].name, name) {
            proof {
                assert(shared_table()[i as int].name == name@);
            }
            return true;
        }
        i += 1;
    }
    false
}

/// Nothing that stays private to a slot is shared.
pub proof fn private_names_are_not_shared(name: Seq<char>)
    requires
        is_private(name),
    ensures
        !is_shared(name),
{
    reveal_strlit("config.toml");
    reveal_strlit("AGENTS.md");
    reveal_strlit("accounts");
    reveal_strlit("current");
    reveal_strlit("history.jsonl");
    reveal_strlit("memories");
    reveal_strlit("models_cache.json");
    reveal_strlit("models_catalog_static.json");
    reveal_strlit("plugins");
    reveal_strlit("prompts");
    reveal_strlit("rules");
    reveal_strlit("session_index.jsonl");
    reveal_strlit("sessions");
    reveal_strlit("shell_snapshots");
    reveal_strlit("skills");
    reveal_strlit("skills-data");
    reveal_strlit("installation_id");
    reveal_strlit("vendor_imports");
    reveal_strlit("version.json");
    reveal_strlit("hooks.json");
    reveal_strlit("herdr-agent-state.sh");
    reveal_strlit("auth.json");
    reveal_strlit("auth.json.oauth.bak");
    reveal_strlit("keychain.conf");
    reveal_strlit("keychain-meta.json");
    reveal_strlit("overrides.conf");
    reveal_strlit("env.conf");
    reveal_strlit("sqlite");
    reveal_strlit(".tmp");
    reveal_strlit("tmp");
    reveal_strlit("log");
    reveal_strlit("cache");
    reveal_strlit("computer-use");
    reveal_strlit(".codex-global-state.json");
    reveal_strlit(".codex-global-state.json.bak");
    reveal_strlit(".personality_migration");
    reveal_strlit("state_5.sqlite");
    reveal_strlit("state_5.sqlite-shm");
    reveal_strlit("state_5.sqlite-wal");
    reveal_strlit("logs_2.sqlite");
    reveal_strlit("logs_2.sqlite-shm");
    reveal_strlit("logs_2.sqlite-wal");
    reveal_strlit("goals_1.sqlite");
    reveal_strlit("goals_1.sqlite-shm");
    reveal_strlit("goals_1.sqlite-wal");
    reveal_strlit("memories_1.sqlite");
    reveal_strlit("memories_1.sqlite-shm");
    reveal_strlit("memories_1.sqlite-wal");
    reveal_strlit("profile-manager");
    reveal_strlit("cxrun");
    reveal_strlit("archived_sessions");
    reveal_strlit("attachments");
    reveal_strlit("bin");
    reveal_strlit("process_manager");
    reveal_strlit("config.toml.bak-");
    assert("AGENTS.md"@[0] == 'A');
    assert("accounts"@[0] == 'a');
    assert("archived_sessions"@[0] == 'a');
    assert("attachments"@[0] == 'a');
    assert("auth.json"@[0] == 'a');
    assert("auth.json.oauth.bak"@[0] == 'a');
    assert("cache"@[0] == 'c');
    assert("computer-use"@[0] == 'c');
    assert("config.toml"@[0] == 'c');
    assert("config.toml.bak-"@[0] == 'c');
    assert("cxrun"@[0] == 'c');
    assert("env.conf"@[0] == 'e');
    assert("goals_1.sqlite"@[0] == 'g');
    assert("herdr-agent-state.sh"@[0] == 'h');
    assert("history.jsonl"@[0] == 'h');
    assert("installation_id"@[0] == 'i');
    assert("keychain.conf"@[0] == 'k');
    assert("logs_2.sqlite"@[0] == 'l');
    assert("logs_2.sqlite-shm"@[0] == 'l');
    assert("logs_2.sqlite-wal"@[0] == 'l');
    assert("memories"@[0] == 'm');
    assert("memories_1.sqlite"@[1] == 'e');
    assert("models_cache.json"@[0] == 'm');
    assert("models_cache.json"@[1] == 'o');
    assert("models_catalog_static.json"@[0] == 'm');
    assert("overrides.conf"@[0] == 'o');
    assert("process_manager"@[0] == 'p');
    assert("profile-manager"@[0] == 'p');
    assert("rules"@[0] == 'r');
    assert("session_index.jsonl"@[0] == 's');
    assert("sessions"@[0] == 's');
    assert("shell_snapshots"@[0] == 's');
    assert("skills"@[1] == 'k');
    assert("skills-data"@[0] == 's');
    assert("sqlite"@[1] == 'q');
    assert("state_5.sqlite"@[0] == 's');
    assert("vendor_imports"@[0] == 'v');
    assert("version.json"@[0] == 'v');
    let prefix = "config.toml.bak-"@;
    if crate::text::has_prefix(name, prefix) {
        assert(name.len() >= 16 && name.take(16) == prefix);
        assert(name.take(16)[0] == name[0]);
    }
    if is_shared(name) {
        let i = choose|i: int|
            0 <= i < shared_table().len() && (#[trigger] shared_table()[i]).name == name;
        assert(i == 0 ==> name == "config.toml"@);
        assert(i == 1 ==> name == "AGENTS.md"@);
        assert(i == 2 ==> name == "accounts"@);
        assert(i == 3 ==> name == "current"@);
        assert(i == 4 ==> name == "history.jsonl"@);
        assert(i == 5 ==> name == "memories"@);
        assert(i == 6 ==> name == "models_cache.json"@);
        assert(i == 7 ==> name == "models_catalog_static.json"@);
        assert(i == 8 ==> name == "plugins"@);
        assert(i == 9 ==> name == "prompts"@);
        assert(i == 10 ==> name == "rules"@);
        assert(i == 11 ==> name == "session_index.jsonl"@);
        assert(i == 12 ==> name == "sessions"@);
        assert(i == 13 ==> name == "shell_snapshots"@);
        assert(i == 14 ==> name == "skills"@);
        assert(i == 15 ==> name == "skills-data"@);
        assert(i == 16 ==> name == "installation_id"@);
        assert(i == 17 ==> name == "vendor_imports"@);
        assert(i == 18 ==> name == "version.json"@);
        assert(i == 19 ==> name == "hooks.json"@);
        assert(i == 20 ==> name == "herdr-agent-state.sh"@);
    }
}

/// Slots always share the settings, and what else they share only where there is
/// something to share. Two of the files are only ever added to.
pub proof fn settings_are_always_shared(i: int)
    requires
        0 <= i < shared_table().len(),
    ensures
        shared_table().len() == 21,
        shared_table()[i].policy == SlotCreationPolicy::AlwaysLink <==> i == 0,
        shared_table()[0].name == "config.toml"@,
        shared_table()[i].kind == SharedResourceKind::AppendOnlyFile <==> i == 4 || i == 11,
        shared_table()[4].name == "history.jsonl"@,
        shared_table()[11].name == "session_index.jsonl"@,
        is_shared(shared_table()[i].name),
{
}

/// What is shared lies in the home that all slots share, under the same name as in the
/// home of each.
pub proof fn shared_files_have_one_name(
    paths: ManagerPaths,
    slot: Seq<char>,
    name: Seq<char>,
)
    requires
        name.len() > 0,
        name[0] != '/',
    ensures
        crate::text::has_prefix(canonical_path_of(paths, name), paths.base_codex_home@),
        crate::text::has_suffix(canonical_path_of(paths, name), name),
        crate::text::has_prefix(slot_path_of(paths, slot, name), paths.slot_home_text(slot)),
        crate::text::has_suffix(slot_path_of(paths, slot, name), name),
{
    let a = canonical_path_of(paths, name);
    let base = paths.base_codex_home@;
    assert(a.take(base.len() as int) =~= base);
    assert(a.skip(a.len() - name.len()) =~= name);
    let b = slot_path_of(paths, slot, name);
    let home = paths.slot_home_text(slot);
    assert(b.take(home.len() as int) =~= home);
    assert(b.skip(b.len() - name.len()) =~= name);
}

/// Logins, settings of a slot, databases and copies of the settings belong to one slot.
pub proof fn logins_and_databases_are_private(tail: Seq<char>)
    ensures
        is_private("auth.json"@) && is_private("auth.json.oauth.bak"@),
        is_private("keychain.conf"@) && is_private("keychain-meta.json"@),
        is_private("overrides.conf"@) && is_private("env.conf"@),
        is_private("sqlite"@) && is_private("state_5.sqlite"@) && is_private("logs_2.sqlite"@),
        is_private("goals_1.sqlite"@) && is_private("memories_1.sqlite"@),
        is_private("config.toml.bak-"@ + tail),
{
    let name = "config.toml.bak-"@ + tail;
    assert(name.take("config.toml.bak-"@.len() as int) =~= "config.toml.bak-"@);
}

} // verus!
