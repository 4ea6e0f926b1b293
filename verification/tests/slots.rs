//! Slots and what they share.

use std::collections::BTreeMap;

use cx::cli::AddArgs;
use cx::cli::RemoveArgs;
use cx::paths::ManagerPaths;
use cx::paths::sort_paths;
use cx::report::redact_override;
use cx::shared::shared_resources;
use cx::slot::add_slot;
use cx::slot::append_rotation;
use cx::slot::audit_slot_layout;
use cx::slot::ensure_slot_layout;
use cx::slot::load_rotation;
use cx::slot::remove_from_rotation;
use cx::slot::remove_slot;
use cx::slot::repair_slot_layout;
use cx::slot::validate_slot_name;
use cx::slot::LayoutStep;
use cx::slot::ResourceState;
use cx::slot::SlotEntry;
use cx::slot::SlotObservation;

fn paths() -> ManagerPaths {
    ManagerPaths::from_roots("/root/codex", "/root/profile-manager")
}

fn observed(fill: impl Fn(&str) -> (bool, SlotEntry)) -> SlotObservation {
    SlotObservation {
        home_is_dir: true,
        auth_exists: true,
        auth_is_link: false,
        resources: shared_resources()
            .iter()
            .map(|resource| {
                let (canonical_exists, slot) = fill(resource.name);
                ResourceState { canonical_exists, canonical_is_link: false, slot }
            })
            .collect(),
    }
}

fn links(steps: &[LayoutStep]) -> Vec<(String, String)> {
    steps
        .iter()
        .filter_map(|step| match step {
            LayoutStep::Link { source, dest } => Some((source.clone(), dest.clone())),
            _ => None,
        })
        .collect()
}

fn remove_args(slot: &str, delete_files: bool) -> RemoveArgs {
    RemoveArgs { manager_dir: None, slot: slot.to_string(), delete_files }
}

#[test]
fn remove_slot_keeps_files_by_default() {
    let rotation = Some("primary\ndia1\nbus1\n".to_string());
    let text = remove_from_rotation(false, &rotation, "dia1");

    assert_eq!(load_rotation(false, &text), vec!["primary", "bus1"]);
    let report = remove_slot(&paths(), &remove_args("dia1", false), true, false).unwrap();
    assert!(!report.iter().any(|line| line.contains("deleted")));
}

#[test]
fn remove_slot_deletes_files_when_requested() {
    let rotation = Some("primary\nold\n".to_string());
    let text = remove_from_rotation(false, &rotation, "old");

    assert_eq!(load_rotation(false, &text), vec!["primary"]);
    let kept = remove_slot(&paths(), &remove_args("old", false), true, false).unwrap();
    let gone = remove_slot(&paths(), &remove_args("old", true), true, true).unwrap();
    assert_ne!(kept, gone);
}

#[test]
fn ensure_slot_layout_uses_creation_policy() {
    let seen = observed(|name| {
        (matches!(name, "config.toml" | "history.jsonl" | "state_5.sqlite"), SlotEntry::Absent)
    });

    let steps = ensure_slot_layout(&paths(), "dia1", &seen).unwrap();

    let made = links(&steps);
    let home = paths().slot_home("dia1");
    for name in ["config.toml", "history.jsonl"] {
        assert!(made.contains(&(format!("/root/codex/{name}"), format!("{home}/{name}"))));
    }
    assert!(!made.iter().any(|(_, dest)| dest.ends_with("state_5.sqlite")));
}

/// What stands at a path.
#[derive(Clone, Debug, PartialEq)]
enum Node {
    File(String),
    /// The files below, by their paths.
    Dir(BTreeMap<String, String>),
    Link(String),
}

fn perform(disk: &mut BTreeMap<String, Node>, steps: Vec<LayoutStep>) {
    for step in steps {
        match step {
            LayoutStep::CreateDir(path) => {
                disk.entry(path).or_insert_with(|| Node::Dir(BTreeMap::new()));
            }
            LayoutStep::RemoveFile(path) | LayoutStep::RemovePath(path) => {
                disk.remove(&path).expect("something to remove");
            }
            LayoutStep::Link { source, dest } => {
                assert!(disk.insert(dest, Node::Link(source)).is_none());
            }
            LayoutStep::CopyFile { source, dest } | LayoutStep::CopyDir { source, dest } => {
                let node = disk[&source].clone();
                disk.insert(dest, node);
            }
            LayoutStep::AppendFile { source, dest } => {
                match (disk[&source].clone(), disk.get_mut(&dest)) {
                    (Node::File(tail), Some(Node::File(head))) => head.push_str(&tail),
                    _ => panic!("no files"),
                }
            }
            LayoutStep::MergeDir { source, dest } => {
                match (disk[&source].clone(), disk.get_mut(&dest)) {
                    (Node::Dir(more), Some(Node::Dir(files))) => {
                        for (name, content) in more {
                            files.entry(name).or_insert(content);
                        }
                    }
                    _ => panic!("no directories"),
                }
            }
        }
    }
}

fn seen_on(disk: &BTreeMap<String, Node>, slot: &str) -> SlotObservation {
    let home = paths().slot_home(slot);
    let login = disk.get(&format!("{home}/auth.json"));
    SlotObservation {
        home_is_dir: matches!(disk.get(&home), Some(Node::Dir(_))),
        auth_exists: login.is_some(),
        auth_is_link: matches!(login, Some(Node::Link(_))),
        resources: shared_resources()
            .iter()
            .map(|resource| {
                let canonical = disk.get(&resource.canonical_path(&paths()));
                ResourceState {
                    canonical_exists: canonical.is_some(),
                    canonical_is_link: matches!(canonical, Some(Node::Link(_))),
                    slot: match disk.get(&resource.slot_path(&paths(), slot)) {
                        None => SlotEntry::Absent,
                        Some(Node::Link(target)) => SlotEntry::Link(target.clone()),
                        Some(_) => SlotEntry::Private,
                    },
                }
            })
            .collect(),
    }
}

fn files(entries: &[(&str, &str)]) -> Node {
    let pair = |(name, content): &(&str, &str)| (name.to_string(), content.to_string());
    Node::Dir(entries.iter().map(pair).collect())
}

fn crowded_disk() -> BTreeMap<String, Node> {
    let home = paths().slot_home("dia1");
    BTreeMap::from([
        ("/root/codex/sessions".to_string(), files(&[("2026/base.jsonl", "[]\n")])),
        ("/root/codex/history.jsonl".to_string(), Node::File("base\n".to_string())),
        ("/root/codex/config.toml".to_string(), Node::File("shared".to_string())),
        (home.clone(), files(&[])),
        (format!("{home}/auth.json"), Node::File("{}\n".to_string())),
        (format!("{home}/history.jsonl"), Node::File("slot\n".to_string())),
        (format!("{home}/config.toml"), Node::File("private".to_string())),
        (format!("{home}/version.json"), Node::File("7".to_string())),
        (format!("{home}/rules"), Node::Link("/elsewhere".to_string())),
        (
            format!("{home}/sessions"),
            files(&[("2026/local.jsonl", "{}\n"), ("2026/base.jsonl", "other")]),
        ),
    ])
}

#[test]
fn repair_slot_layout_merges_history_and_directories() {
    let home = paths().slot_home("dia1");
    let mut disk = crowded_disk();

    let steps = repair_slot_layout(&paths(), "dia1", &seen_on(&disk, "dia1")).unwrap();
    perform(&mut disk, steps);

    assert_eq!(disk["/root/codex/history.jsonl"], Node::File("base\nslot\n".to_string()));
    assert_eq!(
        disk[&format!("{home}/history.jsonl")],
        Node::Link("/root/codex/history.jsonl".to_string())
    );
    assert_eq!(
        disk["/root/codex/sessions"],
        files(&[("2026/base.jsonl", "[]\n"), ("2026/local.jsonl", "{}\n")])
    );
    assert_eq!(
        disk[&format!("{home}/sessions")],
        Node::Link("/root/codex/sessions".to_string())
    );
    assert_eq!(disk["/root/codex/config.toml"], Node::File("shared".to_string()));
    assert_eq!(disk["/root/codex/version.json"], Node::File("7".to_string()));
    assert_eq!(disk[&format!("{home}/rules")], Node::Link("/root/codex/rules".to_string()));
}

#[test]
fn repairing_twice_changes_nothing_more() {
    let mut disk = crowded_disk();
    let steps = repair_slot_layout(&paths(), "dia1", &seen_on(&disk, "dia1")).unwrap();
    perform(&mut disk, steps);
    let once = disk.clone();

    let steps = repair_slot_layout(&paths(), "dia1", &seen_on(&disk, "dia1")).unwrap();
    assert!(steps.iter().all(|step| matches!(step, LayoutStep::CreateDir(_))));
    perform(&mut disk, steps);

    assert_eq!(disk, once);
}

#[test]
fn repaired_slots_have_no_issues() {
    let mut disk = crowded_disk();
    let before = audit_slot_layout(&paths(), "dia1", &seen_on(&disk, "dia1")).unwrap();
    assert!(!before.issues.is_empty());

    let steps = repair_slot_layout(&paths(), "dia1", &seen_on(&disk, "dia1")).unwrap();
    perform(&mut disk, steps);

    let audit = audit_slot_layout(&paths(), "dia1", &seen_on(&disk, "dia1")).unwrap();
    assert_eq!(audit.slot, "dia1");
    assert!(audit.home_exists);
    assert!(audit.auth_exists);
    assert!(audit.issues.is_empty());
}

#[test]
fn audit_slot_layout_accepts_shared_links() {
    let seen = observed(|name| match name {
        "history.jsonl" => (true, SlotEntry::Link("/root/codex/history.jsonl".to_string())),
        _ => (false, SlotEntry::Absent),
    });

    let audit = audit_slot_layout(&paths(), "dia1", &seen).unwrap();

    assert!(audit.issues.is_empty());
}

#[test]
fn audit_slot_layout_reports_private_shared_files() {
    let seen = observed(|name| match name {
        "history.jsonl" => (true, SlotEntry::Private),
        _ => (false, SlotEntry::Absent),
    });

    let audit = audit_slot_layout(&paths(), "dia1", &seen).unwrap();

    assert!(audit
        .issues
        .iter()
        .any(|issue| issue.message.starts_with("private copy; expected symlink")));
}

#[test]
fn slots_join_the_rotation_once() {
    let text = append_rotation(false, &Some("a\n".to_string()), "b");
    assert_eq!(load_rotation(false, &text), vec!["a", "b"]);
    assert_eq!(append_rotation(false, &text, "b"), None);
    assert_eq!(load_rotation(false, &Some("# note\n a \n\nb\n".to_string())), vec!["a", "b"]);
}

#[test]
fn slot_names_are_checked() {
    assert!(validate_slot_name("bus-1").is_ok());
    assert!(validate_slot_name("a/b").is_err());
    assert!(validate_slot_name("").is_err());
    let args = AddArgs {
        manager_dir: None,
        slot: "bad name".to_string(),
        sets: Vec::new(),
        envs: Vec::new(),
        rotate: false,
        from_current: false,
    };
    assert!(add_slot(&paths(), &args, false, false).is_err());
}

#[test]
fn target_override_display_redacts_sensitive_values() {
    assert_eq!(redact_override("api_key=\"sk-test\""), "api_key=<redacted>");
    assert_eq!(redact_override("model=\"gpt-5.5\""), "model=\"gpt-5.5\"");
}

#[test]
fn paths_are_ordered_by_their_components() {
    let sorted = sort_paths(vec![
        "/a-b/x".to_string(),
        "/a/x".to_string(),
        "/a//x".to_string(),
        "rel".to_string(),
        "../up".to_string(),
    ]);
    assert_eq!(sorted, vec!["/a/x", "/a-b/x", "../up", "rel"]);
}
