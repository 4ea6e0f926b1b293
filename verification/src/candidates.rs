//! Candidates for the completion of words.

use vstd::prelude::*;

use crate::cli::CompleteKind;
use crate::paths::join_path;
use crate::slot::validate_slot_name;
use crate::text::chars_of;
use crate::text::concat2;
use crate::text::concat3;
use crate::text::copy_of;
use crate::text::same;
use crate::text::string_of;
use crate::text::strip_prefix;
use crate::text::sub_chars;
use crate::text::text_starts_with;
use crate::textmap::place;
use crate::textmap::Place;

verus! {

/// A word that may be meant.
#[derive(Debug, PartialEq, Eq)]
pub struct Candidate {
    pub value: String,
    pub description: String,
}

/// A word that may be meant, over mathematical values.
pub struct CandidateModel {
    pub value: Seq<char>,
    pub description: Seq<char>,
}

impl View for Candidate {
    type V = CandidateModel;

    open spec fn view(&self) -> CandidateModel {
        CandidateModel { value: self.value@, description: self.description@ }
    }
}

/// The views of candidates.
pub open spec fn candidate_models(items: Seq<Candidate>) -> Seq<CandidateModel> {
    items.map_values(|c: Candidate| c@)
}

impl Candidate {
    /// A word with its description.
    pub fn new(value: &str, description: &str) -> (out: Candidate)
        ensures
            out@ == (CandidateModel { value: value@, description: description@ }),
    {
        Candidate { value: copy_of(value), description: copy_of(description) }
    }
}

pub(crate) fn push_candidate(out: &mut Vec<Candidate>, value: &str, description: &str)
    ensures
        candidate_models(final(out)@) == candidate_models(old(out)@).push(
            CandidateModel { value: value@, description: description@ },
        ),
{
    out.push(Candidate::new(value, description));
    proof {
        assert(candidate_models(out@) =~= candidate_models(old(out)@).push(
            CandidateModel { value: value@, description: description@ },
        ));
    }
}

// ---------------------------------------------------------------------------
// Lists
// ---------------------------------------------------------------------------

/// A sorted list with one more candidate, unless its word is there already.
pub open spec fn put_candidate(list: Seq<CandidateModel>, item: CandidateModel) -> Seq<
    CandidateModel,
>
    decreases list.len(),
{
    if list.len() == 0 {
        seq![item]
    } else {
        match crate::textmap::placed(list[0].value, item.value) {
            Place::Before => seq![list[0]] + put_candidate(list.skip(1), item),
            Place::Same => list,
            Place::After => seq![item] + list,
        }
    }
}

/// Candidates in the order of their words, each word once, as it came first.
pub open spec fn listed_once(items: Seq<CandidateModel>) -> Seq<CandidateModel>
    decreases items.len(),
{
    if items.len() == 0 {
        seq![]
    } else {
        put_candidate(listed_once(items.drop_last()), items.last())
    }
}

/// The candidates whose words start with `prefix`.
pub open spec fn with_prefix(items: Seq<CandidateModel>, prefix: Seq<char>) -> Seq<CandidateModel>
    decreases items.len(),
{
    if items.len() == 0 {
        seq![]
    } else if crate::text::has_prefix(items.last().value, prefix) {
        with_prefix(items.drop_last(), prefix).push(items.last())
    } else {
        with_prefix(items.drop_last(), prefix)
    }
}

/// The candidates whose words start with `prefix`, in the order of their words, each
/// word once.
pub open spec fn filtered(items: Seq<CandidateModel>, prefix: Seq<char>) -> Seq<CandidateModel> {
    listed_once(with_prefix(items, prefix))
}

fn put(list: &mut Vec<Candidate>, item: Candidate)
    ensures
        candidate_models(final(list)@) == put_candidate(candidate_models(old(list)@), item@),
{
    let ghost all = candidate_models(list@);
    let mut i: usize = 0;
    proof {
        assert(all.skip(0) =~= all);
        assert(all.take(0) + put_candidate(all, item@) =~= put_candidate(all, item@));
    }
    while i < list.len()
        invariant
            i <= list.len(),
            all == candidate_models(list@),
            all == candidate_models(old(list)@),
            put_candidate(all, item@) == all.take(i as int) + put_candidate(
                all.skip(i as int),
                item@,
            ),
        decreases list.len() - i,
    {
        let ghost rest = all.skip(i as int);
        proof {
            assert(rest[0] == list@[i as int]@);
            assert(rest.skip(1) =~= all.skip(i + 1));
        }
        match place(list[i].value.as_str(), item.value.as_str()) {
            Place::Before => {
                proof {
                    assert(all.take(i as int) + (seq![rest[0]] + put_candidate(
                        rest.skip(1),
                        item@,
                    )) =~= all.take(i + 1) + put_candidate(all.skip(i + 1), item@));
                }
                i += 1;
            },
            Place::Same => {
                proof {
                    assert(all.take(i as int) + rest =~= all);
                }
                return ;
            },
            Place::After => {
                list.insert(i, item);
                proof {
                    assert(candidate_models(list@) =~= all.take(i as int) + (seq![item@] + rest));
                }
                return ;
            },
        }
    }
    list.push(item);
    proof {
        assert(all.skip(i as int) =~= seq![]);
        assert(candidate_models(list@) =~= all.take(i as int) + seq![item@]);
    }
}

/// The candidates whose words start with `prefix`, in the order of their words, each
/// word once.
pub fn filter_candidates(candidates: Vec<Candidate>, prefix: &str) -> (out: Vec<Candidate>)
    ensures
        candidate_models(out@) == filtered(candidate_models(candidates@), prefix@),
{
    let ghost all = candidate_models(candidates@);
    let mut out: Vec<Candidate> = Vec::new();
    let mut i: usize = 0;
    proof {
        assert(all.take(0) =~= seq![]);
        assert(candidate_models(out@) =~= seq![]);
        assert(with_prefix(all.take(0), prefix@) =~= seq![]);
    }
    while i < candidates.len()
        invariant
            i <= candidates.len(),
            all == candidate_models(candidates@),
            candidate_models(out@) == filtered(all.take(i as int), prefix@),
        decreases candidates.len() - i,
    {
        let ghost kept = with_prefix(all.take(i as int), prefix@);
        proof {
            assert(all.take(i + 1).drop_last() =~= all.take(i as int));
            assert(all.take(i + 1).last() == candidates@[i as int]@);
        }
        if text_starts_with(candidates[i].value.as_str(), prefix) {
            proof {
                assert(kept.push(candidates@[i as int]@).drop_last() =~= kept);
            }
            put(
                &mut out,
                Candidate::new(
                    candidates[i].value.as_str(),
                    candidates[i].description.as_str(),
                ),
            );
        }
        i += 1;
    }
    proof {
        assert(all.take(all.len() as int) =~= all);
    }
    out
}

/// Candidates with `head` before each word.
pub open spec fn attached(items: Seq<CandidateModel>, head: Seq<char>) -> Seq<CandidateModel> {
    items.map_values(
        |c: CandidateModel| CandidateModel { value: head + c.value, description: c.description },
    )
}

/// Candidates with `head` before each word.
pub fn attach_all(candidates: Vec<Candidate>, head: &str) -> (out: Vec<Candidate>)
    ensures
        candidate_models(out@) == attached(candidate_models(candidates@), head@),
{
    let ghost all = attached(candidate_models(candidates@), head@);
    let mut out: Vec<Candidate> = Vec::new();
    let mut i: usize = 0;
    proof {
        assert(candidate_models(out@) =~= all.take(0));
    }
    while i < candidates.len()
        invariant
            i <= candidates.len(),
            all == attached(candidate_models(candidates@), head@),
            candidate_models(out@) == all.take(i as int),
        decreases candidates.len() - i,
    {
        push_candidate(
            &mut out,
            concat2(head, candidates[i].value.as_str()).as_str(),
            candidates[i].description.as_str(),
        );
        proof {
            assert(all.take(i + 1) =~= all.take(i as int).push(all[i as int]));
        }
        i += 1;
    }
    proof {
        assert(all.take(all.len() as int) =~= all);
    }
    out
}

// ---------------------------------------------------------------------------
// Slots and targets
// ---------------------------------------------------------------------------

/// A slot in rotation as a candidate.
pub open spec fn rotation_candidate(slot: Seq<char>, homes: Seq<Seq<char>>) -> CandidateModel {
    CandidateModel {
        value: slot,
        description: if homes.contains(slot) {
            "in rotation"@
        } else {
            "in rotation, missing home"@
        },
    }
}

/// The slots in rotation as candidates, without names that are none.
pub open spec fn rotation_candidates(rotation: Seq<Seq<char>>, homes: Seq<Seq<char>>) -> Seq<
    CandidateModel,
>
    decreases rotation.len(),
{
    if rotation.len() == 0 {
        seq![]
    } else if crate::slot::is_slot_name(rotation.last()) {
        rotation_candidates(rotation.drop_last(), homes).push(
            rotation_candidate(rotation.last(), homes),
        )
    } else {
        rotation_candidates(rotation.drop_last(), homes)
    }
}

/// The directories of slots as candidates, without names that are none.
pub open spec fn directory_candidates(dirs: Seq<Seq<char>>) -> Seq<CandidateModel>
    decreases dirs.len(),
{
    if dirs.len() == 0 {
        seq![]
    } else if crate::slot::is_slot_name(dirs.last()) {
        directory_candidates(dirs.drop_last()).push(
            CandidateModel { value: dirs.last(), description: "slot directory"@ },
        )
    } else {
        directory_candidates(dirs.drop_last())
    }
}

/// Slots as candidates: those in rotation, and those that have a directory.
pub open spec fn slot_list(
    rotation: Seq<Seq<char>>,
    homes: Seq<Seq<char>>,
    dirs: Seq<Seq<char>>,
) -> Seq<CandidateModel> {
    listed_once(rotation_candidates(rotation, homes) + directory_candidates(dirs))
}

fn is_one_of(names: &Vec<String>, name: &str) -> (out: bool)
    ensures
        out == crate::text::texts(names@).contains(name@),
{
    let ghost all = crate::text::texts(names@);
    let mut i: usize = 0;
    while i < names.len()
        invariant
            i <= names.len(),
            all == crate::text::texts(names@),
            forall|j: int| 0 <= j < i ==> #[trigger] all[j] != name@,
        decreases names.len() - i,
    {
        if same(names[i].as_str(), name) {
            proof {
                assert(all[i as int] == name@);
            }
            return true;
        }
        i += 1;
    }
    false
}

/// Slots as candidates. `homes` names the slots that have a home, and `dirs` the
/// directories of slots.
pub fn slot_candidates(rotation: &Vec<String>, homes: &Vec<String>, dirs: &Vec<String>) -> (out: Vec<
    Candidate,
>)
    ensures
        candidate_models(out@) == slot_list(
            crate::text::texts(rotation@),
            crate::text::texts(homes@),
            crate::text::texts(dirs@),
        ),
{
    let ghost all = crate::text::texts(rotation@);
    let ghost there = crate::text::texts(homes@);
    let mut out: Vec<Candidate> = Vec::new();
    let mut i: usize = 0;
    proof {
        assert(all.take(0) =~= seq![]);
        assert(candidate_models(out@) =~= seq![]);
    }
    while i < rotation.len()
        invariant
            i <= rotation.len(),
            all == crate::text::texts(rotation@),
            there == crate::text::texts(homes@),
            candidate_models(out@) == listed_once(rotation_candidates(all.take(i as int), there)),
        decreases rotation.len() - i,
    {
        let ghost before = rotation_candidates(all.take(i as int), there);
        proof {
            assert(all.take(i + 1).drop_last() =~= all.take(i as int));
            assert(all.take(i + 1).last() == rotation@[i as int]@);
        }
        if validate_slot_name(rotation[i].as_str()).is_ok() {
            let description = if is_one_of(homes, rotation[i].as_str()) {
                "in rotation"
            } else {
                "in rotation, missing home"
            };
            proof {
                assert(before.push(rotation_candidate(rotation@[i as int]@, there)).drop_last()
                    =~= before);
            }
            put(&mut out, Candidate::new(rotation[i].as_str(), description));
        }
        i += 1;
    }
    proof {
        assert(all.take(all.len() as int) =~= all);
    }
    let ghost head = rotation_candidates(all, there);
    let ghost names = crate::text::texts(dirs@);
    let mut j: usize = 0;
    proof {
        assert(names.take(0) =~= seq![]);
        assert(head + directory_candidates(names.take(0)) =~= head);
    }
    while j < dirs.len()
        invariant
            j <= dirs.len(),
            names == crate::text::texts(dirs@),
            candidate_models(out@) == listed_once(
                head + directory_candidates(names.take(j as int)),
            ),
        decreases dirs.len() - j,
    {
        let ghost before = head + directory_candidates(names.take(j as int));
        proof {
            assert(names.take(j + 1).drop_last() =~= names.take(j as int));
            assert(names.take(j + 1).last() == dirs@[j as int]@);
        }
        if validate_slot_name(dirs[j].as_str()).is_ok() {
            proof {
                let item = CandidateModel {
                    value: dirs@[j as int]@,
                    description: "slot directory"@,
                };
                assert(head + directory_candidates(names.take(j as int)).push(item) =~= before.push(
                    item,
                ));
                assert(before.push(item).drop_last() =~= before);
            }
            put(&mut out, Candidate::new(dirs[j].as_str(), "slot directory"));
        }
        j += 1;
    }
    proof {
        assert(names.take(names.len() as int) =~= names);
    }
    out
}

/// Targets as candidates.
pub open spec fn target_list(names: Seq<Seq<char>>) -> Seq<CandidateModel> {
    names.map_values(
        |name: Seq<char>| CandidateModel { value: name, description: "target config"@ },
    )
}

/// Targets as candidates.
pub fn target_candidates(names: &Vec<String>) -> (out: Vec<Candidate>)
    ensures
        candidate_models(out@) == target_list(crate::text::texts(names@)),
{
    let ghost all = target_list(crate::text::texts(names@));
    let mut out: Vec<Candidate> = Vec::new();
    let mut i: usize = 0;
    proof {
        assert(candidate_models(out@) =~= all.take(0));
    }
    while i < names.len()
        invariant
            i <= names.len(),
            all == target_list(crate::text::texts(names@)),
            candidate_models(out@) == all.take(i as int),
        decreases names.len() - i,
    {
        push_candidate(&mut out, names[i].as_str(), "target config");
        proof {
            assert(all.take(i + 1) =~= all.take(i as int).push(all[i as int]));
        }
        i += 1;
    }
    proof {
        assert(all.take(all.len() as int) =~= all);
    }
    out
}

// ---------------------------------------------------------------------------
// Paths
// ---------------------------------------------------------------------------

/// What a path may lead to.
#[derive(Clone, Copy, Debug, PartialEq, Eq, Structural)]
pub enum PathKind {
    Files,
    Directories,
}

/// Where the name at the end of `prefix` starts: behind its last slash.
pub open spec fn name_start(prefix: Seq<char>) -> int
    decreases prefix.len(),
{
    if prefix.len() == 0 {
        0
    } else if prefix.last() == '/' {
        prefix.len() as int
    } else {
        name_start(prefix.drop_last())
    }
}

proof fn lemma_name_start(prefix: Seq<char>)
    ensures
        0 <= name_start(prefix) <= prefix.len(),
    decreases prefix.len(),
{
    if prefix.len() > 0 && prefix.last() != '/' {
        lemma_name_start(prefix.drop_last());
    }
}

/// `prefix` in two: up to its last slash, and the name behind that.
pub fn split_path_prefix(prefix: &str) -> (out: (String, String))
    ensures
        out.0@ == prefix@.take(name_start(prefix@)),
        out.1@ == prefix@.skip(name_start(prefix@)),
{
    let chars = chars_of(prefix);
    let mut k: usize = chars.len();
    proof {
        lemma_name_start(prefix@);
        assert(prefix@.take(k as int) =~= prefix@);
    }
    while k > 0 && chars[k - 1] != '/'
        invariant
            k <= chars.len(),
            chars@ == prefix@,
            name_start(prefix@.take(k as int)) == name_start(prefix@),
        decreases k,
    {
        proof {
            assert(prefix@.take(k as int).drop_last() =~= prefix@.take(k - 1));
        }
        k -= 1;
    }
    proof {
        if k > 0 {
            assert(prefix@.take(k as int).last() == '/');
        }
        assert(name_start(prefix@) == k);
        assert(prefix@.subrange(0, k as int) =~= prefix@.take(k as int));
        assert(prefix@.subrange(k as int, prefix@.len() as int) =~= prefix@.skip(k as int));
    }
    let n: usize = chars.len();
    (string_of(&sub_chars(&chars, 0, k)), string_of(&sub_chars(&chars, k, n)))
}

/// A path with the home directory in place of a tilde.
pub open spec fn expanded(path: Seq<char>, home: Seq<char>) -> Seq<char> {
    if path == "~"@ {
        home
    } else {
        match crate::text::stripped_prefix(path, "~/"@) {
            Some(rest) => crate::paths::joined_path(home, rest),
            None => path,
        }
    }
}

/// A path with the home directory in place of a tilde.
pub fn expand_tilde(path: &str, home: &str) -> (out: String)
    ensures
        out@ == expanded(path@, home@),
{
    if same(path, "~") {
        return copy_of(home);
    }
    match strip_prefix(&chars_of(path), "~/") {
        Some(rest) => join_path(home, string_of(&rest).as_str()),
        None => copy_of(path),
    }
}

/// The directory whose entries complete `prefix`.
pub open spec fn listed_dir(prefix: Seq<char>, home: Seq<char>) -> Seq<char> {
    if name_start(prefix) == 0 {
        expanded("."@, home)
    } else {
        expanded(prefix.take(name_start(prefix)), home)
    }
}

/// The directory whose entries complete `prefix`.
pub fn directory_to_list(prefix: &str, home: &str) -> (out: String)
    ensures
        out@ == listed_dir(prefix@, home@),
{
    let parts = split_path_prefix(prefix);
    proof {
        lemma_name_start(prefix@);
    }
    if parts.0.as_str().unicode_len() == 0 {
        expand_tilde(".", home)
    } else {
        expand_tilde(parts.0.as_str(), home)
    }
}

/// An entry of a directory.
#[derive(Debug)]
pub struct DirEntry {
    pub name: String,
    pub is_dir: bool,
}

/// Whether an entry completes a path: a hidden one only where that is asked for.
pub open spec fn completes(entry: DirEntry, prefix: Seq<char>, kind: PathKind) -> bool {
    let asked = prefix.skip(name_start(prefix));
    &&& crate::text::has_prefix(asked, "."@) || !crate::text::has_prefix(entry.name@, "."@)
    &&& crate::text::has_prefix(entry.name@, asked)
    &&& kind == PathKind::Files || entry.is_dir
}

/// An entry as a candidate.
pub open spec fn path_candidate(entry: DirEntry, prefix: Seq<char>) -> CandidateModel {
    let path = prefix.take(name_start(prefix)) + entry.name@;
    if entry.is_dir {
        CandidateModel { value: path + "/"@, description: "directory"@ }
    } else {
        CandidateModel { value: path, description: "file"@ }
    }
}

/// The entries of a directory that complete a path.
pub open spec fn path_list(entries: Seq<DirEntry>, prefix: Seq<char>, kind: PathKind) -> Seq<
    CandidateModel,
>
    decreases entries.len(),
{
    if entries.len() == 0 {
        seq![]
    } else if completes(entries.last(), prefix, kind) {
        path_list(entries.drop_last(), prefix, kind).push(path_candidate(entries.last(), prefix))
    } else {
        path_list(entries.drop_last(), prefix, kind)
    }
}

/// The entries of a directory that complete a path.
pub fn path_candidates(prefix: &str, kind: PathKind, entries: &Vec<DirEntry>) -> (out: Vec<
    Candidate,
>)
    ensures
        candidate_models(out@) == path_list(entries@, prefix@, kind),
{
    let parts = split_path_prefix(prefix);
    let head = parts.0;
    let asked = parts.1;
    let mut out: Vec<Candidate> = Vec::new();
    let mut i: usize = 0;
    proof {
        assert(entries@.take(0) =~= seq![]);
        assert(candidate_models(out@) =~= seq![]);
    }
    while i < entries.len()
        invariant
            i <= entries.len(),
            head@ == prefix@.take(name_start(prefix@)),
            asked@ == prefix@.skip(name_start(prefix@)),
            candidate_models(out@) == path_list(entries@.take(i as int), prefix@, kind),
        decreases entries.len() - i,
    {
        proof {
            assert(entries@.take(i + 1).drop_last() =~= entries@.take(i as int));
            assert(entries@.take(i + 1).last() == entries@[i as int]);
        }
        let name = entries[i].name.as_str();
        let is_dir = entries[i].is_dir;
        if (text_starts_with(asked.as_str(), ".") || !text_starts_with(name, "."))
            && text_starts_with(name, asked.as_str()) && (kind == PathKind::Files || is_dir) {
            if is_dir {
                push_candidate(
                    &mut out,
                    concat3(head.as_str(), name, "/").as_str(),
                    "directory",
                );
            } else {
                push_candidate(&mut out, concat2(head.as_str(), name).as_str(), "file");
            }
        }
        i += 1;
    }
    proof {
        assert(entries@.take(entries@.len() as int) =~= entries@);
    }
    out
}

// ---------------------------------------------------------------------------
// Output
// ---------------------------------------------------------------------------

/// A character that cannot break a line.
pub open spec fn tame(c: char) -> char {
    if c == '\t' || c == '\n' || c == '\r' {
        ' '
    } else {
        c
    }
}

/// A text on one line, without tabs.
pub open spec fn sanitized(text: Seq<char>) -> Seq<char> {
    text.map_values(|c: char| tame(c))
}

/// A text on one line, without tabs.
pub fn sanitize(value: &str) -> (out: String)
    ensures
        out@ == sanitized(value@),
{
    let chars = chars_of(value);
    let mut out: Vec<char> = Vec::new();
    let mut i: usize = 0;
    while i < chars.len()
        invariant
            i <= chars.len(),
            chars@ == value@,
            out@ == sanitized(value@).take(i as int),
        decreases chars.len() - i,
    {
        let c = chars[i];
        out.push(
            if c == '\t' || c == '\n' || c == '\r' {
                ' '
            } else {
                c
            },
        );
        proof {
            assert(sanitized(value@).take(i + 1) =~= sanitized(value@).take(i as int).push(
                sanitized(value@)[i as int],
            ));
        }
        i += 1;
    }
    proof {
        assert(out@ =~= sanitized(value@));
    }
    string_of(&out)
}

/// A candidate on its line: the word alone for names, else the word, a tab and the
/// description.
pub open spec fn candidate_line(kind: CompleteKind, item: CandidateModel) -> Seq<char> {
    match kind {
        CompleteKind::Words => sanitized(item.value) + "\t"@ + sanitized(item.description),
        _ => sanitized(item.value),
    }
}

/// The lines that answer a completion.
pub fn print_candidates(kind: CompleteKind, candidates: &Vec<Candidate>) -> (out: Vec<String>)
    ensures
        crate::text::texts(out@) == candidate_models(candidates@).map_values(
            |item: CandidateModel| candidate_line(kind, item),
        ),
{
    let mut out: Vec<String> = Vec::new();
    let mut i: usize = 0;
    while i < candidates.len()
        invariant
            i <= candidates.len(),
            out@.len() == i,
            forall|j: int|
                0 <= j < i ==> (#[trigger] out@[j])@ == candidate_line(kind, candidates@[j]@),
        decreases candidates.len() - i,
    {
        let value = sanitize(candidates[i].value.as_str());
        let line = match kind {
            CompleteKind::Words => concat3(
                value.as_str(),
                "\t",
                sanitize(candidates[i].description.as_str()).as_str(),
            ),
            _ => value,
        };
        out.push(line);
        i += 1;
    }
    proof {
        assert(crate::text::texts(out@) =~= candidate_models(candidates@).map_values(
            |item: CandidateModel| candidate_line(kind, item),
        ));
    }
    out
}

// ---------------------------------------------------------------------------
// Laws
// ---------------------------------------------------------------------------

/// Whether words are in order, each once.
pub open spec fn is_listed(items: Seq<CandidateModel>) -> bool {
    forall|i: int, j: int|
        0 <= i < j < items.len() ==> crate::textmap::text_lt(
            #[trigger] items[i].value,
            #[trigger] items[j].value,
        )
}

/// The first candidate with a word.
pub open spec fn first_with(items: Seq<CandidateModel>, value: Seq<char>) -> Option<CandidateModel>
    decreases items.len(),
{
    if items.len() == 0 {
        None
    } else if items[0].value == value {
        Some(items[0])
    } else {
        first_with(items.skip(1), value)
    }
}

proof fn lemma_put(list: Seq<CandidateModel>, item: CandidateModel, value: Seq<char>)
    requires
        is_listed(list),
    ensures
        is_listed(put_candidate(list, item)),
        first_with(put_candidate(list, item), value) == (if first_with(list, value) is Some {
            first_with(list, value)
        } else if item.value == value {
            Some(item)
        } else {
            None
        }),
        forall|k: int|
            0 <= k < put_candidate(list, item).len() ==> {
                let c = #[trigger] put_candidate(list, item)[k];
                c == item || list.contains(c)
            },
    decreases list.len(),
{
    let out = put_candidate(list, item);
    if list.len() > 0 {
        let rest = list.skip(1);
        match crate::textmap::placed(list[0].value, item.value) {
            Place::Before => {
                assert(is_listed(rest));
                lemma_put(rest, item, value);
                let inner = put_candidate(rest, item);
                assert(out.skip(1) =~= inner);
                assert forall|i: int, j: int| 0 <= i < j < out.len() implies crate::textmap::text_lt(
                    #[trigger] out[i].value,
                    #[trigger] out[j].value,
                ) by {
                    if i == 0 {
                        let c = inner[j - 1];
                        assert(out[j] == c);
                        if c != item {
                            assert(rest.contains(c));
                            let m = choose|m: int| 0 <= m < rest.len() && rest[m] == c;
                            assert(list[m + 1] == c);
                        }
                    } else {
                        assert(out[i] == inner[i - 1]);
                        assert(out[j] == inner[j - 1]);
                    }
                }
                assert forall|k: int| 0 <= k < out.len() implies {
                    let c = #[trigger] out[k];
                    c == item || list.contains(c)
                } by {
                    if k == 0 {
                        assert(list[0] == out[0]);
                    } else {
                        let c = inner[k - 1];
                        assert(out[k] == c);
                        if c != item {
                            let m = choose|m: int| 0 <= m < rest.len() && rest[m] == c;
                            assert(list[m + 1] == c);
                        }
                    }
                }
            },
            Place::Same => {
                lemma_first_same(list, item.value);
            },
            Place::After => {
                crate::textmap::lemma_text_lt_total(list[0].value, item.value);
                assert(out.skip(1) =~= list);
                assert forall|i: int, j: int| 0 <= i < j < out.len() implies crate::textmap::text_lt(
                    #[trigger] out[i].value,
                    #[trigger] out[j].value,
                ) by {
                    assert(out[j] == list[j - 1]);
                    if i == 0 {
                        if j > 1 {
                            assert(crate::textmap::text_lt(list[0].value, list[j - 1].value));
                            crate::textmap::lemma_text_lt_transitive(
                                item.value,
                                list[0].value,
                                list[j - 1].value,
                            );
                        }
                    } else {
                        assert(out[i] == list[i - 1]);
                    }
                }
                assert forall|k: int| 0 <= k < out.len() implies {
                    let c = #[trigger] out[k];
                    c == item || list.contains(c)
                } by {
                    if k > 0 {
                        assert(out[k] == list[k - 1]);
                    }
                }
                if value == item.value {
                    lemma_first_absent(list, value);
                }
            },
        }
    } else {
        assert(out =~= seq![item]);
        assert(out.skip(1) =~= seq![]);
        assert(first_with(out.skip(1), value) is None);
    }
}

proof fn lemma_first_same(list: Seq<CandidateModel>, value: Seq<char>)
    requires
        list.len() > 0,
        list[0].value == value,
    ensures
        first_with(list, value) is Some,
{
}

proof fn lemma_first_absent(list: Seq<CandidateModel>, value: Seq<char>)
    requires
        is_listed(list),
        list.len() > 0 ==> crate::textmap::text_lt(value, list[0].value),
    ensures
        first_with(list, value) is None,
    decreases list.len(),
{
    if list.len() > 0 {
        crate::textmap::lemma_text_lt_irreflexive(value);
        let rest = list.skip(1);
        if rest.len() > 0 {
            assert(crate::textmap::text_lt(list[0].value, list[1].value));
            crate::textmap::lemma_text_lt_transitive(value, list[0].value, list[1].value);
        }
        lemma_first_absent(rest, value);
    }
}

proof fn lemma_first_of_push(
    items: Seq<CandidateModel>,
    item: CandidateModel,
    value: Seq<char>,
)
    ensures
        first_with(items.push(item), value) == (if first_with(items, value) is Some {
            first_with(items, value)
        } else if item.value == value {
            Some(item)
        } else {
            None
        }),
    decreases items.len(),
{
    if items.len() == 0 {
        assert(items.push(item)[0] == item);
        assert(items.push(item).skip(1) =~= seq![]);
        assert(first_with(items.push(item).skip(1), value) is None);
    } else {
        assert(items.push(item)[0] == items[0]);
        assert(items.push(item).skip(1) =~= items.skip(1).push(item));
        lemma_first_of_push(items.skip(1), item, value);
    }
}

proof fn lemma_listed_once(items: Seq<CandidateModel>, value: Seq<char>)
    ensures
        is_listed(listed_once(items)),
        first_with(listed_once(items), value) == first_with(items, value),
    decreases items.len(),
{
    if items.len() > 0 {
        lemma_listed_once(items.drop_last(), value);
        lemma_put(listed_once(items.drop_last()), items.last(), value);
        lemma_first_of_push(items.drop_last(), items.last(), value);
        assert(items.drop_last().push(items.last()) =~= items);
    }
}

proof fn lemma_with_prefix(items: Seq<CandidateModel>, prefix: Seq<char>, value: Seq<char>)
    ensures
        first_with(with_prefix(items, prefix), value) == (if crate::text::has_prefix(
            value,
            prefix,
        ) {
            first_with(items, value)
        } else {
            None
        }),
    decreases items.len(),
{
    if items.len() > 0 {
        lemma_with_prefix(items.drop_last(), prefix, value);
        lemma_first_of_push(items.drop_last(), items.last(), value);
        assert(items.drop_last().push(items.last()) =~= items);
        lemma_first_of_push(with_prefix(items.drop_last(), prefix), items.last(), value);
    }
}

/// Completions are in the order of their words and hold no word twice. A word is
/// among them exactly if it is a candidate that starts with what was typed, and it
/// is described as its first candidate is.
pub proof fn completions_are_sorted_and_unique(
    items: Seq<CandidateModel>,
    prefix: Seq<char>,
    value: Seq<char>,
)
    ensures
        is_listed(filtered(items, prefix)),
        first_with(filtered(items, prefix), value) == (if crate::text::has_prefix(value, prefix) {
            first_with(items, value)
        } else {
            None
        }),
{
    lemma_listed_once(with_prefix(items, prefix), value);
    lemma_with_prefix(items, prefix, value);
}

/// What is put before completions stands before each of them, and their descriptions
/// stay.
pub proof fn completions_keep_what_stands_before(
    items: Seq<CandidateModel>,
    head: Seq<char>,
    i: int,
)
    requires
        0 <= i < items.len(),
    ensures
        attached(items, head).len() == items.len(),
        attached(items, head)[i].value == head + items[i].value,
        attached(items, head)[i].description == items[i].description,
{
}

/// Slots of the rotation are offered as such, with a note where their home is missing,
/// and directories as what they are; only names that a slot can have are.
pub proof fn slots_are_offered_with_where_they_are(
    slots: Seq<Seq<char>>,
    slot: Seq<char>,
    homes: Seq<Seq<char>>,
)
    ensures
        !crate::slot::is_slot_name(slot) ==> rotation_candidates(slots.push(slot), homes)
            == rotation_candidates(slots, homes) && directory_candidates(slots.push(slot))
            == directory_candidates(slots),
        crate::slot::is_slot_name(slot) && homes.contains(slot) ==> rotation_candidates(
            slots.push(slot),
            homes,
        ) == rotation_candidates(slots, homes).push(
            CandidateModel { value: slot, description: "in rotation"@ },
        ),
        crate::slot::is_slot_name(slot) && !homes.contains(slot) ==> rotation_candidates(
            slots.push(slot),
            homes,
        ) == rotation_candidates(slots, homes).push(
            CandidateModel { value: slot, description: "in rotation, missing home"@ },
        ),
        crate::slot::is_slot_name(slot) ==> directory_candidates(slots.push(slot))
            == directory_candidates(slots).push(
            CandidateModel { value: slot, description: "slot directory"@ },
        ),
{
    assert(slots.push(slot).drop_last() =~= slots);
}

/// Targets are offered in their order.
pub proof fn targets_are_offered_in_order(names: Seq<Seq<char>>, i: int)
    requires
        0 <= i < names.len(),
    ensures
        target_list(names).len() == names.len(),
        target_list(names)[i].value == names[i],
        target_list(names)[i].description == "target config"@,
{
}

/// A typed path is split behind its last slash.
pub proof fn typed_paths_are_split_behind_the_last_slash(prefix: Seq<char>, i: int)
    ensures
        0 <= name_start(prefix) <= prefix.len(),
        name_start(prefix) > 0 ==> prefix[name_start(prefix) - 1] == '/',
        name_start(prefix) <= i < prefix.len() ==> prefix[i] != '/',
    decreases prefix.len(),
{
    if prefix.len() > 0 && prefix.last() != '/' {
        typed_paths_are_split_behind_the_last_slash(prefix.drop_last(), i);
    }
}

/// A tilde stands for the home, alone or in front of a slash, and nowhere else.
pub proof fn tildes_stand_for_the_home(path: Seq<char>, home: Seq<char>)
    ensures
        expanded("~"@, home) == home,
        path.len() > 0 && path[0] != '/' && home.len() > 0 && home.last() != '/' ==> expanded(
            "~/"@ + path,
            home,
        ) == home + seq!['/'] + path,
        path.len() > 0 && path[0] != '~' ==> expanded(path, home) == path,
{
    reveal_strlit("~");
    reveal_strlit("~/");
    if path.len() > 0 && path[0] != '~' {
        assert("~"@[0] == '~');
        if crate::text::has_prefix(path, "~/"@) {
            assert(path.take(2)[0] == path[0]);
        }
    }
    if path.len() > 0 && path[0] != '/' && home.len() > 0 && home.last() != '/' {
        let all = "~/"@ + path;
        assert(all.len() > 1);
        assert(all.take(2) =~= "~/"@);
        assert(all.skip(2) =~= path);
        assert(home.push('/') + path =~= home + seq!['/'] + path);
    }
}

/// Entries that begin with what was typed are offered: hidden ones only where a dot was
/// typed, and files only where files are asked for. Directories end with a slash.
pub proof fn entries_are_offered_where_they_fit(
    entries: Seq<DirEntry>,
    entry: DirEntry,
    dir: Seq<char>,
    typed: Seq<char>,
    kind: PathKind,
)
    requires
        dir.len() == 0 || dir.last() == '/',
        !typed.contains('/'),
    ensures
        ({
            let prefix = dir + typed;
            let before = path_list(entries, prefix, kind);
            let after = path_list(entries.push(entry), prefix, kind);
            let hidden = entry.name@.len() > 0 && entry.name@[0] == '.';
            let asked = typed.len() > 0 && typed[0] == '.';
            let fits = crate::text::has_prefix(entry.name@, typed) && (asked || !hidden) && (kind
                == PathKind::Files || entry.is_dir);
            &&& !fits ==> after == before
            &&& fits && entry.is_dir ==> after == before.push(
                CandidateModel { value: dir + entry.name@ + "/"@, description: "directory"@ },
            )
            &&& fits && !entry.is_dir ==> after == before.push(
                CandidateModel { value: dir + entry.name@, description: "file"@ },
            )
        }),
{
    reveal_strlit(".");
    let prefix = dir + typed;
    lemma_name_starts(dir, typed);
    assert(prefix.take(dir.len() as int) =~= dir);
    assert(prefix.skip(dir.len() as int) =~= typed);
    assert(entries.push(entry).drop_last() =~= entries);
    lemma_dot(entry.name@);
    lemma_dot(typed);
}

proof fn lemma_dot(text: Seq<char>)
    ensures
        crate::text::has_prefix(text, "."@) <==> text.len() > 0 && text[0] == '.',
{
    reveal_strlit(".");
    if text.len() > 0 {
        assert(text.take(1) =~= seq![text[0]]);
        assert("."@ =~= seq!['.']);
        assert(seq![text[0]][0] == text[0] && seq!['.'][0] == '.');
    }
}

proof fn lemma_name_starts(dir: Seq<char>, typed: Seq<char>)
    requires
        dir.len() == 0 || dir.last() == '/',
        !typed.contains('/'),
    ensures
        name_start(dir + typed) == dir.len(),
    decreases typed.len(),
{
    let all = dir + typed;
    if typed.len() == 0 {
        assert(all =~= dir);
    } else {
        assert(all.last() == typed.last());
        assert(typed.contains(typed[typed.len() - 1]));
        assert(all.drop_last() =~= dir + typed.drop_last());
        assert(!typed.drop_last().contains('/')) by {
            if typed.drop_last().contains('/') {
                let k = choose|k: int|
                    0 <= k < typed.drop_last().len() && typed.drop_last()[k] == '/';
                assert(typed[k] == '/');
            }
        }
        lemma_name_starts(dir, typed.drop_last());
    }
}

/// A completion is one line: its value, and where words are completed a tab and its
/// description. Nothing in it ends the line or the field.
pub proof fn completions_are_lines(kind: CompleteKind, item: CandidateModel, i: int)
    ensures
        ({
            let value = sanitized(item.value);
            &&& value.len() == item.value.len()
            &&& 0 <= i < value.len() ==> value[i] != '\n' && value[i] != '\r' && value[i] != '\t'
            &&& 0 <= i < value.len() && item.value[i] != '\n' && item.value[i] != '\r'
                && item.value[i] != '\t' ==> value[i] == item.value[i]
            &&& candidate_line(CompleteKind::Words, item) == value + "\t"@ + sanitized(
                item.description,
            )
            &&& candidate_line(CompleteKind::Slots, item) == value
            &&& candidate_line(CompleteKind::Targets, item) == value
        }),
{
}

} // verus!
