//! File paths as text, and the directories that `cx` manages.
//!
//! Paths are those of Unix: components separated by slashes. Empty components
//! and components that are a single dot stand for nothing, except a dot that a
//! relative path starts with.

use vstd::prelude::*;

use crate::text::chars_of;
use crate::text::concat2;
use crate::text::concat3;
use crate::text::copy_of;
use crate::text::same;
use crate::text::string_of;
use crate::text::sub_chars;

verus! {

// ---------------------------------------------------------------------------
// Joining
// ---------------------------------------------------------------------------

/// `tail` below `base`. An absolute `tail` stands for itself.
pub open spec fn joined_path(base: Seq<char>, tail: Seq<char>) -> Seq<char> {
    if tail.len() > 0 && tail[0] == '/' {
        tail
    } else if base.len() == 0 || base.last() == '/' {
        base + tail
    } else {
        base.push('/') + tail
    }
}

/// `tail` below `base`.
pub fn join_path(base: &str, tail: &str) -> (out: String)
    ensures
        out@ == joined_path(base@, tail@),
{
    let b = chars_of(base);
    let t = chars_of(tail);
    if t.len() > 0 && t[0] == '/' {
        copy_of(tail)
    } else if b.len() == 0 || b[b.len() - 1] == '/' {
        concat2(base, tail)
    } else {
        let out = concat3(base, "/", tail);
        proof {
            reveal_strlit("/");
            assert(out@ =~= base@.push('/') + tail@);
        }
        out
    }
}

/// Whether `path` starts at the root.
pub open spec fn is_absolute(path: Seq<char>) -> bool {
    path.len() > 0 && path[0] == '/'
}

/// Whether `path` starts at the root.
pub fn absolute(path: &str) -> (out: bool)
    ensures
        out == is_absolute(path@),
{
    let p = chars_of(path);
    p.len() > 0 && p[0] == '/'
}

// ---------------------------------------------------------------------------
// Components
// ---------------------------------------------------------------------------

/// Where the components of a path start that are not its root or leading dot.
pub open spec fn body_start(path: Seq<char>) -> int {
    if path.len() > 0 && path[0] == '/' {
        1
    } else if path.len() > 0 && path[0] == '.' && (path.len() == 1 || path[1] == '/') {
        1
    } else {
        0
    }
}

/// Where the last component starts among the characters `start..` of `path`.
pub open spec fn last_start(path: Seq<char>, start: int) -> int
    decreases path.len(),
{
    if path.len() == 0 || path.len() <= start {
        start
    } else if path.last() == '/' {
        path.len() as int
    } else {
        last_start(path.drop_last(), start)
    }
}

/// `path` without its last component and the slash before that.
pub open spec fn without_last(path: Seq<char>) -> Seq<char> {
    let start = body_start(path);
    let at = last_start(path, start);
    if start < at <= path.len() {
        path.take(at - 1)
    } else {
        path.take(start)
    }
}

/// The last component of `path`, of those that are not its root or leading dot.
pub open spec fn last_component(path: Seq<char>) -> Seq<char> {
    path.skip(last_start(path, body_start(path)))
}

/// `path` without the components at its end that stand for nothing.
pub open spec fn trimmed_path(path: Seq<char>) -> Seq<char>
    decreases path.len(),
{
    let comp = last_component(path);
    if path.len() > body_start(path) && (comp.len() == 0 || comp == seq!['.']) && without_last(
        path,
    ).len() < path.len() {
        trimmed_path(without_last(path))
    } else {
        path
    }
}

/// The path above `path`, unless `path` is the root or empty.
pub open spec fn parent_of(path: Seq<char>) -> Option<Seq<char>> {
    let p = trimmed_path(path);
    if p.len() == 0 || p == seq!['/'] {
        None
    } else if p.len() == body_start(p) {
        Some(seq![])
    } else {
        Some(trimmed_path(without_last(p)))
    }
}

/// The name of what `path` leads to, unless it ends with the root or with dots.
pub open spec fn file_name_of(path: Seq<char>) -> Option<Seq<char>> {
    let p = trimmed_path(path);
    if p.len() == body_start(p) || last_component(p) == seq!['.', '.'] {
        None
    } else {
        Some(last_component(p))
    }
}

fn body_from(path: &Vec<char>) -> (out: usize)
    ensures
        out == body_start(path@),
        out <= path@.len(),
{
    if path.len() > 0 && path[0] == '/' {
        1
    } else if path.len() > 0 && path[0] == '.' && (path.len() == 1 || path[1] == '/') {
        1
    } else {
        0
    }
}

fn last_from(path: &Vec<char>, start: usize) -> (out: usize)
    requires
        start <= path@.len(),
    ensures
        out == last_start(path@, start as int),
        start <= out <= path@.len(),
{
    let mut i: usize = path.len();
    proof {
        assert(path@.take(path@.len() as int) =~= path@);
    }
    while i > start && path[i - 1] != '/'
        invariant
            start <= i <= path.len(),
            last_start(path@, start as int) == last_start(path@.take(i as int), start as int),
        decreases i,
    {
        proof {
            assert(path@.take(i as int).drop_last() =~= path@.take(i - 1));
        }
        i -= 1;
    }
    proof {
        assert(path@.take(i as int).len() == i);
    }
    i
}

fn drop_last_component(path: &Vec<char>) -> (out: Vec<char>)
    ensures
        out@ == without_last(path@),
{
    let start = body_from(path);
    let at = last_from(path, start);
    let end: usize = if at > start {
        at - 1
    } else {
        start
    };
    let out = sub_chars(path, 0, end);
    proof {
        assert(out@ =~= path@.take(end as int));
    }
    out
}

fn trim_path(path: &Vec<char>) -> (out: Vec<char>)
    ensures
        out@ == trimmed_path(path@),
    decreases path@.len(),
{
    let start = body_from(path);
    let at = last_from(path, start);
    let n: usize = path.len() - at;
    let ghost comp = path@.skip(at as int);
    let nothing = n == 0 || (n == 1 && path[at] == '.');
    proof {
        assert(comp == last_component(path@));
        if n == 1 && path@[at as int] == '.' {
            assert(comp =~= seq!['.']);
        }
        if comp == seq!['.'] {
            assert(comp.len() == 1 && comp[0] == path@[at as int]);
        }
    }
    if path.len() > start && nothing {
        let shorter = drop_last_component(path);
        if shorter.len() < path.len() {
            return trim_path(&shorter);
        }
    }
    let out = sub_chars(path, 0, path.len());
    proof {
        assert(out@ =~= path@);
    }
    out
}

/// The path above `path`, unless `path` is the root or empty.
pub fn parent(path: &str) -> (out: Option<String>)
    ensures
        crate::text::opt_text(out) == parent_of(path@),
{
    let p = trim_path(&chars_of(path));
    proof {
        if p@.len() == 1 && p@[0] == '/' {
            assert(p@ =~= seq!['/']);
        }
    }
    if p.len() == 0 || (p.len() == 1 && p[0] == '/') {
        None
    } else if p.len() == body_from(&p) {
        Some(String::new())
    } else {
        Some(string_of(&trim_path(&drop_last_component(&p))))
    }
}

fn file_name_chars(path: &str) -> (out: Option<Vec<char>>)
    ensures
        crate::text::opt_chars(out) == file_name_of(path@),
{
    let p = trim_path(&chars_of(path));
    let start = body_from(&p);
    let at = last_from(&p, start);
    let comp = sub_chars(&p, at, p.len());
    proof {
        assert(comp@ =~= p@.skip(at as int));
        if comp@.len() == 2 && comp@[0] == '.' && comp@[1] == '.' {
            assert(comp@ =~= seq!['.', '.']);
        }
    }
    if p.len() == start || (comp.len() == 2 && comp[0] == '.' && comp[1] == '.') {
        None
    } else {
        Some(comp)
    }
}

/// Where the last dot of a file name stands, if it does not start the name.
pub open spec fn extension_dot(name: Seq<char>) -> Option<int>
    decreases name.len(),
{
    if name.len() <= 1 {
        None
    } else if name.last() == '.' {
        Some(name.len() - 1)
    } else {
        extension_dot(name.drop_last())
    }
}

/// The part of the file name of `path` behind its last dot.
pub open spec fn extension_of(path: Seq<char>) -> Option<Seq<char>> {
    match file_name_of(path) {
        Some(name) => match extension_dot(name) {
            Some(dot) => Some(name.skip(dot + 1)),
            None => None,
        },
        None => None,
    }
}

/// The part of the file name of `path` before its last dot.
pub open spec fn stem_of(path: Seq<char>) -> Option<Seq<char>> {
    match file_name_of(path) {
        Some(name) => match extension_dot(name) {
            Some(dot) => Some(name.take(dot)),
            None => Some(name),
        },
        None => None,
    }
}

fn find_extension_dot(name: &Vec<char>) -> (out: Option<usize>)
    ensures
        match out {
            Some(dot) => extension_dot(name@) == Some(dot as int) && dot < name.len(),
            None => extension_dot(name@) is None,
        },
{
    let mut i: usize = name.len();
    proof {
        assert(name@.take(name@.len() as int) =~= name@);
    }
    while i > 1
        invariant
            i <= name.len(),
            extension_dot(name@) == extension_dot(name@.take(i as int)),
        decreases i,
    {
        if name[i - 1] == '.' {
            return Some(i - 1);
        }
        proof {
            assert(name@.take(i as int).drop_last() =~= name@.take(i - 1));
        }
        i -= 1;
    }
    None
}

/// The part of the file name of `path` behind its last dot.
pub fn extension(path: &str) -> (out: Option<String>)
    ensures
        crate::text::opt_text(out) == extension_of(path@),
{
    match file_name_chars(path) {
        Some(name) => match find_extension_dot(&name) {
            Some(dot) => {
                let ext = sub_chars(&name, dot + 1, name.len());
                proof {
                    assert(ext@ =~= name@.skip(dot + 1));
                }
                Some(string_of(&ext))
            },
            None => None,
        },
        None => None,
    }
}

/// The part of the file name of `path` before its last dot.
pub fn file_stem(path: &str) -> (out: Option<String>)
    ensures
        crate::text::opt_text(out) == stem_of(path@),
{
    match file_name_chars(path) {
        Some(name) => match find_extension_dot(&name) {
            Some(dot) => {
                let stem = sub_chars(&name, 0, dot);
                proof {
                    assert(stem@ =~= name@.take(dot as int));
                }
                Some(string_of(&stem))
            },
            None => Some(string_of(&name)),
        },
        None => None,
    }
}

/// Whether `path` is a single component.
pub open spec fn is_single_component(path: Seq<char>) -> bool {
    let p = trimmed_path(path);
    p == seq!['/'] || (p.len() > 0 && !p.contains('/'))
}

/// Whether `path` is a single component.
pub fn single_component(path: &str) -> (out: bool)
    ensures
        out == is_single_component(path@),
{
    let p = trim_path(&chars_of(path));
    proof {
        if p@.len() == 1 && p@[0] == '/' {
            assert(p@ =~= seq!['/']);
        }
    }
    if p.len() == 1 && p[0] == '/' {
        return true;
    }
    p.len() > 0 && !crate::text::has_char(&p, '/')
}

/// The components of `path`.
pub open spec fn components_of(path: Seq<char>) -> Seq<Seq<char>>
    decreases path.len(),
{
    let p = trimmed_path(path);
    if p.len() <= body_start(p) || without_last(p).len() >= path.len() {
        if p.len() == 0 {
            seq![]
        } else {
            seq![p]
        }
    } else {
        components_of(without_last(p)).push(last_component(p))
    }
}

fn components(path: &Vec<char>) -> (out: Vec<Vec<char>>)
    ensures
        crate::lines::rows(out@) == components_of(path@),
    decreases path@.len(),
{
    let p = trim_path(path);
    let shorter = drop_last_component(&p);
    let start = body_from(&p);
    if p.len() <= start || shorter.len() >= path.len() {
        let mut out: Vec<Vec<char>> = Vec::new();
        if p.len() > 0 {
            out.push(p);
        }
        proof {
            assert(crate::lines::rows(out@) =~= components_of(path@));
        }
        return out;
    }
    let at = last_from(&p, start);
    let comp = sub_chars(&p, at, p.len());
    proof {
        assert(comp@ =~= last_component(p@));
    }
    let mut out = components(&shorter);
    let ghost before = out@;
    out.push(comp);
    proof {
        assert(crate::lines::rows(out@) =~= crate::lines::rows(before).push(comp@));
    }
    out
}

/// Whether two paths have the same components.
pub fn same_path(a: &str, b: &str) -> (out: bool)
    ensures
        out == (components_of(a@) == components_of(b@)),
{
    let x = components(&chars_of(a));
    let y = components(&chars_of(b));
    let ghost p = crate::lines::rows(x@);
    let ghost q = crate::lines::rows(y@);
    if x.len() != y.len() {
        proof {
            assert(p.len() != q.len());
        }
        return false;
    }
    let mut i: usize = 0;
    while i < x.len()
        invariant
            i <= x.len(),
            x@.len() == y@.len(),
            p == crate::lines::rows(x@),
            q == crate::lines::rows(y@),
            p == components_of(a@),
            q == components_of(b@),
            forall|j: int| 0 <= j < i ==> #[trigger] p[j] == q[j],
        decreases x.len() - i,
    {
        let s = string_of(&x[i]);
        let t = string_of(&y[i]);
        if !same(s.as_str(), t.as_str()) {
            proof {
                assert(p[i as int] != q[i as int]);
            }
            return false;
        }
        i += 1;
    }
    proof {
        assert(p =~= q);
    }
    true
}

// ---------------------------------------------------------------------------
// Order
// ---------------------------------------------------------------------------

/// What a component is: the root, the directory itself, the one above, or a name.
pub open spec fn component_rank(component: Seq<char>) -> int {
    if component == "/"@ {
        0
    } else if component == "."@ {
        1
    } else if component == ".."@ {
        2
    } else {
        3
    }
}

fn rank_of(component: &str) -> (out: u8)
    ensures
        out == component_rank(component@),
{
    if same(component, "/") {
        0
    } else if same(component, ".") {
        1
    } else if same(component, "..") {
        2
    } else {
        3
    }
}

/// Whether a component comes before another: by what it is, then by its text.
pub open spec fn component_before(a: Seq<char>, b: Seq<char>) -> bool {
    component_rank(a) < component_rank(b) || (component_rank(a) == component_rank(b)
        && crate::textmap::text_lt(a, b))
}

/// Whether a list of components comes before another: by the first difference, or
/// because it is the beginning of it.
pub open spec fn components_before(a: Seq<Seq<char>>, b: Seq<Seq<char>>) -> bool
    decreases a.len(),
{
    if b.len() == 0 {
        false
    } else if a.len() == 0 {
        true
    } else {
        component_before(a[0], b[0]) || (a[0] == b[0] && components_before(a.skip(1), b.skip(1)))
    }
}

/// The order of paths.
pub open spec fn path_order() -> spec_fn(Seq<char>, Seq<char>) -> bool {
    |a: Seq<char>, b: Seq<char>| components_before(components_of(a), components_of(b))
}

spec fn string_order() -> spec_fn(String, String) -> bool {
    |a: String, b: String| components_before(components_of(a@), components_of(b@))
}

fn path_comes_first(a: &String, b: &String) -> (out: bool)
    ensures
        out == components_before(components_of(a@), components_of(b@)),
{
    let x = components(&chars_of(a.as_str()));
    let y = components(&chars_of(b.as_str()));
    let ghost p = crate::lines::rows(x@);
    let ghost q = crate::lines::rows(y@);
    let mut i: usize = 0;
    proof {
        assert(p.skip(0) =~= p);
        assert(q.skip(0) =~= q);
    }
    while i < x.len() && i < y.len()
        invariant
            i <= x.len(),
            i <= y.len(),
            p == crate::lines::rows(x@),
            q == crate::lines::rows(y@),
            components_before(p, q) == components_before(p.skip(i as int), q.skip(i as int)),
            p == components_of(a@),
            q == components_of(b@),
        decreases x.len() - i,
    {
        proof {
            assert(p.skip(i as int)[0] == x@[i as int]@);
            assert(q.skip(i as int)[0] == y@[i as int]@);
            assert(p.skip(i as int).skip(1) =~= p.skip(i + 1));
            assert(q.skip(i as int).skip(1) =~= q.skip(i + 1));
            crate::textmap::lemma_text_lt_irreflexive(x@[i as int]@);
        }
        let s = string_of(&x[i]);
        let t = string_of(&y[i]);
        if !same(s.as_str(), t.as_str()) {
            let m = rank_of(s.as_str());
            let n = rank_of(t.as_str());
            let lower = match crate::textmap::place(s.as_str(), t.as_str()) {
                crate::textmap::Place::Before => true,
                _ => false,
            };
            return m < n || (m == n && lower);
        }
        i += 1;
    }
    i >= x.len() && i < y.len()
}

/// Paths without those that are the same as the one before.
pub open spec fn without_repeats(items: Seq<Seq<char>>) -> Seq<Seq<char>>
    decreases items.len(),
{
    if items.len() == 0 {
        seq![]
    } else {
        let before = without_repeats(items.drop_last());
        if before.len() > 0 && components_of(before.last()) == components_of(items.last()) {
            before
        } else {
            before.push(items.last())
        }
    }
}

/// Paths in order, each once.
pub fn sort_paths(items: Vec<String>) -> (out: Vec<String>)
    ensures
        crate::text::texts(out@) == without_repeats(
            crate::sorting::sorted(crate::text::texts(items@), path_order()),
        ),
{
    let ghost given = items@;
    let sorted = crate::sorting::sort_items(items, path_comes_first, Ghost(string_order()));
    let ghost all = crate::text::texts(sorted@);
    proof {
        crate::sorting::sorting_goes_by_images(
            given,
            string_order(),
            |item: String| item@,
            path_order(),
        );
        assert(all == crate::sorting::sorted(crate::text::texts(given), path_order()));
    }
    let mut out: Vec<String> = Vec::new();
    let mut i: usize = 0;
    proof {
        assert(all.take(0) =~= seq![]);
        assert(crate::text::texts(out@) =~= seq![]);
    }
    while i < sorted.len()
        invariant
            i <= sorted.len(),
            all == crate::text::texts(sorted@),
            crate::text::texts(out@) == without_repeats(all.take(i as int)),
        decreases sorted.len() - i,
    {
        let n = out.len();
        proof {
            assert(all.take(i + 1).drop_last() =~= all.take(i as int));
            assert(all.take(i + 1).last() == sorted@[i as int]@);
            assert(crate::text::texts(out@).len() == n);
            if n > 0 {
                assert(crate::text::texts(out@).last() == out@[n - 1]@);
            }
        }
        if n == 0 || !same_path(out[n - 1].as_str(), sorted[i].as_str()) {
            crate::text::push_text(&mut out, sorted[i].clone());
        }
        i += 1;
    }
    proof {
        assert(all.take(all.len() as int) =~= all);
    }
    out
}

proof fn lemma_component_order(a: Seq<char>, b: Seq<char>, c: Seq<char>)
    ensures
        !component_before(a, a),
        component_before(a, b) ==> !component_before(b, a),
        component_before(a, b) || a == b || component_before(b, a),
        component_before(a, b) && component_before(b, c) ==> component_before(a, c),
{
    crate::textmap::lemma_text_lt_irreflexive(a);
    crate::textmap::lemma_text_lt_total(a, b);
    if crate::textmap::text_lt(a, b) && crate::textmap::text_lt(b, a) {
        crate::textmap::lemma_text_lt_transitive(a, b, a);
    }
    if crate::textmap::text_lt(a, b) && crate::textmap::text_lt(b, c) {
        crate::textmap::lemma_text_lt_transitive(a, b, c);
    }
}

proof fn lemma_components_asymmetric(a: Seq<Seq<char>>, b: Seq<Seq<char>>)
    ensures
        components_before(a, b) ==> !components_before(b, a),
    decreases a.len(),
{
    if a.len() > 0 && b.len() > 0 {
        lemma_component_order(a[0], b[0], a[0]);
        lemma_component_order(b[0], a[0], b[0]);
        lemma_components_asymmetric(a.skip(1), b.skip(1));
    }
}

proof fn lemma_components_chain(a: Seq<Seq<char>>, b: Seq<Seq<char>>, c: Seq<Seq<char>>)
    requires
        !components_before(b, a),
        !components_before(c, b),
    ensures
        !components_before(c, a),
    decreases a.len(),
{
    if a.len() > 0 && b.len() > 0 && c.len() > 0 {
        lemma_component_order(a[0], b[0], c[0]);
        lemma_component_order(b[0], c[0], a[0]);
        lemma_component_order(c[0], a[0], b[0]);
        lemma_component_order(c[0], b[0], a[0]);
        lemma_component_order(a[0], c[0], b[0]);
        if a[0] == b[0] && b[0] == c[0] {
            lemma_components_chain(a.skip(1), b.skip(1), c.skip(1));
        }
    }
}

/// Paths are in order once they are sorted, and none of them is lost.
pub proof fn sorted_paths_are_in_order(items: Seq<Seq<char>>)
    ensures
        ({
            let sorted = crate::sorting::sorted(items, path_order());
            &&& crate::sorting::is_sorted(sorted, path_order())
            &&& sorted.to_multiset() == items.to_multiset()
        }),
{
    let order = path_order();
    assert forall|a: Seq<char>, b: Seq<char>, c: Seq<char>|
        !(#[trigger] order(b, a)) && !(#[trigger] order(c, b)) implies !order(c, a) by {
        lemma_components_chain(components_of(a), components_of(b), components_of(c));
    }
    assert forall|a: Seq<char>, b: Seq<char>| #[trigger] order(a, b) implies !order(b, a) by {
        lemma_components_asymmetric(components_of(a), components_of(b));
    }
    crate::sorting::sorting_keeps_items(items, order);
}

// ---------------------------------------------------------------------------
// Managed directories
// ---------------------------------------------------------------------------

/// The directories and files that hold slots and targets.
pub struct ManagerPaths {
    pub base_codex_home: String,
    pub manager_dir: String,
    pub slots_dir: String,
    pub targets_dir: String,
    pub rotation_file: String,
}

impl ManagerPaths {
    /// The layout below `manager`, with `base` as the home of the default slot.
    pub open spec fn is_layout(self, base: Seq<char>, manager: Seq<char>) -> bool {
        &&& self.base_codex_home@ == base
        &&& self.manager_dir@ == manager
        &&& self.slots_dir@ == joined_path(manager, "slots"@)
        &&& self.targets_dir@ == joined_path(manager, "targets"@)
        &&& self.rotation_file@ == joined_path(manager, "rotation.txt"@)
    }

    /// The layout below `manager_dir`, with `base_codex_home` as the home of the
    /// default slot.
    pub fn from_roots(base_codex_home: &str, manager_dir: &str) -> (out: ManagerPaths)
        ensures
            out.is_layout(base_codex_home@, manager_dir@),
    {
        ManagerPaths {
            base_codex_home: copy_of(base_codex_home),
            manager_dir: copy_of(manager_dir),
            slots_dir: join_path(manager_dir, "slots"),
            targets_dir: join_path(manager_dir, "targets"),
            rotation_file: join_path(manager_dir, "rotation.txt"),
        }
    }

    /// The manager directory that is in force: the one asked for, else the one
    /// of the environment, else the default one below `home`.
    pub open spec fn chosen_manager(
        asked: Option<Seq<char>>,
        from_env: Option<Seq<char>>,
        home: Seq<char>,
    ) -> Seq<char> {
        match (asked, from_env) {
            (Some(dir), _) => dir,
            (None, Some(dir)) => dir,
            (None, None) => joined_path(home, ".codex/profile-manager"@),
        }
    }

    /// The layout for a user whose home is `home`.
    pub fn new(asked: Option<String>, from_env: Option<String>, home: &str) -> (out: ManagerPaths)
        ensures
            ({
                let manager = Self::chosen_manager(
                    crate::text::opt_text(asked),
                    crate::text::opt_text(from_env),
                    home@,
                );
                let base = match parent_of(manager) {
                    Some(above) => above,
                    None => joined_path(home@, ".codex"@),
                };
                out.is_layout(base, manager)
            }),
    {
        let manager = match asked {
            Some(dir) => dir,
            None => match from_env {
                Some(dir) => dir,
                None => join_path(home, ".codex/profile-manager"),
            },
        };
        let base = match parent(manager.as_str()) {
            Some(above) => above,
            None => join_path(home, ".codex"),
        };
        Self::from_roots(base.as_str(), manager.as_str())
    }

    /// The directory of a slot.
    pub open spec fn slot_dir_text(self, slot: Seq<char>) -> Seq<char> {
        if slot == "default"@ {
            self.base_codex_home@
        } else {
            joined_path(self.slots_dir@, slot)
        }
    }

    /// The home of a slot.
    pub open spec fn slot_home_text(self, slot: Seq<char>) -> Seq<char> {
        if slot == "default"@ {
            self.base_codex_home@
        } else {
            joined_path(self.slot_dir_text(slot), "home"@)
        }
    }

    /// The directory of a slot.
    pub fn slot_dir(&self, slot: &str) -> (out: String)
        ensures
            out@ == self.slot_dir_text(slot@),
    {
        if same(slot, "default") {
            return self.base_codex_home.clone();
        }
        join_path(self.slots_dir.as_str(), slot)
    }

    /// The home of a slot.
    pub fn slot_home(&self, slot: &str) -> (out: String)
        ensures
            out@ == self.slot_home_text(slot@),
    {
        if same(slot, "default") {
            return self.base_codex_home.clone();
        }
        join_path(self.slot_dir(slot).as_str(), "home")
    }

    /// The directory of the index that all slots share, so that threads of every
    /// provider are seen everywhere.
    pub fn shared_sqlite_home(&self) -> (out: String)
        ensures
            out@ == joined_path(self.base_codex_home@, "sqlite"@),
    {
        join_path(self.base_codex_home.as_str(), "sqlite")
    }

    /// The configuration file of a target.
    pub fn target_file(&self, target: &str) -> (out: String)
        ensures
            out@ == joined_path(self.targets_dir@, target@ + ".toml"@),
    {
        join_path(self.targets_dir.as_str(), concat2(target, ".toml").as_str())
    }
}

// ---------------------------------------------------------------------------
// Laws
// ---------------------------------------------------------------------------

/// The default slot lives in the base home itself: its directory and its home
/// are the same place.
pub proof fn default_slot_is_the_base_home(paths: ManagerPaths)
    ensures
        paths.slot_dir_text("default"@) == paths.base_codex_home@,
        paths.slot_home_text("default"@) == paths.base_codex_home@,
{
}

/// Two slots whose names hold no slash have different homes.
pub proof fn slot_homes_are_apart(paths: ManagerPaths, a: Seq<char>, b: Seq<char>)
    requires
        a != b,
        a != "default"@,
        b != "default"@,
        a.len() > 0,
        b.len() > 0,
        !a.contains('/'),
        !b.contains('/'),
    ensures
        paths.slot_home_text(a) != paths.slot_home_text(b),
{
    let dir = paths.slots_dir@;
    assert(a[0] != '/') by {
        if a[0] == '/' {
            assert(a.contains('/'));
        }
    }
    assert(b[0] != '/') by {
        if b[0] == '/' {
            assert(b.contains('/'));
        }
    }
    let head = if dir.len() == 0 || dir.last() == '/' {
        dir
    } else {
        dir.push('/')
    };
    assert(paths.slot_dir_text(a) =~= head + a);
    assert(paths.slot_dir_text(b) =~= head + b);
    assert((head + a).last() == a.last());
    assert((head + b).last() == b.last());
    assert(a.contains(a.last()));
    assert(b.contains(b.last()));
    reveal_strlit("home");
    let ha = paths.slot_home_text(a);
    let hb = paths.slot_home_text(b);
    assert(ha =~= (head + a).push('/') + "home"@);
    assert(hb =~= (head + b).push('/') + "home"@);
    if ha == hb {
        assert(a.len() == b.len());
        assert forall|i: int| 0 <= i < a.len() implies a[i] == b[i] by {
            assert(ha[head.len() + i] == a[i]);
            assert(hb[head.len() + i] == b[i]);
        }
        assert(a =~= b);
    }
}

proof fn lemma_last_start(head: Seq<char>, name: Seq<char>, start: int)
    requires
        !name.contains('/'),
        start <= head.len(),
    ensures
        last_start(head.push('/') + name, start) == head.len() + 1,
    decreases name.len(),
{
    let all = head.push('/') + name;
    if name.len() == 0 {
        assert(all =~= head.push('/'));
    } else {
        assert(all.last() == name.last());
        assert(name.contains(name[name.len() - 1]));
        assert(all.drop_last() =~= head.push('/') + name.drop_last());
        assert(!name.drop_last().contains('/')) by {
            if name.drop_last().contains('/') {
                let k = choose|k: int|
                    0 <= k < name.drop_last().len() && name.drop_last()[k] == '/';
                assert(name[k] == '/');
            }
        }
        lemma_last_start(head, name.drop_last(), start);
    }
}

/// A name below a directory has the directory for its parent, and is its own file name
/// and its last component.
pub proof fn names_lie_in_their_directory(dir: Seq<char>, name: Seq<char>)
    requires
        dir.len() > 0,
        dir.last() != '/',
        trimmed_path(dir) == dir,
        name.len() > 0,
        !name.contains('/'),
        name != seq!['.'],
        name != seq!['.', '.'],
    ensures
        joined_path(dir, name) == dir + seq!['/'] + name,
        parent_of(joined_path(dir, name)) == Some(dir),
        file_name_of(joined_path(dir, name)) == Some(name),
        components_of(joined_path(dir, name)) == components_of(dir).push(name),
{
    let all = joined_path(dir, name);
    assert(name[0] != '/') by {
        if name[0] == '/' {
            assert(name.contains(name[0]));
        }
    }
    assert(all =~= dir.push('/') + name);
    assert(all =~= dir + seq!['/'] + name);
    let start = body_start(all);
    lemma_last_start(dir, name, start);
    assert(all.skip((dir.len() + 1) as int) =~= name);
    assert(all.take(dir.len() as int) =~= dir);
    assert(last_component(all) == name);
    assert(without_last(all) == dir);
    assert(trimmed_path(all) == all);
    assert(all.len() > body_start(all));
}

/// An absolute path stays what it is wherever it is put.
pub proof fn absolute_paths_stay(base: Seq<char>, path: Seq<char>)
    requires
        path.len() > 0,
        path[0] == '/',
    ensures
        joined_path(base, path) == path,
        is_absolute(path),
{
}

/// A file's name is its stem, a dot and its extension, where the last dot is not the
/// first character.
pub proof fn names_have_stems_and_extensions(path: Seq<char>, stem: Seq<char>, extension: Seq<char>)
    requires
        stem.len() > 0,
        !extension.contains('.'),
        file_name_of(path) == Some(stem + seq!['.'] + extension),
    ensures
        extension_of(path) == Some(extension),
        stem_of(path) == Some(stem),
{
    let name = stem + seq!['.'] + extension;
    lemma_extension_dot(stem, extension);
    assert(name.take(stem.len() as int) =~= stem);
    assert(name.skip((stem.len() + 1) as int) =~= extension);
}

proof fn lemma_extension_dot(stem: Seq<char>, extension: Seq<char>)
    requires
        stem.len() > 0,
        !extension.contains('.'),
    ensures
        extension_dot(stem + seq!['.'] + extension) == Some(stem.len() as int),
    decreases extension.len(),
{
    let name = stem + seq!['.'] + extension;
    if extension.len() == 0 {
        assert(name.last() == '.');
    } else {
        assert(name.last() == extension.last());
        assert(extension.contains(extension[extension.len() - 1]));
        assert(name.drop_last() =~= stem + seq!['.'] + extension.drop_last());
        assert(!extension.drop_last().contains('.')) by {
            if extension.drop_last().contains('.') {
                let k = choose|k: int|
                    0 <= k < extension.drop_last().len() && extension.drop_last()[k] == '.';
                assert(extension[k] == '.');
            }
        }
        lemma_extension_dot(stem, extension.drop_last());
    }
}

/// A path that repeats the one before it is left out, and no other one.
pub proof fn repeated_paths_are_left_out(items: Seq<Seq<char>>, path: Seq<char>)
    ensures
        ({
            let before = without_repeats(items);
            let after = without_repeats(items.push(path));
            let repeats = before.len() > 0 && components_of(before.last()) == components_of(path);
            &&& repeats ==> after == before
            &&& !repeats ==> after == before.push(path)
        }),
        without_repeats(seq![]).len() == 0,
{
    assert(items.push(path).drop_last() =~= items);
}

/// The directory that was asked for is used, else the one that the environment names,
/// else the one in the home.
pub proof fn asked_directories_come_first(
    asked: Seq<char>,
    from_env: Option<Seq<char>>,
    named: Seq<char>,
    home: Seq<char>,
)
    ensures
        ManagerPaths::chosen_manager(Some(asked), from_env, home) == asked,
        ManagerPaths::chosen_manager(None, Some(named), home) == named,
        home.len() > 0 && home.last() != '/' ==> ManagerPaths::chosen_manager(None, None, home)
            == home + "/.codex/profile-manager"@,
{
    reveal_strlit(".codex/profile-manager");
    reveal_strlit("/.codex/profile-manager");
    if home.len() > 0 && home.last() != '/' {
        assert(ManagerPaths::chosen_manager(None, None, home) =~= home
            + "/.codex/profile-manager"@);
    }
}

/// A slot has a directory of its own below that of the slots, and its home below that.
pub proof fn slots_have_their_own_directory(paths: ManagerPaths, slot: Seq<char>)
    requires
        slot != "default"@,
        slot.len() > 0,
        !slot.contains('/'),
        paths.slots_dir@.len() > 0,
        paths.slots_dir@.last() != '/',
    ensures
        paths.slot_dir_text(slot) == paths.slots_dir@ + seq!['/'] + slot,
        paths.slot_home_text(slot) == paths.slots_dir@ + seq!['/'] + slot + "/home"@,
{
    reveal_strlit("home");
    reveal_strlit("/home");
    assert(slot.contains(slot[0]));
    assert(slot.contains(slot[slot.len() - 1]));
    let dir = paths.slot_dir_text(slot);
    assert(dir =~= paths.slots_dir@ + seq!['/'] + slot);
    assert(dir.last() == slot.last());
    assert(paths.slot_home_text(slot) =~= paths.slots_dir@ + seq!['/'] + slot + "/home"@);
}

} // verus!
