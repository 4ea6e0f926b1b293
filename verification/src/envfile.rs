//! Files of environment variables, one `export KEY="value"` per line.

use vstd::prelude::*;

use crate::lines::split_lines;
use crate::lines::trim;
use crate::text::chars_of;
use crate::text::concat2;
use crate::text::matches_at;
use crate::text::split_once;
use crate::text::string_of;
use crate::text::strip_prefix;
use crate::text::sub_chars;
use crate::textmap::TextMap;

verus! {

/// Environment variables, listed by name.
pub type EnvMap = TextMap<String>;

/// The variables and their values.
pub open spec fn env_of(vars: EnvMap) -> Map<Seq<char>, Seq<char>> {
    vars@.map_values(|value: String| value@)
}

/// Gives the variable `key` the value `value`.
pub fn set_env(vars: &mut EnvMap, key: &str, value: &str)
    ensures
        env_of(*final(vars)) == env_of(*old(vars)).insert(key@, value@),
{
    vars.insert(String::from_str(key), String::from_str(value));
    proof {
        assert(env_of(*vars) =~= env_of(*old(vars)).insert(key@, value@));
    }
}

/// Gives every variable of `more` its value there.
pub fn extend_env(vars: &mut EnvMap, more: &EnvMap)
    ensures
        env_of(*final(vars)) == env_of(*old(vars)).union_prefer_right(env_of(*more)),
{
    let entries = more.entries();
    let ghost start = env_of(*vars);
    let ghost all = entries@;
    let mut i: usize = 0;
    proof {
        assert(crate::textmap::map_of(all.take(0)).dom() =~= Set::empty());
        assert(env_of(*vars) =~= start.union_prefer_right(env_part(all.take(0))));
    }
    while i < entries.len()
        invariant
            i <= entries.len(),
            all == entries@,
            crate::textmap::is_sorted(all),
            more@ == crate::textmap::map_of(all),
            env_of(*vars) == start.union_prefer_right(env_part(all.take(i as int))),
        decreases entries.len() - i,
    {
        let ghost before = env_of(*vars);
        set_env(vars, entries[i].0.as_str(), entries[i].1.as_str());
        proof {
            lemma_env_part_grows(all, i as int);
            assert(env_of(*vars) =~= start.union_prefer_right(env_part(all.take(i + 1))));
        }
        i += 1;
    }
    proof {
        assert(all.take(all.len() as int) =~= all);
        assert(env_part(all) =~= env_of(*more));
    }
}

spec fn env_part(entries: Seq<(String, String)>) -> Map<Seq<char>, Seq<char>> {
    crate::textmap::map_of(entries).map_values(|value: String| value@)
}

proof fn lemma_env_part_grows(entries: Seq<(String, String)>, i: int)
    requires
        crate::textmap::is_sorted(entries),
        0 <= i < entries.len(),
    ensures
        env_part(entries.take(i + 1)) == env_part(entries.take(i)).insert(
            entries[i].0@,
            entries[i].1@,
        ),
{
    let part = entries.take(i);
    let more = entries.take(i + 1);
    assert(crate::textmap::is_sorted(part));
    assert(crate::textmap::is_sorted(more));
    assert forall|k: Seq<char>| #[trigger]
        crate::textmap::has_key(more, k) == (crate::textmap::has_key(part, k) || k
            == entries[i].0@) by {
        if crate::textmap::has_key(more, k) {
            let p = crate::textmap::key_position(more, k);
            assert(0 <= p < more.len() && more[p].0@ == k);
            if p < i {
                assert(part[p].0@ == k);
            }
        }
        if crate::textmap::has_key(part, k) {
            let p = crate::textmap::key_position(part, k);
            assert(0 <= p < part.len() && part[p].0@ == k);
            assert(more[p].0@ == k);
        }
        if k == entries[i].0@ {
            assert(more[i].0@ == k);
        }
    }
    let left = env_part(more);
    let right = env_part(part).insert(entries[i].0@, entries[i].1@);
    assert forall|k: Seq<char>| left.dom().contains(k) implies left[k] == right[k] by {
        let p = crate::textmap::key_position(more, k);
        assert(0 <= p < more.len() && more[p].0@ == k);
        crate::textmap::lemma_position(more, p);
        if p < i {
            crate::textmap::lemma_position(part, p);
            crate::textmap::lemma_text_lt_irreflexive(k);
            assert(crate::textmap::text_lt(entries[p].0@, entries[i].0@));
        }
    }
    assert(left =~= right);
}

// ---------------------------------------------------------------------------
// Names and values
// ---------------------------------------------------------------------------

/// Whether `c` may start the name of a variable.
pub open spec fn is_name_start(c: char) -> bool {
    c == '_' || 'A' <= c <= 'Z' || 'a' <= c <= 'z'
}

/// Whether `c` may stand in the name of a variable.
pub open spec fn is_name_char(c: char) -> bool {
    is_name_start(c) || '0' <= c <= '9'
}

/// Whether `key` is the name of a variable.
pub open spec fn is_env_key(key: Seq<char>) -> bool {
    key.len() > 0 && is_name_start(key[0]) && forall|i: int|
        0 <= i < key.len() ==> is_name_char(#[trigger] key[i])
}

/// Whether `key` is the name of a variable.
pub fn is_valid_env_key(key: &Vec<char>) -> (out: bool)
    ensures
        out == is_env_key(key@),
{
    if key.len() == 0 {
        return false;
    }
    let first = key[0];
    if !(first == '_' || (first >= 'A' && first <= 'Z') || (first >= 'a' && first <= 'z')) {
        return false;
    }
    let mut i: usize = 0;
    while i < key.len()
        invariant
            i <= key.len(),
            forall|j: int| 0 <= j < i ==> is_name_char(#[trigger] key@[j]),
        decreases key.len() - i,
    {
        let c = key[i];
        if !(c == '_' || (c >= 'A' && c <= 'Z') || (c >= 'a' && c <= 'z') || (c >= '0' && c
            <= '9')) {
            proof {
                assert(!is_name_char(key@[i as int]));
            }
            return false;
        }
        i += 1;
    }
    true
}

/// Whether `c` needs a backslash between double quotes.
pub open spec fn needs_escape(c: char) -> bool {
    c == '\\' || c == '"' || c == '$' || c == '`'
}

/// `value` with a backslash before each character that needs one.
pub open spec fn escaped(value: Seq<char>) -> Seq<char>
    decreases value.len(),
{
    if value.len() == 0 {
        seq![]
    } else if needs_escape(value.last()) {
        escaped(value.drop_last()).push('\\').push(value.last())
    } else {
        escaped(value.drop_last()).push(value.last())
    }
}

/// `value` between double quotes.
pub open spec fn quoted(value: Seq<char>) -> Seq<char> {
    (seq!['"'] + escaped(value)).push('"')
}

/// `value` between double quotes.
pub fn quote_double(value: &str) -> (out: String)
    ensures
        out@ == quoted(value@),
{
    let chars = chars_of(value);
    let mut out = String::new();
    out.push('"');
    let mut i: usize = 0;
    proof {
        assert(out@ =~= seq!['"'] + escaped(chars@.take(0)));
    }
    while i < chars.len()
        invariant
            i <= chars.len(),
            out@ == seq!['"'] + escaped(chars@.take(i as int)),
        decreases chars.len() - i,
    {
        let c = chars[i];
        proof {
            assert(chars@.take(i + 1).drop_last() =~= chars@.take(i as int));
            assert(chars@.take(i + 1).last() == c);
        }
        let ghost before = out@;
        if c == '\\' || c == '"' || c == '$' || c == '`' {
            out.push('\\');
        }
        out.push(c);
        proof {
            assert(out@ =~= seq!['"'] + escaped(chars@.take(i + 1)));
        }
        i += 1;
    }
    proof {
        assert(chars@.take(chars@.len() as int) =~= chars@);
    }
    out.push('"');
    out
}

/// `value` with each backslash left out that stands before a character, and the
/// character behind it taken as it is.
pub open spec fn unescaped(value: Seq<char>) -> Seq<char>
    decreases value.len(),
{
    if value.len() == 0 {
        seq![]
    } else if value[0] == '\\' {
        if value.len() == 1 {
            seq![]
        } else {
            seq![value[1]] + unescaped(value.skip(2))
        }
    } else {
        seq![value[0]] + unescaped(value.skip(1))
    }
}

/// `value` without its escapes.
pub fn unescape_double(value: &Vec<char>) -> (out: Vec<char>)
    ensures
        out@ == unescaped(value@),
{
    let mut out: Vec<char> = Vec::new();
    let mut i: usize = 0;
    proof {
        assert(value@.skip(0) =~= value@);
        assert(out@ + unescaped(value@) =~= unescaped(value@));
    }
    while i < value.len()
        invariant
            i <= value.len(),
            out@ + unescaped(value@.skip(i as int)) == unescaped(value@),
        decreases value.len() - i,
    {
        let ghost rest = value@.skip(i as int);
        let ghost before = out@;
        proof {
            assert(rest[0] == value@[i as int]);
            assert(rest.skip(1) =~= value@.skip(i + 1));
        }
        if value[i] == '\\' {
            if i + 1 < value.len() {
                out.push(value[i + 1]);
                proof {
                    assert(rest[1] == value@[i + 1]);
                    assert(rest.skip(2) =~= value@.skip(i + 2));
                    assert(out@ + unescaped(rest.skip(2)) =~= before + (seq![rest[1]] + unescaped(
                        rest.skip(2),
                    )));
                }
                i += 2;
            } else {
                proof {
                    assert(out@ + unescaped(value@.skip(i + 1)) =~= before + unescaped(rest));
                }
                i += 1;
            }
        } else {
            out.push(value[i]);
            proof {
                assert(out@ + unescaped(rest.skip(1)) =~= before + (seq![rest[0]] + unescaped(
                    rest.skip(1),
                )));
            }
            i += 1;
        }
    }
    proof {
        assert(out@ + unescaped(value@.skip(i as int)) =~= out@);
    }
    out
}

/// How a single quote is written between single quotes.
pub open spec fn single_escape() -> Seq<char> {
    seq!['\'', '\\', '\'', '\'']
}

/// `value` with each `'\''`, from the left, replaced by a single quote.
pub open spec fn single_unescaped(value: Seq<char>) -> Seq<char>
    decreases value.len(),
{
    if value.len() == 0 {
        seq![]
    } else if crate::text::has_prefix(value, single_escape()) {
        seq!['\''] + single_unescaped(value.skip(4))
    } else {
        seq![value[0]] + single_unescaped(value.skip(1))
    }
}

fn unescape_single(value: &Vec<char>) -> (out: Vec<char>)
    ensures
        out@ == single_unescaped(value@),
{
    let mut pattern: Vec<char> = Vec::new();
    pattern.push('\'');
    pattern.push('\\');
    pattern.push('\'');
    pattern.push('\'');
    let mut out: Vec<char> = Vec::new();
    let mut i: usize = 0;
    proof {
        assert(pattern@ =~= single_escape());
        assert(value@.skip(0) =~= value@);
        assert(out@ + single_unescaped(value@) =~= single_unescaped(value@));
    }
    while i < value.len()
        invariant
            i <= value.len(),
            pattern@ == single_escape(),
            out@ + single_unescaped(value@.skip(i as int)) == single_unescaped(value@),
        decreases value.len() - i,
    {
        let ghost rest = value@.skip(i as int);
        let ghost before = out@;
        proof {
            assert(rest[0] == value@[i as int]);
            assert(rest.skip(1) =~= value@.skip(i + 1));
            if i + 4 <= value@.len() {
                assert(rest.take(4) =~= value@.subrange(i as int, i + 4));
            }
        }
        if matches_at(value, &pattern, i) {
            out.push('\'');
            proof {
                assert(rest.skip(4) =~= value@.skip(i + 4));
                assert(out@ + single_unescaped(rest.skip(4)) =~= before + (seq!['\'']
                    + single_unescaped(rest.skip(4))));
            }
            i += 4;
        } else {
            out.push(value[i]);
            proof {
                assert(out@ + single_unescaped(rest.skip(1)) =~= before + (seq![rest[0]]
                    + single_unescaped(rest.skip(1))));
            }
            i += 1;
        }
    }
    proof {
        assert(out@ + single_unescaped(value@.skip(i as int)) =~= out@);
    }
    out
}

/// Whether `value` stands between two `mark`s.
pub open spec fn is_enclosed(value: Seq<char>, mark: char) -> bool {
    value.len() >= 2 && value[0] == mark && value.last() == mark
}

/// `value` without its first and its last character.
pub open spec fn inner(value: Seq<char>) -> Seq<char> {
    value.subrange(1, value.len() - 1)
}

/// The value that is written as `value`.
pub open spec fn value_of(value: Seq<char>) -> Seq<char> {
    if is_enclosed(value, '"') {
        unescaped(inner(value))
    } else if is_enclosed(value, '\'') {
        single_unescaped(inner(value))
    } else {
        value
    }
}

/// The value that is written as `value`.
pub fn parse_value(value: &Vec<char>) -> (out: Vec<char>)
    ensures
        out@ == value_of(value@),
{
    if value.len() >= 2 && value[0] == '"' && value[value.len() - 1] == '"' {
        return unescape_double(&sub_chars(value, 1, value.len() - 1));
    }
    if value.len() >= 2 && value[0] == '\'' && value[value.len() - 1] == '\'' {
        return unescape_single(&sub_chars(value, 1, value.len() - 1));
    }
    let out = sub_chars(value, 0, value.len());
    proof {
        assert(out@ =~= value@);
    }
    out
}

// ---------------------------------------------------------------------------
// Reading
// ---------------------------------------------------------------------------

/// The assignment on a line that is neither blank nor a comment, without the
/// word `export`.
pub open spec fn assignment(line: Seq<char>) -> Seq<char> {
    match crate::text::stripped_prefix(line, "export "@) {
        Some(rest) => rest,
        None => line,
    }
}

/// The variable and the value that a line sets, if it sets one.
pub open spec fn entry_of(raw: Seq<char>) -> Option<(Seq<char>, Seq<char>)> {
    let line = crate::lines::trimmed(raw);
    if line.len() == 0 || line[0] == '#' {
        None
    } else {
        match crate::text::split_at_first(assignment(line), '=') {
            None => None,
            Some((key, value)) => if is_env_key(crate::lines::trimmed(key)) {
                Some((crate::lines::trimmed(key), value_of(crate::lines::trimmed(value))))
            } else {
                None
            },
        }
    }
}

/// The variables that `lines` set; a later line wins over an earlier one.
pub open spec fn env_of_lines(lines: Seq<Seq<char>>) -> Map<Seq<char>, Seq<char>>
    decreases lines.len(),
{
    if lines.len() == 0 {
        Map::empty()
    } else {
        match entry_of(lines.last()) {
            Some((key, value)) => env_of_lines(lines.drop_last()).insert(key, value),
            None => env_of_lines(lines.drop_last()),
        }
    }
}

fn parse_entry(raw: &Vec<char>) -> (out: Option<(Vec<char>, Vec<char>)>)
    ensures
        crate::text::opt_char_pair(out) == entry_of(raw@),
{
    let line = trim(raw);
    if line.len() == 0 || line[0] == '#' {
        return None;
    }
    let body = match strip_prefix(&line, "export ") {
        Some(rest) => rest,
        None => line,
    };
    match split_once(&body, '=') {
        None => None,
        Some(pair) => {
            let key = trim(&pair.0);
            if is_valid_env_key(&key) {
                Some((key, parse_value(&trim(&pair.1))))
            } else {
                None
            }
        },
    }
}

/// The variables that a file with this content sets.
pub fn read_env_file(content: &str) -> (out: EnvMap)
    ensures
        env_of(out) == env_of_lines(crate::lines::lines_of(content@)),
{
    let lines = split_lines(&chars_of(content));
    let ghost all = crate::lines::lines_of(content@);
    let mut vars: EnvMap = TextMap::new();
    let mut i: usize = 0;
    proof {
        assert(all.take(0) =~= seq![]);
        assert(env_of(vars) =~= Map::empty());
    }
    while i < lines.len()
        invariant
            i <= lines.len(),
            all == crate::lines::rows(lines@),
            env_of(vars) == env_of_lines(all.take(i as int)),
        decreases lines.len() - i,
    {
        proof {
            assert(all.take(i + 1).drop_last() =~= all.take(i as int));
            assert(all.take(i + 1).last() == lines@[i as int]@);
        }
        if let Some(pair) = parse_entry(&lines[i]) {
            set_env(&mut vars, string_of(&pair.0).as_str(), string_of(&pair.1).as_str());
        }
        i += 1;
    }
    proof {
        assert(all.take(lines@.len() as int) =~= all);
    }
    vars
}

// ---------------------------------------------------------------------------
// Writing
// ---------------------------------------------------------------------------

/// The line that sets the variable of an assignment `KEY=value`, or why there is none.
pub open spec fn export_line(entry: Seq<char>) -> Result<Seq<char>, Seq<char>> {
    match crate::text::split_at_first(entry, '=') {
        None => Err("--env requires KEY=value, got "@ + entry),
        Some((key, value)) => if is_env_key(key) {
            Ok("export "@ + key + "="@ + quoted(value))
        } else {
            Err("invalid environment variable name: "@ + key)
        },
    }
}

/// The file that holds `entries`, or why there is none.
pub open spec fn env_file(entries: Seq<Seq<char>>) -> Result<Seq<char>, Seq<char>>
    decreases entries.len(),
{
    if entries.len() == 0 {
        Ok(seq![])
    } else {
        match env_file(entries.drop_last()) {
            Err(message) => Err(message),
            Ok(head) => match export_line(entries.last()) {
                Err(message) => Err(message),
                Ok(line) => Ok(head + line.push('\n')),
            },
        }
    }
}

/// The text held by a result, whichever it is.
pub open spec fn result_text(out: Result<String, String>) -> Result<Seq<char>, Seq<char>> {
    match out {
        Ok(text) => Ok(text@),
        Err(message) => Err(message@),
    }
}

fn render_export(entry: &str) -> (out: Result<String, String>)
    ensures
        result_text(out) == export_line(entry@),
{
    match split_once(&chars_of(entry), '=') {
        None => Err(concat2("--env requires KEY=value, got ", entry)),
        Some(pair) => {
            let key = string_of(&pair.0);
            if is_valid_env_key(&pair.0) {
                let value = string_of(&pair.1);
                let quote = quote_double(value.as_str());
                Ok(crate::text::concat4("export ", key.as_str(), "=", quote.as_str()))
            } else {
                Err(concat2("invalid environment variable name: ", key.as_str()))
            }
        },
    }
}

proof fn lemma_env_file_fails_early(entries: Seq<Seq<char>>, k: int)
    requires
        0 <= k <= entries.len(),
        env_file(entries.take(k)) is Err,
    ensures
        env_file(entries) == env_file(entries.take(k)),
    decreases entries.len(),
{
    if k < entries.len() {
        assert(entries.drop_last().take(k) =~= entries.take(k));
        lemma_env_file_fails_early(entries.drop_last(), k);
    } else {
        assert(entries.take(k) =~= entries);
    }
}

/// The content of a file that sets `envs`, each of the form `KEY=value`.
pub fn write_env_file(envs: &Vec<String>) -> (out: Result<String, String>)
    ensures
        result_text(out) == env_file(crate::text::texts(envs@)),
{
    let ghost all = crate::text::texts(envs@);
    let mut content = String::new();
    let mut i: usize = 0;
    proof {
        assert(all.take(0) =~= seq![]);
    }
    while i < envs.len()
        invariant
            i <= envs.len(),
            all == crate::text::texts(envs@),
            env_file(all.take(i as int)) == Ok::<Seq<char>, Seq<char>>(content@),
        decreases envs.len() - i,
    {
        proof {
            assert(all.take(i + 1).drop_last() =~= all.take(i as int));
            assert(all.take(i + 1).last() == envs@[i as int]@);
        }
        match render_export(envs[i].as_str()) {
            Err(message) => {
                proof {
                    lemma_env_file_fails_early(all, i + 1);
                }
                return Err(message);
            },
            Ok(line) => {
                let ghost before = content@;
                content.append(line.as_str());
                content.push('\n');
                proof {
                    assert(content@ =~= before + line@.push('\n'));
                }
            },
        }
        i += 1;
    }
    proof {
        assert(all.take(envs@.len() as int) =~= all);
    }
    Ok(content)
}

// ---------------------------------------------------------------------------
// Laws
// ---------------------------------------------------------------------------

proof fn lemma_unescaped_append(head: Seq<char>, tail: Seq<char>)
    ensures
        unescaped(escaped(head) + tail) == head + unescaped(tail),
    decreases head.len(),
{
    if head.len() == 0 {
        assert(escaped(head) + tail =~= tail);
        assert(head + unescaped(tail) =~= unescaped(tail));
    } else {
        let c = head.last();
        let rest = head.drop_last();
        if needs_escape(c) {
            let more = seq!['\\', c] + tail;
            assert(escaped(head) + tail =~= escaped(rest) + more);
            lemma_unescaped_append(rest, more);
            assert(more.skip(2) =~= tail);
            assert(unescaped(more) =~= seq![c] + unescaped(tail));
        } else {
            let more = seq![c] + tail;
            assert(escaped(head) + tail =~= escaped(rest) + more);
            lemma_unescaped_append(rest, more);
            assert(more.skip(1) =~= tail);
            assert(unescaped(more) =~= seq![c] + unescaped(tail));
        }
        assert(rest + (seq![c] + unescaped(tail)) =~= head + unescaped(tail));
    }
}

/// Every value can be read back from between double quotes.
pub proof fn quoting_round_trips(value: Seq<char>)
    ensures
        value_of(quoted(value)) == value,
{
    let q = quoted(value);
    assert(inner(q) =~= escaped(value) + seq![]);
    lemma_unescaped_append(value, seq![]);
    assert(value + unescaped(seq![]) =~= value);
}

/// Whether an assignment can be written to one line and read back.
pub open spec fn is_writable(entry: Seq<char>) -> bool {
    match crate::text::split_at_first(entry, '=') {
        Some((key, value)) => is_env_key(key) && !value.contains('\n'),
        None => false,
    }
}

/// The variables that assignments set; a later one wins over an earlier one.
pub open spec fn env_of_entries(entries: Seq<Seq<char>>) -> Map<Seq<char>, Seq<char>>
    decreases entries.len(),
{
    if entries.len() == 0 {
        Map::empty()
    } else {
        match crate::text::split_at_first(entries.last(), '=') {
            Some((key, value)) => env_of_entries(entries.drop_last()).insert(key, value),
            None => env_of_entries(entries.drop_last()),
        }
    }
}

proof fn lemma_escaped_has_no_newline(value: Seq<char>)
    requires
        !value.contains('\n'),
    ensures
        !escaped(value).contains('\n'),
    decreases value.len(),
{
    if value.len() > 0 {
        let rest = value.drop_last();
        assert(!rest.contains('\n')) by {
            if rest.contains('\n') {
                let i = choose|i: int| 0 <= i < rest.len() && rest[i] == '\n';
                assert(value[i] == '\n');
            }
        }
        lemma_escaped_has_no_newline(rest);
        assert(value[value.len() - 1] != '\n');
        let e = escaped(value);
        assert forall|i: int| 0 <= i < e.len() implies e[i] != '\n' by {
            if i < escaped(rest).len() {
                assert(e[i] == escaped(rest)[i]);
            }
        }
    }
}

proof fn lemma_export_line_reads_back(key: Seq<char>, value: Seq<char>)
    requires
        is_env_key(key),
        !value.contains('\n'),
    ensures
        ({
            let line = "export "@ + key + "="@ + quoted(value);
            &&& entry_of(line) == Some((key, value))
            &&& !line.contains('\n')
            &&& line.last() == '"'
            &&& line.len() > 0
        }),
{
    reveal_strlit("export ");
    reveal_strlit("=");
    let line = "export "@ + key + "="@ + quoted(value);
    let body = key + seq!['='] + quoted(value);
    assert(line =~= "export "@ + body);
    lemma_escaped_has_no_newline(value);
    assert forall|i: int| 0 <= i < line.len() implies line[i] != '\n' by {
        if i >= 7 && i < 7 + key.len() {
            assert(line[i] == key[i - 7]);
            assert(is_name_char(key[i - 7]));
        } else if i > 8 + key.len() && i < line.len() - 1 {
            assert(line[i] == escaped(value)[i - 9 - key.len()]);
            assert(escaped(value).contains(escaped(value)[i - 9 - key.len()]));
        }
    }
    assert(line[0] == 'e');
    assert(line.last() == '"');
    crate::lines::lemma_trimmed_fixed(line);
    assert(line.take(7) =~= "export "@);
    assert(line.skip(7) =~= body);
    assert(assignment(line) == body);
    assert forall|j: int| 0 <= j < key.len() implies body[j] != '=' by {
        assert(is_name_char(key[j]));
    }
    crate::text::lemma_find_char_is(body, '=', key.len() as int);
    assert(body.take(key.len() as int) =~= key);
    assert(body.skip(key.len() as int + 1) =~= quoted(value));
    assert(is_name_char(key[key.len() - 1]));
    crate::lines::lemma_trimmed_fixed(key);
    assert(quoted(value)[0] == '"');
    assert(quoted(value).last() == '"');
    crate::lines::lemma_trimmed_fixed(quoted(value));
    quoting_round_trips(value);
}

/// Whatever variables are written to a file are read back from it, as long as
/// no value holds a line feed.
pub proof fn env_files_round_trip(entries: Seq<Seq<char>>)
    requires
        forall|i: int| 0 <= i < entries.len() ==> is_writable(#[trigger] entries[i]),
    ensures
        env_file(entries) is Ok,
        env_of_lines(crate::lines::lines_of(env_file(entries)->Ok_0)) == env_of_entries(entries),
        env_file(entries)->Ok_0.len() == 0 || env_file(entries)->Ok_0.last() == '\n',
    decreases entries.len(),
{
    if entries.len() == 0 {
        assert(crate::lines::lines_of(seq![]) =~= seq![]);
    } else {
        let rest = entries.drop_last();
        assert forall|i: int| 0 <= i < rest.len() implies is_writable(#[trigger] rest[i]) by {
            assert(rest[i] == entries[i]);
        }
        env_files_round_trip(rest);
        assert(is_writable(entries[entries.len() - 1]));
        let (key, value) = crate::text::split_at_first(entries.last(), '=')->0;
        let line = "export "@ + key + "="@ + quoted(value);
        lemma_export_line_reads_back(key, value);
        let head = env_file(rest)->Ok_0;
        crate::lines::lemma_lines_of_added_line(head, line);
        let before = crate::lines::lines_of(head);
        assert(before.push(line).drop_last() =~= before);
        assert(before.push(line).last() == line);
    }
}

/// The variables of two files, one behind the other, are those of both, and where both set
/// one the second decides.
pub proof fn later_lines_decide(a: Seq<Seq<char>>, b: Seq<Seq<char>>)
    ensures
        env_of_lines(a + b) == env_of_lines(a).union_prefer_right(env_of_lines(b)),
    decreases b.len(),
{
    if b.len() == 0 {
        assert(a + b =~= a);
        assert(env_of_lines(a).union_prefer_right(env_of_lines(b)) =~= env_of_lines(a));
    } else {
        later_lines_decide(a, b.drop_last());
        assert((a + b).drop_last() =~= a + b.drop_last());
        assert((a + b).last() == b.last());
        assert(env_of_lines(a + b) =~= env_of_lines(a).union_prefer_right(env_of_lines(b)));
    }
}

/// A line sets the variable that it names, if it is no comment and the name is one of a
/// variable, with or without `export`; it sets no other.
pub proof fn lines_set_one_variable(line: Seq<char>, key: Seq<char>)
    ensures
        ({
            let text = crate::lines::trimmed(line);
            let vars = env_of_lines(seq![line]);
            &&& text.len() == 0 || text[0] == '#' ==> vars.dom().len() == 0 && !vars.dom().contains(
                key,
            )
            &&& vars.dom().contains(key) ==> is_env_key(key) && entry_of(line) == Some(
                (key, vars[key]),
            )
        }),
{
    assert(seq![line].drop_last() =~= seq![]);
    assert(seq![line].last() == line);
    assert(env_of_lines(seq![]) =~= Map::empty());
}

/// A file of variables is refused for the first entry without a value or with a bad name,
/// and else has a line for each.
pub proof fn entries_are_written_one_by_one(entries: Seq<Seq<char>>, entry: Seq<char>)
    ensures
        env_file(entries.push(entry)) == (match env_file(entries) {
            Err(message) => Err::<Seq<char>, Seq<char>>(message),
            Ok(head) => match export_line(entry) {
                Err(message) => Err(message),
                Ok(line) => Ok(head + line + seq!['\n']),
            },
        }),
        export_line(entry) is Ok <==> {
            let parts = crate::text::split_at_first(entry, '=');
            parts matches Some((name, _)) && is_env_key(name)
        },
{
    assert(entries.push(entry).drop_last() =~= entries);
    match (env_file(entries), export_line(entry)) {
        (Ok(head), Ok(line)) => {
            assert(head + line.push('\n') =~= head + line + seq!['\n']);
        },
        _ => {},
    }
}

/// The name of a variable is letters, digits and lines, and does not begin with a
/// digit.
pub proof fn variable_names_hold_plain_characters(key: Seq<char>)
    ensures
        is_env_key(key) <==> {
            &&& key.len() > 0
            &&& !('0' <= key[0] <= '9')
            &&& forall|i: int|
                0 <= i < key.len() ==> #[trigger] key[i] == '_' || ('A' <= key[i] <= 'Z') || ('a'
                    <= key[i] <= 'z') || ('0' <= key[i] <= '9')
        },
{
    if is_env_key(key) {
        assert forall|i: int| 0 <= i < key.len() implies #[trigger] key[i] == '_' || ('A' <= key[i]
            <= 'Z') || ('a' <= key[i] <= 'z') || ('0' <= key[i] <= '9') by {
            assert(is_name_char(key[i]));
        }
    }
}

} // verus!
