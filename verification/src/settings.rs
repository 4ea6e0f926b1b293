//! Configuration values, and the `toml` crate as their reader and writer.

use toml::Value;
use vstd::prelude::*;

use crate::text::copy_of;
use crate::text::same;

verus! {

/// A value of the `toml` crate.
#[verifier::external_type_specification]
#[verifier::external_body]
pub struct ExTomlValue(toml::Value);

/// A configuration value. Fractions and times are carried along as text and never
/// looked into.
pub enum Toml {
    Text(String),
    Bool(bool),
    Integer(i64),
    Fraction(String),
    Moment(String),
    Array(Vec<Toml>),
    /// The members in the order in which they are listed.
    Table(Vec<(String, Toml)>),
}

/// A configuration value over mathematical sequences.
pub enum TomlModel {
    Text(Seq<char>),
    Bool(bool),
    Integer(i64),
    Fraction(Seq<char>),
    Moment(Seq<char>),
    Array(Seq<TomlModel>),
    Table(Seq<(Seq<char>, TomlModel)>),
}

impl Toml {
    pub open spec fn model(self) -> TomlModel
        decreases self,
    {
        match self {
            Toml::Text(t) => TomlModel::Text(t@),
            Toml::Bool(b) => TomlModel::Bool(b),
            Toml::Integer(n) => TomlModel::Integer(n),
            Toml::Fraction(t) => TomlModel::Fraction(t@),
            Toml::Moment(t) => TomlModel::Moment(t@),
            Toml::Array(items) => TomlModel::Array(
                Seq::new(
                    items@.len(),
                    |i: int|
                        if 0 <= i < items@.len() {
                            items@[i].model()
                        } else {
                            TomlModel::Bool(false)
                        },
                ),
            ),
            Toml::Table(members) => TomlModel::Table(
                Seq::new(
                    members@.len(),
                    |i: int|
                        if 0 <= i < members@.len() {
                            (members@[i].0@, members@[i].1.model())
                        } else {
                            (seq![], TomlModel::Bool(false))
                        },
                ),
            ),
        }
    }
}

impl View for Toml {
    type V = TomlModel;

    open spec fn view(&self) -> TomlModel {
        self.model()
    }
}

/// The value that a value of the `toml` crate stands for: its variant with what the
/// variant holds, a fraction or a time with its text, and the members of a table in
/// the order of the map that holds them.
pub uninterp spec fn toml_model(value: toml::Value) -> TomlModel;

/// The value of the `toml` crate that holds `model`, if the texts of its fractions
/// and times can be read.
pub uninterp spec fn toml_value(model: TomlModel) -> Option<toml::Value>;

/// The value that `toml::from_str` reads from a text, or why it reads none.
pub uninterp spec fn toml_parsed(text: Seq<char>) -> Result<TomlModel, Seq<char>>;

/// The text of a value on one line, if it can be written.
pub uninterp spec fn toml_inline(value: toml::Value) -> Option<Seq<char>>;

/// The text of a whole file with a value, or why it cannot be written as one.
pub uninterp spec fn toml_pretty(value: toml::Value) -> Result<Seq<char>, Seq<char>>;

/// Whether a value of the `toml` crate is one that a text holds.
pub open spec fn is_read(value: toml::Value) -> bool {
    exists|text: Seq<char>| #[trigger]
        toml_parsed(text) == Ok::<TomlModel, Seq<char>>(toml_model(value))
}

/// Whether a value of the `toml` crate is one that was built here.
pub open spec fn is_built(value: toml::Value) -> bool {
    exists|model: TomlModel| #[trigger] toml_value(model) == Some(value)
}

/// `toml::from_str::<toml::Value>`: whether it succeeds, and what it then yields or
/// the text of its error, is given by `toml_parsed`.
#[verifier::external_body]
fn read_value(text: &str) -> (out: Result<toml::Value, String>)
    ensures
        match out {
            Ok(value) => toml_parsed(text@) == Ok::<TomlModel, Seq<char>>(toml_model(value)),
            Err(reason) => toml_parsed(text@) == Err::<TomlModel, Seq<char>>(reason@),
        },
{
    toml::from_str(text).map_err(|error: toml::de::Error| error.to_string())
}

/// Takes a `toml::Value` apart, variant by variant, with the text of each fraction and
/// each time. The times in it were read from text: `toml::value::Datetime::to_string`
/// can overflow on an offset that no text has.
#[verifier::external_body]
fn from_value(value: toml::Value) -> (out: Toml)
    requires
        is_read(value),
    ensures
        out@ == toml_model(value),
{
    match value {
        Value::String(t) => Toml::Text(t),
        Value::Boolean(b) => Toml::Bool(b),
        Value::Integer(n) => Toml::Integer(n),
        Value::Array(items) => Toml::Array(items.into_iter().map(from_value).collect()),
        Value::Table(members) => Toml::Table(
            members.into_iter().map(|(key, member)| (key, from_value(member))).collect(),
        ),
        Value::Datetime(time) => Toml::Moment(time.to_string()),
        fraction => Toml::Fraction(fraction.to_string()),
    }
}

/// Builds a `toml::Value`, variant by variant; a fraction and a time are read from their
/// texts with `str::parse`. There is none where one of these cannot be read.
#[verifier::external_body]
fn to_value(value: &Toml) -> (out: Option<toml::Value>)
    ensures
        out == toml_value(value@),
{
    Some(match value {
        Toml::Text(t) => Value::String(t.clone()),
        Toml::Bool(b) => Value::Boolean(*b),
        Toml::Integer(n) => Value::Integer(*n),
        Toml::Fraction(t) => Value::Float(t.parse().ok()?),
        Toml::Moment(t) => Value::Datetime(t.parse().ok()?),
        Toml::Array(items) => Value::Array(items.iter().map(to_value).collect::<Option<_>>()?),
        Toml::Table(members) => Value::Table(members.iter().map(
            |member| Some((member.0.clone(), to_value(&member.1)?)),
        ).collect::<Option<_>>()?),
    })
}

/// `serde::Serialize::serialize` of a `toml::Value` with `toml::ser::ValueSerializer`,
/// from which `toml::Value::to_string` takes its text: the text of a value on one
/// line, if the serializer succeeds. The times in the value were read from text:
/// `toml::value::Datetime::to_string` can overflow on an offset that no text has.
#[verifier::external_body]
fn inline_text(value: &toml::Value) -> (out: Option<String>)
    requires
        is_built(*value),
    ensures
        crate::text::opt_text(out) == toml_inline(*value),
{
    let mut text = String::new();
    serde::Serialize::serialize(value, toml::ser::ValueSerializer::new(&mut text)).ok()?;
    Some(text)
}

/// `toml::to_string_pretty`: the text of a whole file, or the text of its error. The
/// times in the value were read from text, as for `inline_text`.
#[verifier::external_body]
fn pretty_text(value: &toml::Value) -> (out: Result<String, String>)
    requires
        is_built(*value),
    ensures
        crate::envfile::result_text(out) == toml_pretty(*value),
{
    toml::to_string_pretty(value).map_err(|error: toml::ser::Error| error.to_string())
}

/// The outcome of reading configuration text, over mathematical values.
pub open spec fn read_model(out: Result<Toml, String>) -> Result<TomlModel, Seq<char>> {
    match out {
        Ok(value) => Ok(value@),
        Err(reason) => Err(reason@),
    }
}

/// Reads configuration text, or says why it cannot be read.
pub fn parse_toml(text: &str) -> (out: Result<Toml, String>)
    ensures
        read_model(out) == toml_parsed(text@),
{
    match read_value(text) {
        Ok(value) => Ok(from_value(value)),
        Err(reason) => Err(reason),
    }
}

/// The text of a value on one line, if it can be written.
pub open spec fn inline_form(model: TomlModel) -> Option<Seq<char>> {
    match toml_value(model) {
        Some(value) => toml_inline(value),
        None => None,
    }
}

/// The text of a whole file with a value, or why it cannot be written.
pub open spec fn file_form(model: TomlModel) -> Result<Seq<char>, Seq<char>> {
    match toml_value(model) {
        Some(value) => toml_pretty(value),
        None => Err("unreadable fraction or time"@),
    }
}

/// Writes a value on one line, if it can be written.
pub fn render_inline(value: &Toml) -> (out: Option<String>)
    ensures
        crate::text::opt_text(out) == inline_form(value@),
{
    match to_value(value) {
        Some(built) => inline_text(&built),
        None => None,
    }
}

/// Writes a whole file, or says why it cannot be written.
pub fn render_pretty(value: &Toml) -> (out: Result<String, String>)
    ensures
        crate::envfile::result_text(out) == file_form(value@),
{
    match to_value(value) {
        Some(built) => pretty_text(&built),
        None => Err(copy_of("unreadable fraction or time")),
    }
}

// ---------------------------------------------------------------------------
// Members
// ---------------------------------------------------------------------------

/// The first member named `key`.
pub open spec fn lookup(members: Seq<(Seq<char>, TomlModel)>, key: Seq<char>) -> Option<TomlModel>
    decreases members.len(),
{
    if members.len() == 0 {
        None
    } else if members[0].0 == key {
        Some(members[0].1)
    } else {
        lookup(members.skip(1), key)
    }
}

impl TomlModel {
    /// The member named `key`, of a table that has one.
    pub open spec fn member(self, key: Seq<char>) -> Option<TomlModel> {
        match self {
            TomlModel::Table(members) => lookup(members, key),
            _ => None,
        }
    }

    /// The text, of a text.
    pub open spec fn as_text(self) -> Option<Seq<char>> {
        match self {
            TomlModel::Text(text) => Some(text),
            _ => None,
        }
    }

    /// The text of the member named `key`.
    pub open spec fn member_text(self, key: Seq<char>) -> Option<Seq<char>> {
        match self.member(key) {
            Some(member) => member.as_text(),
            None => None,
        }
    }
}

/// The model held by an optional reference.
pub open spec fn opt_ref_model(toml: Option<&Toml>) -> Option<TomlModel> {
    match toml {
        Some(value) => Some(value@),
        None => None,
    }
}

impl Toml {
    /// The member named `key`, of a table that has one.
    pub fn get(&self, key: &str) -> (out: Option<&Toml>)
        ensures
            opt_ref_model(out) == self@.member(key@),
    {
        match self {
            Toml::Table(members) => {
                let ghost all = self@->Table_0;
                let mut i: usize = 0;
                proof {
                    assert(all.skip(0) =~= all);
                }
                while i < members.len()
                    invariant
                        i <= members.len(),
                        all == self@->Table_0,
                        self == Toml::Table(*members),
                        all.len() == members@.len(),
                        lookup(all, key@) == lookup(all.skip(i as int), key@),
                    decreases members.len() - i,
                {
                    proof {
                        assert(all.skip(i as int)[0] == all[i as int]);
                        assert(all[i as int] == (members@[i as int].0@, members@[i as int].1@));
                        assert(all.skip(i as int).skip(1) =~= all.skip(i + 1));
                    }
                    if same(members[i].0.as_str(), key) {
                        return Some(&members[i].1);
                    }
                    i += 1;
                }
                None
            },
            _ => None,
        }
    }

    /// The text, of a text.
    pub fn as_text(&self) -> (out: Option<&String>)
        ensures
            match out {
                Some(text) => self@.as_text() == Some(text@),
                None => self@.as_text() is None,
            },
    {
        match self {
            Toml::Text(text) => Some(text),
            _ => None,
        }
    }

    /// A copy of the text of the member named `key`.
    pub fn get_text(&self, key: &str) -> (out: Option<String>)
        ensures
            crate::text::opt_text(out) == self@.member_text(key@),
    {
        match self.get(key) {
            Some(member) => match member.as_text() {
                Some(text) => Some(text.clone()),
                None => None,
            },
            None => None,
        }
    }

    /// A copy of the value.
    pub fn copy(&self) -> (out: Toml)
        ensures
            out@ == self@,
        decreases self,
    {
        match self {
            Toml::Bool(b) => Toml::Bool(*b),
            Toml::Integer(n) => Toml::Integer(*n),
            Toml::Fraction(t) => Toml::Fraction(t.clone()),
            Toml::Moment(t) => Toml::Moment(t.clone()),
            Toml::Text(t) => Toml::Text(t.clone()),
            Toml::Array(items) => {
                let ghost all = self@->Array_0;
                let mut out: Vec<Toml> = Vec::new();
                let mut i: usize = 0;
                while i < items.len()
                    invariant
                        i <= items.len(),
                        self == Toml::Array(*items),
                        all == self@->Array_0,
                        all.len() == items@.len(),
                        out@.len() == i,
                        forall|j: int| 0 <= j < i ==> (#[trigger] out@[j])@ == all[j],
                    decreases items.len() - i,
                {
                    let item = items[i].copy();
                    out.push(item);
                    i += 1;
                }
                let result = Toml::Array(out);
                proof {
                    assert(result@->Array_0 =~= all);
                }
                result
            },
            Toml::Table(members) => {
                let ghost all = self@->Table_0;
                let mut out: Vec<(String, Toml)> = Vec::new();
                let mut i: usize = 0;
                while i < members.len()
                    invariant
                        i <= members.len(),
                        self == Toml::Table(*members),
                        all == self@->Table_0,
                        all.len() == members@.len(),
                        out@.len() == i,
                        forall|j: int|
                            0 <= j < i ==> ((#[trigger] out@[j]).0@, out@[j].1@) == all[j],
                    decreases members.len() - i,
                {
                    let member = members[i].1.copy();
                    out.push((members[i].0.clone(), member));
                    i += 1;
                }
                let result = Toml::Table(out);
                proof {
                    assert(result@->Table_0 =~= all);
                }
                result
            },
        }
    }
}

// ---------------------------------------------------------------------------
// Changing members
// ---------------------------------------------------------------------------

/// `members` with `key` bound to `value`: in the place of its first member of
/// that name, or else behind all members.
pub open spec fn put(
    members: Seq<(Seq<char>, TomlModel)>,
    key: Seq<char>,
    value: TomlModel,
) -> Seq<(Seq<char>, TomlModel)>
    decreases members.len(),
{
    if members.len() == 0 {
        seq![(key, value)]
    } else if members[0].0 == key {
        seq![(key, value)] + members.skip(1)
    } else {
        seq![members[0]] + put(members.skip(1), key, value)
    }
}

impl TomlModel {
    /// The table with its member `key` set to `value`; any other value unchanged.
    pub open spec fn with_member(self, key: Seq<char>, value: TomlModel) -> TomlModel {
        match self {
            TomlModel::Table(members) => TomlModel::Table(put(members, key, value)),
            other => other,
        }
    }
}

/// A member that was put is found.
pub proof fn lemma_put_lookup(members: Seq<(Seq<char>, TomlModel)>, key: Seq<char>, value: TomlModel)
    ensures
        lookup(put(members, key, value), key) == Some(value),
    decreases members.len(),
{
    if members.len() > 0 && members[0].0 != key {
        lemma_put_lookup(members.skip(1), key, value);
        let all = put(members, key, value);
        assert(all.skip(1) =~= put(members.skip(1), key, value));
    }
}

/// Putting a member leaves the other members alone.
pub proof fn lemma_put_others(
    members: Seq<(Seq<char>, TomlModel)>,
    key: Seq<char>,
    value: TomlModel,
    other: Seq<char>,
)
    requires
        other != key,
    ensures
        lookup(put(members, key, value), other) == lookup(members, other),
    decreases members.len(),
{
    let all = put(members, key, value);
    if members.len() == 0 {
        assert(all.skip(1) =~= members);
    } else if members[0].0 == key {
        assert(all.skip(1) =~= members.skip(1));
    } else {
        lemma_put_others(members.skip(1), key, value, other);
        assert(all.skip(1) =~= put(members.skip(1), key, value));
    }
}

/// The models of listed members.
pub open spec fn member_models(members: Seq<(String, Toml)>) -> Seq<(Seq<char>, TomlModel)> {
    members.map_values(|member: (String, Toml)| (member.0@, member.1@))
}

/// The models of listed values.
pub open spec fn item_models(items: Seq<Toml>) -> Seq<TomlModel> {
    items.map_values(|item: Toml| item@)
}

/// The model of a table lists the models of its members, that of an array
/// those of its items.
pub proof fn lemma_container_models(toml: Toml)
    ensures
        toml matches Toml::Table(members) ==> toml@ == TomlModel::Table(member_models(members@)),
        toml matches Toml::Array(items) ==> toml@ == TomlModel::Array(item_models(items@)),
{
    match toml {
        Toml::Table(members) => {
            assert(toml@->Table_0 =~= member_models(members@));
        },
        Toml::Array(items) => {
            assert(toml@->Array_0 =~= item_models(items@));
        },
        _ => {},
    }
}

/// Copies of all members.
pub fn copy_members(members: &Vec<(String, Toml)>) -> (out: Vec<(String, Toml)>)
    ensures
        member_models(out@) == member_models(members@),
{
    let mut out: Vec<(String, Toml)> = Vec::new();
    let mut i: usize = 0;
    while i < members.len()
        invariant
            i <= members.len(),
            member_models(out@) == member_models(members@).take(i as int),
        decreases members.len() - i,
    {
        let value = members[i].1.copy();
        let ghost before = out@;
        out.push((members[i].0.clone(), value));
        proof {
            let all = member_models(members@);
            assert(member_models(out@) =~= member_models(before).push(all[i as int]));
            assert(all.take(i + 1) =~= all.take(i as int).push(all[i as int]));
        }
        i += 1;
    }
    proof {
        assert(member_models(members@).take(members@.len() as int) =~= member_models(members@));
    }
    out
}

/// `members` with `key` bound to `value`.
pub fn put_member(members: &mut Vec<(String, Toml)>, key: &str, value: Toml)
    ensures
        member_models(final(members)@) == put(member_models(old(members)@), key@, value@),
{
    let ghost all = member_models(members@);
    let mut i: usize = 0;
    proof {
        assert(all.skip(0) =~= all);
        assert(all.take(0) + put(all, key@, value@) =~= put(all, key@, value@));
    }
    while i < members.len() && !same(members[i].0.as_str(), key)
        invariant
            i <= members.len(),
            members@ == old(members)@,
            all == member_models(members@),
            put(all, key@, value@) == all.take(i as int) + put(all.skip(i as int), key@, value@),
        decreases members.len() - i,
    {
        proof {
            let rest = all.skip(i as int);
            assert(rest[0] == all[i as int]);
            assert(rest.skip(1) =~= all.skip(i + 1));
            assert(all.take(i as int) + (seq![rest[0]] + put(rest.skip(1), key@, value@))
                =~= all.take(i + 1) + put(all.skip(i + 1), key@, value@));
        }
        i += 1;
    }
    let ghost v = value@;
    if i < members.len() {
        let name = members[i].0.clone();
        members.set(i, (name, value));
        proof {
            let rest = all.skip(i as int);
            assert(rest[0] == all[i as int]);
            assert(rest.skip(1) =~= all.skip(i + 1));
            assert(member_models(members@) =~= all.take(i as int) + (seq![(key@, v)] + rest.skip(
                1,
            )));
        }
    } else {
        members.push((String::from_str(key), value));
        proof {
            assert(all.skip(i as int) =~= seq![]);
            assert(member_models(members@) =~= all.take(i as int) + seq![(key@, v)]);
        }
    }
}

impl Toml {
    /// The table with its member `key` set to `value`; any other value unchanged.
    pub fn with_member(&self, key: &str, value: Toml) -> (out: Toml)
        ensures
            out@ == self@.with_member(key@, value@),
    {
        match self {
            Toml::Table(members) => {
                let mut all = copy_members(members);
                let ghost v = value@;
                put_member(&mut all, key, value);
                let out = Toml::Table(all);
                proof {
                    lemma_container_models(*self);
                    lemma_container_models(out);
                }
                out
            },
            _ => self.copy(),
        }
    }
}


// ---------------------------------------------------------------------------
// Merging
// ---------------------------------------------------------------------------

/// `target` with `source` laid over it: tables member by member, anything else as
/// a whole.
pub open spec fn merged(target: TomlModel, source: TomlModel) -> TomlModel
    decreases source, 0int,
{
    match (target, source) {
        (TomlModel::Table(a), TomlModel::Table(b)) => TomlModel::Table(merged_members(a, b)),
        _ => source,
    }
}

/// The members `target` with the members `source` laid over them.
pub open spec fn merged_members(
    target: Seq<(Seq<char>, TomlModel)>,
    source: Seq<(Seq<char>, TomlModel)>,
) -> Seq<(Seq<char>, TomlModel)>
    decreases source, 1int,
{
    if source.len() == 0 {
        target
    } else {
        let done = merged_members(target, source.drop_last());
        let key = source[source.len() - 1].0;
        let value = source[source.len() - 1].1;
        match lookup(done, key) {
            Some(existing) => put(done, key, merged(existing, value)),
            None => put(done, key, value),
        }
    }
}

/// Lays `source` over `target`.
pub fn merge_value(target: &Toml, source: &Toml) -> (out: Toml)
    ensures
        out@ == merged(target@, source@),
    decreases source,
{
    match source {
        Toml::Table(b) => {
            let a = match target {
                Toml::Table(a) => a,
                _ => {
                    return source.copy();
                },
            };
            let mut all = copy_members(a);
            let ghost first = member_models(a@);
            let ghost added = member_models(b@);
            proof {
                lemma_container_models(*target);
                lemma_container_models(*source);
            }
            let mut i: usize = 0;
            while i < b.len()
                invariant
                    i <= b.len(),
                    source == Toml::Table(*b),
                    added == member_models(b@),
                    member_models(all@) == merged_members(first, added.take(i as int)),
                decreases b.len() - i,
            {
                proof {
                    assert(added.take(i + 1).drop_last() =~= added.take(i as int));
                    assert(added.take(i + 1)[i as int] == added[i as int]);
                }
                let at = find_member(&all, b[i].0.as_str());
                let ghost done = member_models(all@);
                proof {
                    lemma_lookup_at(done, b@[i as int].0@, at as int);
                }
                let value = if at < all.len() {
                    proof {
                        assert(source->Table_0 == *b);
                        assert(decreases_to!(source => source->Table_0@[i as int].1));
                    }
                    merge_value(&all[at].1, &b[i].1)
                } else {
                    b[i].1.copy()
                };
                put_member(&mut all, b[i].0.as_str(), value);
                i += 1;
            }
            proof {
                assert(added.take(b@.len() as int) =~= added);
            }
            let out = Toml::Table(all);
            proof {
                lemma_container_models(out);
            }
            out
        },
        _ => source.copy(),
    }
}

/// The place of the first member named `key`, or the number of members.
pub open spec fn member_place(members: Seq<(Seq<char>, TomlModel)>, key: Seq<char>) -> int
    decreases members.len(),
{
    if members.len() == 0 || members[0].0 == key {
        0
    } else {
        1 + member_place(members.skip(1), key)
    }
}

fn find_member(members: &Vec<(String, Toml)>, key: &str) -> (out: usize)
    ensures
        out == member_place(member_models(members@), key@),
        out <= members@.len(),
{
    let ghost all = member_models(members@);
    let mut i: usize = 0;
    proof {
        assert(all.skip(0) =~= all);
    }
    while i < members.len() && !same(members[i].0.as_str(), key)
        invariant
            i <= members.len(),
            all == member_models(members@),
            member_place(all, key@) == i + member_place(all.skip(i as int), key@),
        decreases members.len() - i,
    {
        proof {
            assert(all.skip(i as int)[0] == all[i as int]);
            assert(all.skip(i as int).skip(1) =~= all.skip(i + 1));
        }
        i += 1;
    }
    proof {
        if i < members@.len() {
            assert(all.skip(i as int)[0] == all[i as int]);
        }
    }
    i
}

proof fn lemma_lookup_at(members: Seq<(Seq<char>, TomlModel)>, key: Seq<char>, at: int)
    requires
        at == member_place(members, key),
    ensures
        0 <= at <= members.len(),
        at < members.len() ==> lookup(members, key) == Some(members[at].1),
        at == members.len() ==> lookup(members, key) is None,
    decreases members.len(),
{
    if members.len() > 0 && members[0].0 != key {
        lemma_lookup_at(members.skip(1), key, at - 1);
    }
}

/// `target` with the member `key` set to `value`. Where both are tables, the members
/// of `value` replace those of the same name.
pub open spec fn with_setting(target: TomlModel, key: Seq<char>, value: TomlModel) -> TomlModel {
    match target {
        TomlModel::Table(members) => match (lookup(members, key), value) {
            (Some(TomlModel::Table(existing)), TomlModel::Table(new)) => TomlModel::Table(
                put(members, key, TomlModel::Table(put_all(existing, new))),
            ),
            _ => TomlModel::Table(put(members, key, value)),
        },
        other => other,
    }
}

/// `members` with each of `new` put.
pub open spec fn put_all(
    members: Seq<(Seq<char>, TomlModel)>,
    new: Seq<(Seq<char>, TomlModel)>,
) -> Seq<(Seq<char>, TomlModel)>
    decreases new.len(),
{
    if new.len() == 0 {
        members
    } else {
        put(put_all(members, new.drop_last()), new.last().0, new.last().1)
    }
}

/// Sets the member `key` of `target` to `value`.
pub fn merge_toml_value(target: &Toml, key: &str, value: &Toml) -> (out: Toml)
    ensures
        out@ == with_setting(target@, key@, value@),
{
    match target {
        Toml::Table(members) => {
            let at = find_member(members, key);
            proof {
                lemma_container_models(*target);
                lemma_container_models(*value);
                lemma_lookup_at(member_models(members@), key@, at as int);
            }
            let mut all = copy_members(members);
            let mut next = value.copy();
            if at < members.len() {
                if let Toml::Table(existing) = &members[at].1 {
                    if let Toml::Table(new) = value {
                        let mut both = copy_members(existing);
                        let ghost added = member_models(new@);
                        let ghost before = member_models(existing@);
                        let mut i: usize = 0;
                        while i < new.len()
                            invariant
                                i <= new.len(),
                                added == member_models(new@),
                                member_models(both@) == put_all(before, added.take(i as int)),
                            decreases new.len() - i,
                        {
                            proof {
                                assert(added.take(i + 1).drop_last() =~= added.take(i as int));
                                assert(added.take(i + 1).last() == added[i as int]);
                            }
                            let item = new[i].1.copy();
                            put_member(&mut both, new[i].0.as_str(), item);
                            i += 1;
                        }
                        proof {
                            assert(added.take(new@.len() as int) =~= added);
                            lemma_container_models(members@[at as int].1);
                        }
                        next = Toml::Table(both);
                        proof {
                            lemma_container_models(next);
                        }
                    } else {
                    }
                }
            }
            proof {
                if at < members@.len() {
                    lemma_container_models(members@[at as int].1);
                }
            }
            put_member(&mut all, key, next);
            let out = Toml::Table(all);
            proof {
                lemma_container_models(out);
            }
            out
        },
        _ => target.copy(),
    }
}

/// What is laid over a configuration wins, member by member.
pub proof fn overrides_win(
    target: Seq<(Seq<char>, TomlModel)>,
    source: Seq<(Seq<char>, TomlModel)>,
    key: Seq<char>,
    value: TomlModel,
)
    requires
        source.len() > 0,
        source.last() == (key, value),
        !(value is Table),
    ensures
        lookup(merged_members(target, source), key) == Some(value),
{
    let done = merged_members(target, source.drop_last());
    lemma_put_lookup(done, key, value);
    assert(source[source.len() - 1] == (key, value));
    if let Some(existing) = lookup(done, key) {
        assert(merged(existing, value) == value);
    }
}

/// Members that are not overridden stay as they are.
pub proof fn others_stay(
    target: Seq<(Seq<char>, TomlModel)>,
    source: Seq<(Seq<char>, TomlModel)>,
    key: Seq<char>,
)
    requires
        forall|i: int| 0 <= i < source.len() ==> (#[trigger] source[i]).0 != key,
    ensures
        lookup(merged_members(target, source), key) == lookup(target, key),
    decreases source.len(),
{
    if source.len() > 0 {
        let rest = source.drop_last();
        assert forall|i: int| 0 <= i < rest.len() implies (#[trigger] rest[i]).0 != key by {
            assert(rest[i] == source[i]);
        }
        others_stay(target, rest, key);
        let done = merged_members(target, rest);
        let last = source[source.len() - 1];
        match lookup(done, last.0) {
            Some(existing) => {
                lemma_put_others(done, last.0, merged(existing, last.1), key);
            },
            None => {
                lemma_put_others(done, last.0, last.1, key);
            },
        }
    }
}

/// A table that is laid over a table is merged into it, setting by setting; anything else
/// takes the place of what was there.
pub proof fn tables_are_merged(
    target: Seq<(Seq<char>, TomlModel)>,
    source: Seq<(Seq<char>, TomlModel)>,
    key: Seq<char>,
    value: TomlModel,
    other: TomlModel,
)
    requires
        forall|i: int| 0 <= i < source.len() ==> (#[trigger] source[i]).0 != key,
    ensures
        lookup(merged_members(target, source.push((key, value))), key) == Some(
            match lookup(target, key) {
                Some(existing) => merged(existing, value),
                None => value,
            },
        ),
        value !is Table ==> merged(other, value) == value,
        other !is Table ==> merged(other, value) == value,
        merged(TomlModel::Table(target), TomlModel::Table(seq![])) == TomlModel::Table(target),
{
    others_stay(target, source, key);
    let all = source.push((key, value));
    assert(all.drop_last() =~= source);
    assert(all[all.len() - 1] == (key, value));
    let done = merged_members(target, source);
    match lookup(done, key) {
        Some(existing) => {
            lemma_put_lookup(done, key, merged(existing, value));
        },
        None => {
            lemma_put_lookup(done, key, value);
        },
    }
}

/// A setting that is set is set; of a table the settings are set one by one, and all
/// others stay.
pub proof fn settings_are_set(
    members: Seq<(Seq<char>, TomlModel)>,
    key: Seq<char>,
    value: TomlModel,
    other: Seq<char>,
)
    ensures
        value !is Table || lookup(members, key) is None ==> with_setting(
            TomlModel::Table(members),
            key,
            value,
        ).member(key) == Some(value),
        other != key ==> with_setting(TomlModel::Table(members), key, value).member(other)
            == lookup(members, other),
{
    lemma_put_lookup(members, key, value);
    match (lookup(members, key), value) {
        (Some(TomlModel::Table(existing)), TomlModel::Table(new)) => {
            if other != key {
                lemma_put_others(members, key, TomlModel::Table(put_all(existing, new)), other);
            }
        },
        _ => {
            if other != key {
                lemma_put_others(members, key, value, other);
            }
        },
    }
}

} // verus!
