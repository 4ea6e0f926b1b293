//! JSON values, and `serde_json` as the reader and writer of JSON text.

use vstd::prelude::*;

use crate::text::same;

verus! {

/// A number of `serde_json`, which is carried along and never looked into.
#[verifier::external_type_specification]
#[verifier::external_body]
pub struct ExNumber(serde_json::Number);

/// A JSON value of `serde_json`.
#[verifier::external_type_specification]
#[verifier::external_body]
pub struct ExValue(serde_json::Value);

/// `serde_json::Number::clone` returns an equal number.
pub assume_specification[ <serde_json::Number as Clone>::clone ](
    number: &serde_json::Number,
) -> (out: serde_json::Number)
    ensures
        out == *number,
;

/// A JSON value.
#[derive(Debug)]
pub enum Json {
    Null,
    Bool(bool),
    Number(serde_json::Number),
    Text(String),
    Array(Vec<Json>),
    /// The members in the order in which they are listed.
    Object(Vec<(String, Json)>),
}

/// A JSON value over mathematical sequences.
pub enum JsonModel {
    Null,
    Bool(bool),
    Number(serde_json::Number),
    Text(Seq<char>),
    Array(Seq<JsonModel>),
    Object(Seq<(Seq<char>, JsonModel)>),
}

impl Json {
    pub open spec fn model(self) -> JsonModel
        decreases self,
    {
        match self {
            Json::Null => JsonModel::Null,
            Json::Bool(b) => JsonModel::Bool(b),
            Json::Number(n) => JsonModel::Number(n),
            Json::Text(t) => JsonModel::Text(t@),
            Json::Array(items) => JsonModel::Array(
                Seq::new(
                    items@.len(),
                    |i: int|
                        if 0 <= i < items@.len() {
                            items@[i].model()
                        } else {
                            JsonModel::Null
                        },
                ),
            ),
            Json::Object(members) => JsonModel::Object(
                Seq::new(
                    members@.len(),
                    |i: int|
                        if 0 <= i < members@.len() {
                            (members@[i].0@, members@[i].1.model())
                        } else {
                            (seq![], JsonModel::Null)
                        },
                ),
            ),
        }
    }
}

impl View for Json {
    type V = JsonModel;

    open spec fn view(&self) -> JsonModel {
        self.model()
    }
}

/// The value that a value of `serde_json` stands for: its variant with what the
/// variant holds, the members of an object in the order of the map that holds them.
pub uninterp spec fn json_model(value: serde_json::Value) -> JsonModel;

/// The value of `serde_json` that holds `model`.
pub uninterp spec fn json_value(model: JsonModel) -> serde_json::Value;

/// The value that `serde_json::from_str` reads from a text, or why it reads none.
pub uninterp spec fn json_parsed(text: Seq<char>) -> Result<JsonModel, Seq<char>>;

/// The text that `serde_json` writes for a value.
pub uninterp spec fn json_text(value: serde_json::Value) -> Seq<char>;

/// `serde_json::from_str::<serde_json::Value>`: whether it succeeds, and what it then
/// yields or the text of its error, is given by `json_parsed`.
#[verifier::external_body]
fn read_value(text: &str) -> (out: Result<serde_json::Value, String>)
    ensures
        match out {
            Ok(value) => json_parsed(text@) == Ok::<JsonModel, Seq<char>>(json_model(value)),
            Err(reason) => json_parsed(text@) == Err::<JsonModel, Seq<char>>(reason@),
        },
{
    serde_json::from_str(text).map_err(|error: serde_json::Error| error.to_string())
}

/// Takes a `serde_json::Value` apart, variant by variant.
#[verifier::external_body]
fn from_value(value: serde_json::Value) -> (out: Json)
    ensures
        out@ == json_model(value),
{
    match value {
        serde_json::Value::Null => Json::Null,
        serde_json::Value::Bool(b) => Json::Bool(b),
        serde_json::Value::Number(n) => Json::Number(n),
        serde_json::Value::String(t) => Json::Text(t),
        serde_json::Value::Array(items) => Json::Array(items.into_iter().map(from_value).collect()),
        serde_json::Value::Object(members) => Json::Object(
            members.into_iter().map(|(key, member)| (key, from_value(member))).collect(),
        ),
    }
}

/// Builds a `serde_json::Value`, variant by variant.
#[verifier::external_body]
fn to_value(json: &Json) -> (out: serde_json::Value)
    ensures
        out == json_value(json@),
{
    match json {
        Json::Null => serde_json::Value::Null,
        Json::Bool(b) => serde_json::Value::Bool(*b),
        Json::Number(n) => serde_json::Value::Number(n.clone()),
        Json::Text(t) => serde_json::Value::String(t.clone()),
        Json::Array(items) => serde_json::Value::Array(items.iter().map(to_value).collect()),
        Json::Object(members) => serde_json::Value::Object(
            members.iter().map(|member| (member.0.clone(), to_value(&member.1))).collect(),
        ),
    }
}

/// `serde_json::Value::to_string`: the compact text of a value.
#[verifier::external_body]
fn value_text(value: &serde_json::Value) -> (out: String)
    ensures
        out@ == json_text(*value),
{
    value.to_string()
}

/// The model held by an optional value.
pub open spec fn opt_model(json: Option<Json>) -> Option<JsonModel> {
    match json {
        Some(value) => Some(value@),
        None => None,
    }
}

/// The outcome of reading JSON text, over mathematical values.
pub open spec fn read_model(out: Result<Json, String>) -> Result<JsonModel, Seq<char>> {
    match out {
        Ok(value) => Ok(value@),
        Err(reason) => Err(reason@),
    }
}

/// Reads JSON text, or says why it cannot be read.
pub fn parse_json(text: &str) -> (out: Result<Json, String>)
    ensures
        read_model(out) == json_parsed(text@),
{
    match read_value(text) {
        Ok(value) => Ok(from_value(value)),
        Err(reason) => Err(reason),
    }
}

/// Writes JSON text.
pub fn render_json(json: &Json) -> (out: String)
    ensures
        out@ == json_text(json_value(json@)),
{
    value_text(&to_value(json))
}

// ---------------------------------------------------------------------------
// Members
// ---------------------------------------------------------------------------

/// The first member named `key`.
pub open spec fn lookup(members: Seq<(Seq<char>, JsonModel)>, key: Seq<char>) -> Option<JsonModel>
    decreases members.len(),
{
    if members.len() == 0 {
        None
    } else if members[0].0 == key {
        Some(members[0].1)
    } else {
        lookup(members.skip(1), key)
    }
}

impl JsonModel {
    /// The member named `key`, of an object that has one.
    pub open spec fn member(self, key: Seq<char>) -> Option<JsonModel> {
        match self {
            JsonModel::Object(members) => lookup(members, key),
            _ => None,
        }
    }

    /// The text, of a text.
    pub open spec fn as_text(self) -> Option<Seq<char>> {
        match self {
            JsonModel::Text(text) => Some(text),
            _ => None,
        }
    }

    /// The text of the member named `key`.
    pub open spec fn member_text(self, key: Seq<char>) -> Option<Seq<char>> {
        match self.member(key) {
            Some(member) => member.as_text(),
            None => None,
        }
    }
}

/// The model held by an optional reference.
pub open spec fn opt_ref_model(json: Option<&Json>) -> Option<JsonModel> {
    match json {
        Some(value) => Some(value@),
        None => None,
    }
}

impl Json {
    /// The member named `key`, of an object that has one.
    pub fn get(&self, key: &str) -> (out: Option<&Json>)
        ensures
            opt_ref_model(out) == self@.member(key@),
    {
        match self {
            Json::Object(members) => {
                let ghost all = self@->Object_0;
                let mut i: usize = 0;
                proof {
                    assert(all.skip(0) =~= all);
                }
                while i < members.len()
                    invariant
                        i <= members.len(),
                        all == self@->Object_0,
                        self == Json::Object(*members),
                        all.len() == members@.len(),
                        lookup(all, key@) == lookup(all.skip(i as int), key@),
                    decreases members.len() - i,
                {
                    proof {
                        assert(all.skip(i as int)[0] == all[i as int]);
                        assert(all[i as int] == (members@[i as int].0@, members@[i as int].1@));
                        assert(all.skip(i as int).skip(1) =~= all.skip(i + 1));
                    }
                    if same(members[i].0.as_str(), key) {
                        return Some(&members[i].1);
                    }
                    i += 1;
                }
                None
            },
            _ => None,
        }
    }

    /// The text, of a text.
    pub fn as_text(&self) -> (out: Option<&String>)
        ensures
            match out {
                Some(text) => self@.as_text() == Some(text@),
                None => self@.as_text() is None,
            },
    {
        match self {
            Json::Text(text) => Some(text),
            _ => None,
        }
    }

    /// A copy of the text of the member named `key`.
    pub fn get_text(&self, key: &str) -> (out: Option<String>)
        ensures
            crate::text::opt_text(out) == self@.member_text(key@),
    {
        match self.get(key) {
            Some(member) => match member.as_text() {
                Some(text) => Some(text.clone()),
                None => None,
            },
            None => None,
        }
    }

    /// Whether the member named `key` is the text `expected`.
    pub fn member_is(&self, key: &str, expected: &str) -> (out: bool)
        ensures
            out == (self@.member_text(key@) == Some(expected@)),
    {
        match self.get_text(key) {
            Some(text) => same(text.as_str(), expected),
            None => false,
        }
    }

    /// A copy of the value.
    pub fn copy(&self) -> (out: Json)
        ensures
            out@ == self@,
        decreases self,
    {
        match self {
            Json::Null => Json::Null,
            Json::Bool(b) => Json::Bool(*b),
            Json::Number(n) => Json::Number(n.clone()),
            Json::Text(t) => Json::Text(t.clone()),
            Json::Array(items) => {
                let ghost all = self@->Array_0;
                let mut out: Vec<Json> = Vec::new();
                let mut i: usize = 0;
                while i < items.len()
                    invariant
                        i <= items.len(),
                        self == Json::Array(*items),
                        all == self@->Array_0,
                        all.len() == items@.len(),
                        out@.len() == i,
                        forall|j: int| 0 <= j < i ==> (#[trigger] out@[j])@ == all[j],
                    decreases items.len() - i,
                {
                    let item = items[i].copy();
                    out.push(item);
                    i += 1;
                }
                let result = Json::Array(out);
                proof {
                    assert(result@->Array_0 =~= all);
                }
                result
            },
            Json::Object(members) => {
                let ghost all = self@->Object_0;
                let mut out: Vec<(String, Json)> = Vec::new();
                let mut i: usize = 0;
                while i < members.len()
                    invariant
                        i <= members.len(),
                        self == Json::Object(*members),
                        all == self@->Object_0,
                        all.len() == members@.len(),
                        out@.len() == i,
                        forall|j: int|
                            0 <= j < i ==> ((#[trigger] out@[j]).0@, out@[j].1@) == all[j],
                    decreases members.len() - i,
                {
                    let member = members[i].1.copy();
                    out.push((members[i].0.clone(), member));
                    i += 1;
                }
                let result = Json::Object(out);
                proof {
                    assert(result@->Object_0 =~= all);
                }
                result
            },
        }
    }
}

// ---------------------------------------------------------------------------
// Changing members
// ---------------------------------------------------------------------------

/// `members` with `key` bound to `value`: in the place of its first member of
/// that name, or else behind all members.
pub open spec fn put(
    members: Seq<(Seq<char>, JsonModel)>,
    key: Seq<char>,
    value: JsonModel,
) -> Seq<(Seq<char>, JsonModel)>
    decreases members.len(),
{
    if members.len() == 0 {
        seq![(key, value)]
    } else if members[0].0 == key {
        seq![(key, value)] + members.skip(1)
    } else {
        seq![members[0]] + put(members.skip(1), key, value)
    }
}

impl JsonModel {
    /// The object with its member `key` set to `value`; any other value unchanged.
    pub open spec fn with_member(self, key: Seq<char>, value: JsonModel) -> JsonModel {
        match self {
            JsonModel::Object(members) => JsonModel::Object(put(members, key, value)),
            other => other,
        }
    }
}

/// A member that was put is found.
pub proof fn lemma_put_lookup(members: Seq<(Seq<char>, JsonModel)>, key: Seq<char>, value: JsonModel)
    ensures
        lookup(put(members, key, value), key) == Some(value),
    decreases members.len(),
{
    if members.len() > 0 && members[0].0 != key {
        lemma_put_lookup(members.skip(1), key, value);
        let all = put(members, key, value);
        assert(all.skip(1) =~= put(members.skip(1), key, value));
    }
}

/// Putting a member leaves the other members alone.
pub proof fn lemma_put_others(
    members: Seq<(Seq<char>, JsonModel)>,
    key: Seq<char>,
    value: JsonModel,
    other: Seq<char>,
)
    requires
        other != key,
    ensures
        lookup(put(members, key, value), other) == lookup(members, other),
    decreases members.len(),
{
    let all = put(members, key, value);
    if members.len() == 0 {
        assert(all.skip(1) =~= members);
    } else if members[0].0 == key {
        assert(all.skip(1) =~= members.skip(1));
    } else {
        lemma_put_others(members.skip(1), key, value, other);
        assert(all.skip(1) =~= put(members.skip(1), key, value));
    }
}

/// The models of listed members.
pub open spec fn member_models(members: Seq<(String, Json)>) -> Seq<(Seq<char>, JsonModel)> {
    members.map_values(|member: (String, Json)| (member.0@, member.1@))
}

/// The models of listed values.
pub open spec fn item_models(items: Seq<Json>) -> Seq<JsonModel> {
    items.map_values(|item: Json| item@)
}

/// The model of an object lists the models of its members, that of an array
/// those of its items.
pub proof fn lemma_container_models(json: Json)
    ensures
        json matches Json::Object(members) ==> json@ == JsonModel::Object(member_models(members@)),
        json matches Json::Array(items) ==> json@ == JsonModel::Array(item_models(items@)),
{
    match json {
        Json::Object(members) => {
            assert(json@->Object_0 =~= member_models(members@));
        },
        Json::Array(items) => {
            assert(json@->Array_0 =~= item_models(items@));
        },
        _ => {},
    }
}

/// Copies of all members.
pub fn copy_members(members: &Vec<(String, Json)>) -> (out: Vec<(String, Json)>)
    ensures
        member_models(out@) == member_models(members@),
{
    let mut out: Vec<(String, Json)> = Vec::new();
    let mut i: usize = 0;
    while i < members.len()
        invariant
            i <= members.len(),
            member_models(out@) == member_models(members@).take(i as int),
        decreases members.len() - i,
    {
        let value = members[i].1.copy();
        let ghost before = out@;
        out.push((members[i].0.clone(), value));
        proof {
            let all = member_models(members@);
            assert(member_models(out@) =~= member_models(before).push(all[i as int]));
            assert(all.take(i + 1) =~= all.take(i as int).push(all[i as int]));
        }
        i += 1;
    }
    proof {
        assert(member_models(members@).take(members@.len() as int) =~= member_models(members@));
    }
    out
}

/// `members` with `key` bound to `value`.
pub fn put_member(members: &mut Vec<(String, Json)>, key: &str, value: Json)
    ensures
        member_models(final(members)@) == put(member_models(old(members)@), key@, value@),
{
    let ghost all = member_models(members@);
    let mut i: usize = 0;
    proof {
        assert(all.skip(0) =~= all);
        assert(all.take(0) + put(all, key@, value@) =~= put(all, key@, value@));
    }
    while i < members.len() && !same(members[i].0.as_str(), key)
        invariant
            i <= members.len(),
            members@ == old(members)@,
            all == member_models(members@),
            put(all, key@, value@) == all.take(i as int) + put(all.skip(i as int), key@, value@),
        decreases members.len() - i,
    {
        proof {
            let rest = all.skip(i as int);
            assert(rest[0] == all[i as int]);
            assert(rest.skip(1) =~= all.skip(i + 1));
            assert(all.take(i as int) + (seq![rest[0]] + put(rest.skip(1), key@, value@))
                =~= all.take(i + 1) + put(all.skip(i + 1), key@, value@));
        }
        i += 1;
    }
    let ghost v = value@;
    if i < members.len() {
        let name = members[i].0.clone();
        members.set(i, (name, value));
        proof {
            let rest = all.skip(i as int);
            assert(rest[0] == all[i as int]);
            assert(rest.skip(1) =~= all.skip(i + 1));
            assert(member_models(members@) =~= all.take(i as int) + (seq![(key@, v)] + rest.skip(
                1,
            )));
        }
    } else {
        members.push((String::from_str(key), value));
        proof {
            assert(all.skip(i as int) =~= seq![]);
            assert(member_models(members@) =~= all.take(i as int) + seq![(key@, v)]);
        }
    }
}

impl Json {
    /// The object with its member `key` set to `value`; any other value unchanged.
    pub fn with_member(&self, key: &str, value: Json) -> (out: Json)
        ensures
            out@ == self@.with_member(key@, value@),
    {
        match self {
            Json::Object(members) => {
                let mut all = copy_members(members);
                let ghost v = value@;
                put_member(&mut all, key, value);
                let out = Json::Object(all);
                proof {
                    lemma_container_models(*self);
                    lemma_container_models(out);
                }
                out
            },
            _ => self.copy(),
        }
    }
}

} // verus!
