//! Copies of recorded sessions that another slot can resume: the session gets a
//! new id and provider, and everything encrypted for the old slot is left out.

use vstd::prelude::*;

use crate::json::parse_json;
use crate::json::render_json;
use crate::json::Json;
use crate::json::JsonModel;
use crate::lines::split_lines;
use crate::lines::trim;
use crate::numbers::decimal;
use crate::text::chars_of;
use crate::text::concat3;
use crate::text::concat4;
use crate::text::same;
use crate::text::string_of;

verus! {

// ---------------------------------------------------------------------------
// Scrubbing values
// ---------------------------------------------------------------------------

/// Whether `value` is an object whose `type` is `encrypted_content`.
pub open spec fn is_encrypted(value: JsonModel) -> bool {
    value.member_text("type"@) == Some("encrypted_content"@)
}

/// `value` without any member named `encrypted_content` and without any array
/// item of that type, at any depth.
pub open spec fn scrubbed(value: JsonModel) -> JsonModel
    decreases value,
{
    match value {
        JsonModel::Array(items) => JsonModel::Array(scrubbed_items(items)),
        JsonModel::Object(members) => JsonModel::Object(scrubbed_members(members)),
        other => other,
    }
}

/// The scrubbed items of an array.
pub open spec fn scrubbed_items(items: Seq<JsonModel>) -> Seq<JsonModel>
    decreases items,
{
    if items.len() == 0 {
        seq![]
    } else {
        let rest = scrubbed_items(items.drop_last());
        let item = scrubbed(items[items.len() - 1]);
        if is_encrypted(item) {
            rest
        } else {
            rest.push(item)
        }
    }
}

/// The scrubbed members of an object.
pub open spec fn scrubbed_members(members: Seq<(Seq<char>, JsonModel)>) -> Seq<
    (Seq<char>, JsonModel),
>
    decreases members,
{
    if members.len() == 0 {
        seq![]
    } else {
        let rest = scrubbed_members(members.drop_last());
        let last = members[members.len() - 1];
        if last.0 == "encrypted_content"@ {
            rest
        } else {
            rest.push((last.0, scrubbed(last.1)))
        }
    }
}

/// `value` without what is encrypted.
pub fn scrub_value(value: &Json) -> (out: Json)
    ensures
        out@ == scrubbed(value@),
    decreases value,
{
    match value {
        Json::Array(items) => {
            let ghost all = value@->Array_0;
            let mut kept: Vec<Json> = Vec::new();
            let mut i: usize = 0;
            proof {
                assert(all.take(0) =~= seq![]);
                assert(crate::json::item_models(kept@) =~= seq![]);
            }
            while i < items.len()
                invariant
                    i <= items.len(),
                    value == Json::Array(*items),
                    all == value@->Array_0,
                    all.len() == items@.len(),
                    crate::json::item_models(kept@) == scrubbed_items(all.take(i as int)),
                decreases items.len() - i,
            {
                let item = scrub_value(&items[i]);
                proof {
                    let t = all.take(i + 1);
                    assert(t.drop_last() =~= all.take(i as int));
                    assert(t[t.len() - 1] == items@[i as int]@);
                }
                if !item.member_is("type", "encrypted_content") {
                    let ghost before = kept@;
                    kept.push(item);
                    proof {
                        assert(crate::json::item_models(kept@) =~= crate::json::item_models(
                            before,
                        ).push(item@));
                    }
                }
                i += 1;
            }
            proof {
                assert(all.take(items@.len() as int) =~= all);
            }
            let out = Json::Array(kept);
            proof {
                crate::json::lemma_container_models(out);
            }
            out
        },
        Json::Object(members) => {
            let ghost all = value@->Object_0;
            let mut kept: Vec<(String, Json)> = Vec::new();
            let mut i: usize = 0;
            proof {
                assert(all.take(0) =~= seq![]);
                assert(crate::json::member_models(kept@) =~= seq![]);
            }
            while i < members.len()
                invariant
                    i <= members.len(),
                    value == Json::Object(*members),
                    all == value@->Object_0,
                    all.len() == members@.len(),
                    crate::json::member_models(kept@) == scrubbed_members(all.take(i as int)),
                decreases members.len() - i,
            {
                proof {
                    let t = all.take(i + 1);
                    assert(t.drop_last() =~= all.take(i as int));
                    assert(t[t.len() - 1] == (members@[i as int].0@, members@[i as int].1@));
                }
                if !same(members[i].0.as_str(), "encrypted_content") {
                    let member = scrub_value(&members[i].1);
                    let ghost before = kept@;
                    kept.push((members[i].0.clone(), member));
                    proof {
                        assert(crate::json::member_models(kept@) =~= crate::json::member_models(
                            before,
                        ).push((members@[i as int].0@, member@)));
                    }
                }
                i += 1;
            }
            proof {
                assert(all.take(members@.len() as int) =~= all);
            }
            let out = Json::Object(kept);
            proof {
                crate::json::lemma_container_models(out);
            }
            out
        },
        _ => value.copy(),
    }
}

// ---------------------------------------------------------------------------
// Scrubbing recorded lines
// ---------------------------------------------------------------------------

/// Whether an item records a compaction, which is of no use to another slot.
pub open spec fn is_compaction(payload: JsonModel) -> bool {
    let kind = payload.member_text("type"@);
    kind == Some("compaction"@) || kind == Some("compaction_summary"@)
}

/// Whether an item records a compaction.
pub fn response_item_should_drop(payload: &Json) -> (out: bool)
    ensures
        out == is_compaction(payload@),
{
    payload.member_is("type", "compaction") || payload.member_is("type", "compaction_summary")
}

/// Whether the member `key` is an array without items.
pub open spec fn is_empty_array(payload: JsonModel, key: Seq<char>) -> bool {
    payload.member(key) matches Some(JsonModel::Array(items)) && items.len() == 0
}

/// Whether the member `key` is missing, no array, or an array without items.
pub open spec fn lacks_items(payload: JsonModel, key: Seq<char>) -> bool {
    payload.member(key) matches Some(JsonModel::Array(items)) ==> items.len() == 0
}

/// Whether every member is named `type`.
pub open spec fn only_type(payload: JsonModel) -> bool {
    match payload {
        JsonModel::Object(members) => all_named(members, "type"@),
        _ => true,
    }
}

/// Whether every one of `members` is named `key`.
pub open spec fn all_named(members: Seq<(Seq<char>, JsonModel)>, key: Seq<char>) -> bool {
    forall|i: int| 0 <= i < members.len() ==> (#[trigger] members[i]).0 == key
}

/// Whether nothing is left of an item that is worth recording.
pub open spec fn is_hollow(payload: JsonModel) -> bool {
    let kind = payload.member_text("type"@);
    if kind == Some("agent_message"@) {
        is_empty_array(payload, "content"@)
    } else if kind == Some("reasoning"@) {
        lacks_items(payload, "summary"@) && lacks_items(payload, "content"@)
    } else if kind == Some("context_compaction"@) {
        only_type(payload)
    } else {
        false
    }
}

fn member_lacks_items(payload: &Json, key: &str) -> (out: bool)
    ensures
        out == lacks_items(payload@, key@),
{
    match payload.get(key) {
        Some(Json::Array(items)) => {
            proof {
                crate::json::lemma_container_models(Json::Array(*items));
            }
            items.len() == 0
        },
        _ => true,
    }
}

fn member_is_empty_array(payload: &Json, key: &str) -> (out: bool)
    ensures
        out == is_empty_array(payload@, key@),
{
    match payload.get(key) {
        Some(Json::Array(items)) => {
            proof {
                crate::json::lemma_container_models(Json::Array(*items));
            }
            items.len() == 0
        },
        _ => false,
    }
}

fn has_only_type(payload: &Json) -> (out: bool)
    ensures
        out == only_type(payload@),
{
    match payload {
        Json::Object(members) => {
            proof {
                crate::json::lemma_container_models(*payload);
            }
            let mut i: usize = 0;
            while i < members.len()
                invariant
                    i <= members.len(),
                    payload@ == JsonModel::Object(crate::json::member_models(members@)),
                    forall|j: int| 0 <= j < i ==> (#[trigger] members@[j]).0@ == "type"@,
                decreases members.len() - i,
            {
                if !same(members[i].0.as_str(), "type") {
                    proof {
                        let all = crate::json::member_models(members@);
                        assert(all[i as int].0 != "type"@);
                    }
                    return false;
                }
                i += 1;
            }
            true
        },
        _ => true,
    }
}

/// Whether nothing is left of an item that is worth recording.
pub fn response_item_is_empty_after_scrub(payload: &Json) -> (out: bool)
    ensures
        out == is_hollow(payload@),
{
    proof {
        reveal_strlit("agent_message");
        reveal_strlit("reasoning");
        reveal_strlit("context_compaction");
    }
    if payload.member_is("type", "agent_message") {
        member_is_empty_array(payload, "content")
    } else if payload.member_is("type", "reasoning") {
        member_lacks_items(payload, "summary") && member_lacks_items(payload, "content")
    } else if payload.member_is("type", "context_compaction") {
        has_only_type(payload)
    } else {
        false
    }
}

/// `payload` with the member `key` set to `new`, if it was the text `old`.
pub open spec fn renamed(
    payload: JsonModel,
    key: Seq<char>,
    old_text: Seq<char>,
    new_text: Seq<char>,
) -> JsonModel {
    if payload.member_text(key) == Some(old_text) {
        payload.with_member(key, JsonModel::Text(new_text))
    } else {
        payload
    }
}

/// `payload` with the member `key` set to `new`, if it was the text `old`.
pub fn replace_string_field(payload: Json, key: &str, old_text: &str, new_text: &str) -> (out: Json)
    ensures
        out@ == renamed(payload@, key@, old_text@, new_text@),
{
    if payload.member_is(key, old_text) {
        payload.with_member(key, Json::Text(String::from_str(new_text)))
    } else {
        payload
    }
}

/// The head of a recording under its new id and provider.
pub open spec fn readdressed(
    line: JsonModel,
    old_id: Seq<char>,
    new_id: Seq<char>,
    provider: Seq<char>,
) -> JsonModel {
    match line.member("payload"@) {
        Some(payload) if payload is Object => {
            let once = renamed(payload, "id"@, old_id, new_id);
            let twice = renamed(once, "session_id"@, old_id, new_id);
            line.with_member(
                "payload"@,
                twice.with_member("model_provider"@, JsonModel::Text(provider)),
            )
        },
        _ => line,
    }
}

/// What is recorded in place of `line`, if anything is.
pub open spec fn scrubbed_line(
    line: JsonModel,
    old_id: Seq<char>,
    new_id: Seq<char>,
    provider: Seq<char>,
) -> Option<JsonModel> {
    let kind = line.member_text("type"@);
    if kind == Some("response_item"@) {
        match line.member("payload"@) {
            None => Some(line),
            Some(payload) => if is_compaction(payload) || is_hollow(scrubbed(payload))
                || is_compaction(scrubbed(payload)) {
                None
            } else {
                Some(line.with_member("payload"@, scrubbed(payload)))
            },
        }
    } else if kind == Some("session_meta"@) {
        Some(scrubbed(readdressed(line, old_id, new_id, provider)))
    } else {
        Some(scrubbed(line))
    }
}

fn readdress(line: &Json, old_id: &str, new_id: &str, provider: &str) -> (out: Json)
    ensures
        out@ == readdressed(line@, old_id@, new_id@, provider@),
{
    match line.get("payload") {
        Some(Json::Object(members)) => {
            let payload = Json::Object(crate::json::copy_members(members));
            proof {
                crate::json::lemma_container_models(payload);
                crate::json::lemma_container_models(Json::Object(*members));
            }
            let once = replace_string_field(payload, "id", old_id, new_id);
            let twice = replace_string_field(once, "session_id", old_id, new_id);
            let done = twice.with_member("model_provider", Json::Text(String::from_str(provider)));
            line.with_member("payload", done)
        },
        _ => line.copy(),
    }
}

/// What is recorded in place of `line`, if anything is.
pub fn scrub_rollout_line(line: &Json, old_id: &str, new_id: &str, provider: &str) -> (out: Option<
    Json,
>)
    ensures
        crate::json::opt_model(out) == scrubbed_line(line@, old_id@, new_id@, provider@),
{
    proof {
        reveal_strlit("session_meta");
        reveal_strlit("response_item");
    }
    if line.member_is("type", "response_item") {
        match line.get("payload") {
            None => Some(line.copy()),
            Some(payload) => {
                if response_item_should_drop(payload) {
                    return None;
                }
                let clean = scrub_value(payload);
                if response_item_is_empty_after_scrub(&clean) {
                    return None;
                }
                if response_item_should_drop(&clean) {
                    return None;
                }
                Some(line.with_member("payload", clean))
            },
        }
    } else if line.member_is("type", "session_meta") {
        Some(scrub_value(&readdress(line, old_id, new_id, provider)))
    } else {
        Some(scrub_value(line))
    }
}

// ---------------------------------------------------------------------------
// Whole recordings
// ---------------------------------------------------------------------------

/// The recording made of `lines`, or the number of the first line that is no JSON
/// and why it is none.
pub open spec fn scrubbed_recording(
    lines: Seq<Seq<char>>,
    old_id: Seq<char>,
    new_id: Seq<char>,
    provider: Seq<char>,
) -> Result<Seq<char>, (nat, Seq<char>)>
    decreases lines.len(),
{
    if lines.len() == 0 {
        Ok(seq![])
    } else {
        match scrubbed_recording(lines.drop_last(), old_id, new_id, provider) {
            Err(failure) => Err(failure),
            Ok(head) => if crate::lines::trimmed(lines.last()).len() == 0 {
                Ok(head)
            } else {
                match crate::json::json_parsed(lines.last()) {
                    Err(reason) => Err((lines.len(), reason)),
                    Ok(line) => match scrubbed_line(line, old_id, new_id, provider) {
                        None => Ok(head),
                        Some(kept) => Ok(
                            (head + crate::json::json_text(crate::json::json_value(kept))).push(
                                '\n',
                            ),
                        ),
                    },
                }
            },
        }
    }
}

proof fn lemma_recording_fails_early(
    lines: Seq<Seq<char>>,
    k: int,
    old_id: Seq<char>,
    new_id: Seq<char>,
    provider: Seq<char>,
)
    requires
        0 <= k <= lines.len(),
        scrubbed_recording(lines.take(k), old_id, new_id, provider) is Err,
    ensures
        scrubbed_recording(lines, old_id, new_id, provider) == scrubbed_recording(
            lines.take(k),
            old_id,
            new_id,
            provider,
        ),
    decreases lines.len(),
{
    if k < lines.len() {
        assert(lines.drop_last().take(k) =~= lines.take(k));
        lemma_recording_fails_early(lines.drop_last(), k, old_id, new_id, provider);
    } else {
        assert(lines.take(k) =~= lines);
    }
}

/// The scrubbed recording of `content`, or the number of the first line that is
/// no JSON and why it is none.
pub fn scrub_rollout(content: &str, old_id: &str, new_id: &str, provider: &str) -> (out: Result<
    String,
    (usize, String),
>)
    ensures
        match out {
            Ok(text) => scrubbed_recording(
                crate::lines::lines_of(content@),
                old_id@,
                new_id@,
                provider@,
            ) == Ok::<Seq<char>, (nat, Seq<char>)>(text@),
            Err((number, reason)) => scrubbed_recording(
                crate::lines::lines_of(content@),
                old_id@,
                new_id@,
                provider@,
            ) == Err::<Seq<char>, (nat, Seq<char>)>((number as nat, reason@)),
        },
{
    let lines = split_lines(&chars_of(content));
    let ghost all = crate::lines::lines_of(content@);
    let mut output = String::new();
    let mut i: usize = 0;
    proof {
        assert(all.take(0) =~= seq![]);
    }
    while i < lines.len()
        invariant
            i <= lines.len(),
            all == crate::lines::rows(lines@),
            all == crate::lines::lines_of(content@),
            scrubbed_recording(all.take(i as int), old_id@, new_id@, provider@) == Ok::<
                Seq<char>,
                (nat, Seq<char>),
            >(output@),
        decreases lines.len() - i,
    {
        proof {
            let t = all.take(i + 1);
            assert(t.drop_last() =~= all.take(i as int));
            assert(t.last() == lines@[i as int]@);
        }
        if trim(&lines[i]).len() > 0 {
            let text = string_of(&lines[i]);
            match parse_json(text.as_str()) {
                Err(reason) => {
                    proof {
                        lemma_recording_fails_early(all, i + 1, old_id@, new_id@, provider@);
                    }
                    return Err((i + 1, reason));
                },
                Ok(line) => {
                    if let Some(kept) = scrub_rollout_line(&line, old_id, new_id, provider) {
                        output.append(render_json(&kept).as_str());
                        output.push('\n');
                    }
                },
            }
        }
        i += 1;
    }
    proof {
        assert(all.take(lines@.len() as int) =~= all);
    }
    Ok(output)
}

/// The message for line `number` of the recording at `path`, which is no JSON for
/// `reason`.
pub fn unreadable_line_message(path: &str, number: usize, reason: &str) -> (out: String)
    ensures
        out@ == "parse "@ + path@ + " line "@ + crate::numbers::decimal_of(number as nat) + ": "@
            + reason@,
{
    let place = concat4("parse ", path, " line ", decimal(number as u64).as_str());
    concat3(place.as_str(), ": ", reason)
}

// ---------------------------------------------------------------------------
// Laws
// ---------------------------------------------------------------------------

/// Whether nothing encrypted is left anywhere in `value`.
pub open spec fn is_clean(value: JsonModel) -> bool
    decreases value,
{
    match value {
        JsonModel::Array(items) => items_clean(items),
        JsonModel::Object(members) => members_clean(members),
        _ => true,
    }
}

/// Whether every item is clean and none is encrypted.
pub open spec fn items_clean(items: Seq<JsonModel>) -> bool
    decreases items,
{
    items.len() > 0 ==> items_clean(items.drop_last()) && is_clean(items[items.len() - 1])
        && !is_encrypted(items[items.len() - 1])
}

/// Whether every member is clean and none is named `encrypted_content`.
pub open spec fn members_clean(members: Seq<(Seq<char>, JsonModel)>) -> bool
    decreases members,
{
    members.len() > 0 ==> members_clean(members.drop_last()) && is_clean(
        members[members.len() - 1].1,
    ) && members[members.len() - 1].0 != "encrypted_content"@
}

/// Nothing encrypted is left by scrubbing.
pub proof fn scrubbing_leaves_nothing_encrypted(value: JsonModel)
    ensures
        is_clean(scrubbed(value)),
    decreases value,
{
    match value {
        JsonModel::Array(items) => {
            lemma_items_clean(items);
        },
        JsonModel::Object(members) => {
            lemma_members_clean(members);
        },
        _ => {},
    }
}

proof fn lemma_items_clean(items: Seq<JsonModel>)
    ensures
        items_clean(scrubbed_items(items)),
    decreases items,
{
    if items.len() > 0 {
        let rest = scrubbed_items(items.drop_last());
        let item = scrubbed(items[items.len() - 1]);
        lemma_items_clean(items.drop_last());
        scrubbing_leaves_nothing_encrypted(items[items.len() - 1]);
        assert(rest.push(item).drop_last() =~= rest);
    }
}

proof fn lemma_members_clean(members: Seq<(Seq<char>, JsonModel)>)
    ensures
        members_clean(scrubbed_members(members)),
    decreases members,
{
    if members.len() > 0 {
        let rest = scrubbed_members(members.drop_last());
        let last = members[members.len() - 1];
        lemma_members_clean(members.drop_last());
        scrubbing_leaves_nothing_encrypted(last.1);
        assert(rest.push((last.0, scrubbed(last.1))).drop_last() =~= rest);
    }
}

/// A value with nothing encrypted in it is left as it is.
pub proof fn scrubbing_keeps_clean_values(value: JsonModel)
    requires
        is_clean(value),
    ensures
        scrubbed(value) == value,
    decreases value,
{
    match value {
        JsonModel::Array(items) => {
            lemma_clean_items_kept(items);
        },
        JsonModel::Object(members) => {
            lemma_clean_members_kept(members);
        },
        _ => {},
    }
}

proof fn lemma_clean_items_kept(items: Seq<JsonModel>)
    requires
        items_clean(items),
    ensures
        scrubbed_items(items) == items,
    decreases items,
{
    if items.len() > 0 {
        let rest = items.drop_last();
        lemma_clean_items_kept(rest);
        scrubbing_keeps_clean_values(items[items.len() - 1]);
        assert(rest.push(items[items.len() - 1]) =~= items);
    } else {
        assert(items =~= seq![]);
    }
}

proof fn lemma_clean_members_kept(members: Seq<(Seq<char>, JsonModel)>)
    requires
        members_clean(members),
    ensures
        scrubbed_members(members) == members,
    decreases members,
{
    if members.len() > 0 {
        let rest = members.drop_last();
        lemma_clean_members_kept(rest);
        scrubbing_keeps_clean_values(members[members.len() - 1].1);
        assert(rest.push(members[members.len() - 1]) =~= members);
    } else {
        assert(members =~= seq![]);
    }
}

/// Scrubbing twice is scrubbing once.
pub proof fn scrubbing_is_idempotent(value: JsonModel)
    ensures
        scrubbed(scrubbed(value)) == scrubbed(value),
{
    scrubbing_leaves_nothing_encrypted(value);
    scrubbing_keeps_clean_values(scrubbed(value));
}

/// Every recorded item that is kept has a payload with nothing encrypted in it
/// and is no compaction.
pub proof fn kept_items_are_clean(
    line: JsonModel,
    payload: JsonModel,
    old_id: Seq<char>,
    new_id: Seq<char>,
    provider: Seq<char>,
)
    requires
        line.member_text("type"@) == Some("response_item"@),
        line.member("payload"@) == Some(payload),
        scrubbed_line(line, old_id, new_id, provider) is Some,
    ensures
        ({
            let kept = scrubbed_line(line, old_id, new_id, provider)->0;
            &&& kept.member("payload"@) == Some(scrubbed(payload))
            &&& is_clean(scrubbed(payload))
            &&& !is_compaction(scrubbed(payload))
        }),
{
    crate::json::lemma_put_lookup(line->Object_0, "payload"@, scrubbed(payload));
    scrubbing_leaves_nothing_encrypted(payload);
}

/// The head of a recording that named the old session names the new one and the
/// new provider.
pub proof fn recordings_are_readdressed(
    line: JsonModel,
    payload: JsonModel,
    old_id: Seq<char>,
    new_id: Seq<char>,
    provider: Seq<char>,
)
    requires
        line.member("payload"@) == Some(payload),
        payload is Object,
        payload.member_text("id"@) == Some(old_id),
        payload.member_text("session_id"@) == Some(old_id),
    ensures
        ({
            let moved = readdressed(line, old_id, new_id, provider).member("payload"@)->0;
            &&& moved.member_text("id"@) == Some(new_id)
            &&& moved.member_text("session_id"@) == Some(new_id)
            &&& moved.member_text("model_provider"@) == Some(provider)
        }),
{
    reveal_strlit("id");
    reveal_strlit("session_id");
    reveal_strlit("model_provider");
    assert("id"@.len() == 2);
    assert("session_id"@.len() == 10);
    assert("model_provider"@.len() == 14);
    let m0 = payload->Object_0;
    let new_text = JsonModel::Text(new_id);
    crate::json::lemma_put_lookup(m0, "id"@, new_text);
    crate::json::lemma_put_others(m0, "id"@, new_text, "session_id"@);
    let m1 = crate::json::put(m0, "id"@, new_text);
    crate::json::lemma_put_lookup(m1, "session_id"@, new_text);
    crate::json::lemma_put_others(m1, "session_id"@, new_text, "id"@);
    let m2 = crate::json::put(m1, "session_id"@, new_text);
    let p = JsonModel::Text(provider);
    crate::json::lemma_put_lookup(m2, "model_provider"@, p);
    crate::json::lemma_put_others(m2, "model_provider"@, p, "id"@);
    crate::json::lemma_put_others(m2, "model_provider"@, p, "session_id"@);
    let m3 = crate::json::put(m2, "model_provider"@, p);
    crate::json::lemma_put_lookup(line->Object_0, "payload"@, JsonModel::Object(m3));
}

proof fn lemma_pushed_lookup(
    members: Seq<(Seq<char>, JsonModel)>,
    last: (Seq<char>, JsonModel),
    key: Seq<char>,
)
    ensures
        crate::json::lookup(members.push(last), key) == (match crate::json::lookup(members, key) {
            Some(found) => Some(found),
            None => if last.0 == key {
                Some(last.1)
            } else {
                None
            },
        }),
    decreases members.len(),
{
    let all = members.push(last);
    if members.len() == 0 {
        assert(all.skip(1) =~= members);
    } else {
        assert(all[0] == members[0]);
        assert(all.skip(1) =~= members.skip(1).push(last));
        lemma_pushed_lookup(members.skip(1), last, key);
    }
}

proof fn lemma_scrubbed_lookup(members: Seq<(Seq<char>, JsonModel)>, key: Seq<char>)
    requires
        key != "encrypted_content"@,
    ensures
        crate::json::lookup(scrubbed_members(members), key) == (match crate::json::lookup(
            members,
            key,
        ) {
            Some(found) => Some(scrubbed(found)),
            None => None,
        }),
    decreases members.len(),
{
    if members.len() > 0 {
        let rest = members.drop_last();
        let last = members[members.len() - 1];
        lemma_scrubbed_lookup(rest, key);
        lemma_pushed_lookup(rest, last, key);
        assert(rest.push(last) =~= members);
        if last.0 != "encrypted_content"@ {
            lemma_pushed_lookup(scrubbed_members(rest), (last.0, scrubbed(last.1)), key);
        }
    }
}

/// Scrubbing an object takes the member `encrypted_content` out of it and no other:
/// each of those is scrubbed itself.
pub proof fn scrubbing_keeps_other_members(value: JsonModel, key: Seq<char>)
    requires
        key != "encrypted_content"@,
    ensures
        match value.member(key) {
            Some(found) => scrubbed(value).member(key) == Some(scrubbed(found)),
            None => scrubbed(value).member(key) is None,
        },
        scrubbed(value).member_text(key) == value.member_text(key),
{
    match value {
        JsonModel::Object(members) => {
            lemma_scrubbed_lookup(members, key);
        },
        _ => {},
    }
}

/// Scrubbing an array keeps its items in their order, each scrubbed, and takes out those
/// of the type `encrypted_content`: what is left of two arrays joined is what is left of
/// each, joined.
pub proof fn scrubbing_keeps_other_items(a: Seq<JsonModel>, b: Seq<JsonModel>, item: JsonModel)
    ensures
        scrubbed(JsonModel::Array(a + b)) == JsonModel::Array(
            scrubbed(JsonModel::Array(a))->Array_0 + scrubbed(JsonModel::Array(b))->Array_0,
        ),
        scrubbed(JsonModel::Array(seq![item])) == JsonModel::Array(
            if item.member_text("type"@) == Some("encrypted_content"@) {
                seq![]
            } else {
                seq![scrubbed(item)]
            },
        ),
        scrubbed(JsonModel::Array(seq![])) == JsonModel::Array(seq![]),
    decreases b.len(),
{
    reveal_strlit("type");
    reveal_strlit("encrypted_content");
    assert("type"@.len() == 4 && "encrypted_content"@.len() == 17);
    scrubbing_keeps_other_members(item, "type"@);
    assert(seq![item].drop_last() =~= seq![]);
    assert(scrubbed_items(seq![]) =~= seq![]);
    assert(scrubbed_items(seq![item]) =~= if item.member_text("type"@) == Some(
        "encrypted_content"@,
    ) {
        seq![]
    } else {
        seq![scrubbed(item)]
    }) by {
        assert(seq![item][0] == item);
    }
    if b.len() == 0 {
        assert(a + b =~= a);
        assert(b =~= seq![]);
        assert(scrubbed_items(a) + seq![] =~= scrubbed_items(a));
    } else {
        scrubbing_keeps_other_items(a, b.drop_last(), item);
        let all = a + b;
        assert(all.drop_last() =~= a + b.drop_last());
        assert(all[all.len() - 1] == b[b.len() - 1]);
        let kept = scrubbed(b[b.len() - 1]);
        assert(scrubbed_items(a) + scrubbed_items(b.drop_last()).push(kept) =~= (scrubbed_items(a)
            + scrubbed_items(b.drop_last())).push(kept));
    }
}

proof fn lemma_found_member(members: Seq<(Seq<char>, JsonModel)>, k: int)
    requires
        0 <= k < members.len(),
    ensures
        crate::json::lookup(members, members[k].0) is Some,
    decreases members.len(),
{
    if members[0].0 != members[k].0 {
        assert(members.skip(1)[k - 1] == members[k]);
        lemma_found_member(members.skip(1), k - 1);
    }
}

proof fn lemma_members_named(members: Seq<(Seq<char>, JsonModel)>, key: Seq<char>, other: Seq<char>)
    requires
        all_named(members, key),
        other != key,
    ensures
        crate::json::lookup(members, other) is None,
    decreases members.len(),
{
    if members.len() > 0 {
        assert forall|i: int| 0 <= i < members.skip(1).len() implies (#[trigger] members.skip(
            1,
        )[i]).0 == key by {
            assert(members.skip(1)[i] == members[i + 1]);
        }
        lemma_members_named(members.skip(1), key, other);
    }
}

proof fn lemma_only_type(payload: JsonModel)
    ensures
        only_type(payload) == (forall|key: Seq<char>|
            key != "type"@ ==> (#[trigger] payload.member(key)) is None),
{
    match payload {
        JsonModel::Object(members) => {
            if only_type(payload) {
                assert forall|key: Seq<char>| key != "type"@ implies (#[trigger] payload.member(
                    key,
                )) is None by {
                    lemma_members_named(members, "type"@, key);
                }
            } else {
                let k = choose|k: int| 0 <= k < members.len() && members[k].0 != "type"@;
                lemma_found_member(members, k);
                assert(payload.member(members[k].0) is Some);
            }
        },
        _ => {},
    }
}

/// Whether the member `key` is an array that holds something.
pub open spec fn holds_items(payload: JsonModel, key: Seq<char>) -> bool {
    payload.member(key) matches Some(JsonModel::Array(items)) && items.len() > 0
}

/// A recorded item is left out if it records a compaction, or if without what is
/// encrypted it holds nothing: a message of an agent with no content, reasoning with
/// neither summary nor content, a compaction of the context with nothing but its type.
/// Every other item is kept.
pub proof fn only_empty_items_are_left_out(
    line: JsonModel,
    payload: JsonModel,
    old_id: Seq<char>,
    new_id: Seq<char>,
    provider: Seq<char>,
)
    requires
        line.member_text("type"@) == Some("response_item"@),
        line.member("payload"@) == Some(payload),
    ensures
        scrubbed_line(line, old_id, new_id, provider) is None <==> {
            let rest = scrubbed(payload);
            let kind = payload.member_text("type"@);
            ||| kind == Some("compaction"@)
            ||| kind == Some("compaction_summary"@)
            ||| kind == Some("agent_message"@) && rest.member("content"@) == Some(
                JsonModel::Array(seq![]),
            )
            ||| kind == Some("reasoning"@) && !holds_items(rest, "summary"@) && !holds_items(
                rest,
                "content"@,
            )
            ||| kind == Some("context_compaction"@) && forall|key: Seq<char>|
                key != "type"@ ==> (#[trigger] rest.member(key)) is None
        },
{
    lemma_kinds();
    let rest = scrubbed(payload);
    reveal_strlit("type");
    reveal_strlit("encrypted_content");
    assert("type"@.len() == 4 && "encrypted_content"@.len() == 17);
    scrubbing_keeps_other_members(payload, "type"@);
    lemma_only_type(rest);
    match rest.member("content"@) {
        Some(JsonModel::Array(items)) => {
            if items.len() == 0 {
                assert(items =~= seq![]);
            }
        },
        _ => {},
    }
}

proof fn lemma_kinds()
    ensures
        "compaction"@ != "compaction_summary"@,
        "compaction"@ != "agent_message"@,
        "compaction"@ != "reasoning"@,
        "compaction"@ != "context_compaction"@,
        "compaction_summary"@ != "agent_message"@,
        "compaction_summary"@ != "reasoning"@,
        "compaction_summary"@ != "context_compaction"@,
        "agent_message"@ != "reasoning"@,
        "agent_message"@ != "context_compaction"@,
        "reasoning"@ != "context_compaction"@,
        "response_item"@ != "session_meta"@,
{
    reveal_strlit("compaction");
    reveal_strlit("compaction_summary");
    reveal_strlit("agent_message");
    reveal_strlit("reasoning");
    reveal_strlit("context_compaction");
    reveal_strlit("response_item");
    reveal_strlit("session_meta");
    assert("compaction"@.len() == 10);
    assert("compaction_summary"@.len() == 18);
    assert("agent_message"@.len() == 13);
    assert("reasoning"@.len() == 9);
    assert("context_compaction"@.len() == 18);
    assert("compaction_summary"@[2] == 'm' && "context_compaction"@[2] == 'n');
    assert("response_item"@.len() == 13);
    assert("session_meta"@.len() == 12);
}

proof fn lemma_put_same(members: Seq<(Seq<char>, JsonModel)>, key: Seq<char>, value: JsonModel)
    requires
        crate::json::lookup(members, key) == Some(value),
    ensures
        crate::json::put(members, key, value) == members,
    decreases members.len(),
{
    if members[0].0 == key {
        assert(seq![(key, value)] + members.skip(1) =~= members);
    } else {
        lemma_put_same(members.skip(1), key, value);
        assert(seq![members[0]] + members.skip(1) =~= members);
    }
}

/// The conversation stays: an item with nothing encrypted in it that is neither a
/// compaction nor of a kind that may be empty is recorded as it is.
pub proof fn conversations_are_kept(
    line: JsonModel,
    payload: JsonModel,
    old_id: Seq<char>,
    new_id: Seq<char>,
    provider: Seq<char>,
)
    requires
        line.member_text("type"@) == Some("response_item"@),
        line.member("payload"@) == Some(payload),
        is_clean(payload),
        payload.member_text("type"@) != Some("agent_message"@),
        payload.member_text("type"@) != Some("reasoning"@),
        payload.member_text("type"@) != Some("context_compaction"@),
        payload.member_text("type"@) != Some("compaction"@),
        payload.member_text("type"@) != Some("compaction_summary"@),
    ensures
        scrubbed_line(line, old_id, new_id, provider) == Some(line),
{
    scrubbing_keeps_clean_values(payload);
    lemma_put_same(line->Object_0, "payload"@, payload);
}

/// What is not encrypted stays: of a kept item only the payload is changed, and only by
/// scrubbing it. An item without a payload is kept as it is.
pub proof fn kept_items_change_only_their_payload(
    line: JsonModel,
    key: Seq<char>,
    old_id: Seq<char>,
    new_id: Seq<char>,
    provider: Seq<char>,
)
    requires
        line.member_text("type"@) == Some("response_item"@),
    ensures
        line.member("payload"@) is None ==> scrubbed_line(line, old_id, new_id, provider) == Some(
            line,
        ),
        scrubbed_line(line, old_id, new_id, provider) matches Some(kept) ==> {
            if key == "payload"@ {
                kept.member(key) == (match line.member(key) {
                    Some(payload) => Some(scrubbed(payload)),
                    None => None,
                })
            } else {
                kept.member(key) == line.member(key)
            }
        },
{
    match line.member("payload"@) {
        Some(payload) => {
            crate::json::lemma_put_lookup(line->Object_0, "payload"@, scrubbed(payload));
            if key != "payload"@ {
                crate::json::lemma_put_others(
                    line->Object_0,
                    "payload"@,
                    scrubbed(payload),
                    key,
                );
            }
        },
        None => {},
    }
}

/// Every line that is neither an item nor the head of a recording is kept, without what
/// is encrypted; one with nothing encrypted in it as it is.
pub proof fn other_lines_are_kept(
    line: JsonModel,
    old_id: Seq<char>,
    new_id: Seq<char>,
    provider: Seq<char>,
)
    requires
        line.member_text("type"@) != Some("response_item"@),
    ensures
        scrubbed_line(line, old_id, new_id, provider) is Some,
        is_clean(scrubbed_line(line, old_id, new_id, provider)->0),
        line.member_text("type"@) != Some("session_meta"@) ==> scrubbed_line(
            line,
            old_id,
            new_id,
            provider,
        ) == Some(scrubbed(line)),
        line.member_text("type"@) != Some("session_meta"@) && is_clean(line) ==> scrubbed_line(
            line,
            old_id,
            new_id,
            provider,
        ) == Some(line),
{
    scrubbing_leaves_nothing_encrypted(line);
    scrubbing_leaves_nothing_encrypted(readdressed(line, old_id, new_id, provider));
    if is_clean(line) {
        scrubbing_keeps_clean_values(line);
    }
}

proof fn lemma_renamed(
    payload: JsonModel,
    key: Seq<char>,
    old_text: Seq<char>,
    new_text: Seq<char>,
    other: Seq<char>,
)
    requires
        payload is Object,
    ensures
        renamed(payload, key, old_text, new_text) is Object,
        other != key ==> renamed(payload, key, old_text, new_text).member(other) == payload.member(
            other,
        ),
        renamed(payload, key, old_text, new_text).member(key) == (if payload.member_text(key)
            == Some(old_text) {
            Some(JsonModel::Text(new_text))
        } else {
            payload.member(key)
        }),
{
    crate::json::lemma_put_lookup(payload->Object_0, key, JsonModel::Text(new_text));
    if other != key {
        crate::json::lemma_put_others(
            payload->Object_0,
            key,
            JsonModel::Text(new_text),
            other,
        );
    }
}

/// The head of a recording is kept. In it the new provider takes the place of the old
/// one, and the new id takes the place of the old one where that is named; all else is
/// only scrubbed.
pub proof fn heads_name_the_new_session(
    line: JsonModel,
    payload: JsonModel,
    old_id: Seq<char>,
    new_id: Seq<char>,
    provider: Seq<char>,
    key: Seq<char>,
)
    requires
        line.member_text("type"@) == Some("session_meta"@),
        line.member("payload"@) == Some(payload),
        payload is Object,
        key != "encrypted_content"@,
    ensures
        scrubbed_line(line, old_id, new_id, provider) matches Some(kept) && {
            let before = payload.member(key);
            let after = kept.member("payload"@)->0.member(key);
            let names_it = (key == "id"@ || key == "session_id"@) && payload.member_text(key)
                == Some(old_id);
            &&& kept.member("payload"@) is Some
            &&& key != "payload"@ ==> kept.member(key) == (match line.member(key) {
                Some(found) => Some(scrubbed(found)),
                None => None,
            })
            &&& if key == "model_provider"@ {
                after == Some(JsonModel::Text(provider))
            } else if names_it {
                after == Some(JsonModel::Text(new_id))
            } else {
                after == (match before {
                    Some(found) => Some(scrubbed(found)),
                    None => None,
                })
            }
        },
{
    lemma_kinds();
    reveal_strlit("id");
    reveal_strlit("session_id");
    reveal_strlit("model_provider");
    reveal_strlit("payload");
    reveal_strlit("encrypted_content");
    assert("id"@.len() == 2);
    assert("session_id"@.len() == 10);
    assert("model_provider"@.len() == 14);
    assert("payload"@.len() == 7);
    assert("encrypted_content"@.len() == 17);
    let once = renamed(payload, "id"@, old_id, new_id);
    let twice = renamed(once, "session_id"@, old_id, new_id);
    lemma_renamed(payload, "id"@, old_id, new_id, key);
    lemma_renamed(payload, "id"@, old_id, new_id, "session_id"@);
    lemma_renamed(once, "session_id"@, old_id, new_id, key);
    lemma_renamed(once, "session_id"@, old_id, new_id, "id"@);
    let done = twice.with_member("model_provider"@, JsonModel::Text(provider));
    crate::json::lemma_put_lookup(twice->Object_0, "model_provider"@, JsonModel::Text(provider));
    if key != "model_provider"@ {
        crate::json::lemma_put_others(
            twice->Object_0,
            "model_provider"@,
            JsonModel::Text(provider),
            key,
        );
    }
    let moved = readdressed(line, old_id, new_id, provider);
    assert(moved == line.with_member("payload"@, done));
    crate::json::lemma_put_lookup(line->Object_0, "payload"@, done);
    if key != "payload"@ {
        crate::json::lemma_put_others(line->Object_0, "payload"@, done, key);
    }
    scrubbing_keeps_other_members(moved, "payload"@);
    scrubbing_keeps_other_members(moved, key);
    scrubbing_keeps_other_members(done, key);
}

/// A recording is scrubbed line by line, in order: that of two runs of lines is that of
/// the first with that of the second behind it, and fails with the first of them that
/// fails.
pub proof fn recordings_are_scrubbed_in_order(
    a: Seq<Seq<char>>,
    b: Seq<Seq<char>>,
    old_id: Seq<char>,
    new_id: Seq<char>,
    provider: Seq<char>,
)
    ensures
        scrubbed_recording(a + b, old_id, new_id, provider) == (match (
            scrubbed_recording(a, old_id, new_id, provider),
            scrubbed_recording(b, old_id, new_id, provider),
        ) {
            (Ok(head), Ok(tail)) => Ok::<Seq<char>, (nat, Seq<char>)>(head + tail),
            (Err((at, reason)), _) => Err::<Seq<char>, (nat, Seq<char>)>((at, reason)),
            (_, Err((at, reason))) => Err::<Seq<char>, (nat, Seq<char>)>((a.len() + at, reason)),
        }),
    decreases b.len(),
{
    if b.len() == 0 {
        assert(a + b =~= a);
        match scrubbed_recording(a, old_id, new_id, provider) {
            Ok(head) => {
                assert(head + seq![] =~= head);
            },
            Err(_) => {},
        }
    } else {
        recordings_are_scrubbed_in_order(a, b.drop_last(), old_id, new_id, provider);
        assert((a + b).drop_last() =~= a + b.drop_last());
        assert((a + b).last() == b.last());
        match (
            scrubbed_recording(a, old_id, new_id, provider),
            scrubbed_recording(b.drop_last(), old_id, new_id, provider),
            crate::json::json_parsed(b.last()),
        ) {
            (Ok(head), Ok(tail), Ok(line)) => match scrubbed_line(line, old_id, new_id, provider) {
                Some(kept) => {
                    let text = crate::json::json_text(crate::json::json_value(kept));
                    assert(((head + tail) + text).push('\n') =~= head + (tail + text).push('\n'));
                },
                None => {},
            },
            _ => {},
        }
    }
}

/// A blank line of a recording leaves nothing, one that is no JSON is an error, and of
/// any other the text of what is kept of it is recorded with a line end.
pub proof fn lines_are_recorded_one_by_one(
    text: Seq<char>,
    old_id: Seq<char>,
    new_id: Seq<char>,
    provider: Seq<char>,
)
    ensures
        scrubbed_recording(seq![text], old_id, new_id, provider) == (if crate::lines::trimmed(
            text,
        ).len() == 0 {
            Ok::<Seq<char>, (nat, Seq<char>)>(seq![])
        } else {
            match crate::json::json_parsed(text) {
                Err(reason) => Err::<Seq<char>, (nat, Seq<char>)>((1, reason)),
                Ok(line) => match scrubbed_line(line, old_id, new_id, provider) {
                    None => Ok(seq![]),
                    Some(kept) => Ok(
                        crate::json::json_text(crate::json::json_value(kept)) + seq!['\n'],
                    ),
                },
            }
        }),
{
    assert(seq![text].drop_last() =~= seq![]);
    assert(seq![text].last() == text);
    assert(scrubbed_recording(seq![], old_id, new_id, provider) == Ok::<
        Seq<char>,
        (nat, Seq<char>),
    >(seq![]));
    match crate::json::json_parsed(text) {
        Ok(line) => match scrubbed_line(line, old_id, new_id, provider) {
            Some(kept) => {
                let out = crate::json::json_text(crate::json::json_value(kept));
                assert((seq![] + out).push('\n') =~= out + seq!['\n']);
            },
            None => {},
        },
        Err(_) => {},
    }
}

} // verus!
