//! Going on with a session in another slot than the one it was recorded in.

use vstd::prelude::*;

use crate::format::two_digits;
use crate::hashes::hex;
use crate::numbers::decimal;
use crate::paths::join_path;
use crate::text::chars_of;
use crate::text::concat2;
use crate::text::concat4;
use crate::text::copy_of;
use crate::text::push_text;
use crate::text::same;
use crate::text::string_of;
use crate::textmap::TextMap;

verus! {

pub const STATE_DB_FILENAME: &'static str = "state_5.sqlite";

// ---------------------------------------------------------------------------
// Names of sessions
// ---------------------------------------------------------------------------

/// The name of a session that was asked for: that of a thread of the app or of a
/// session of Codex.
#[derive(Debug)]
pub enum ExplicitResumeId {
    AppThreadOrCodexSession(String),
}

impl View for ExplicitResumeId {
    type V = Seq<char>;

    open spec fn view(&self) -> Seq<char> {
        match self {
            ExplicitResumeId::AppThreadOrCodexSession(id) => id@,
        }
    }
}

impl ExplicitResumeId {
    /// Any text is a name.
    pub fn parse(raw: &str) -> (out: ExplicitResumeId)
        ensures
            out@ == raw@,
    {
        ExplicitResumeId::AppThreadOrCodexSession(copy_of(raw))
    }

    /// The name as text.
    pub fn as_str(&self) -> (out: &str)
        ensures
            out@ == self@,
    {
        match self {
            ExplicitResumeId::AppThreadOrCodexSession(id) => id.as_str(),
        }
    }
}

/// Whether a character is a hexadecimal digit.
pub open spec fn is_hex(c: char) -> bool {
    ('0' <= c <= '9') || ('a' <= c <= 'f') || ('A' <= c <= 'F')
}

/// Whether a dash stands at a place of a UUID.
pub open spec fn is_dash_place(i: int) -> bool {
    i == 8 || i == 13 || i == 18 || i == 23
}

/// Whether a character may stand at a place of a UUID.
pub open spec fn fits_uuid(c: char, i: int) -> bool {
    if is_dash_place(i) {
        c == '-'
    } else {
        is_hex(c)
    }
}

/// Whether text has the form of a UUID.
pub open spec fn is_uuid(text: Seq<char>) -> bool {
    text.len() == 36 && forall|i: int| 0 <= i < 36 ==> fits_uuid(#[trigger] text[i], i)
}

/// Whether text has the form of a UUID.
pub fn looks_like_uuid(value: &str) -> (out: bool)
    ensures
        out == is_uuid(value@),
{
    let chars = chars_of(value);
    if chars.len() != 36 {
        return false;
    }
    let mut i: usize = 0;
    while i < 36
        invariant
            i <= 36,
            chars@ == value@,
            chars.len() == 36,
            forall|j: int| 0 <= j < i ==> fits_uuid(#[trigger] chars@[j], j),
        decreases 36 - i,
    {
        let c = chars[i];
        let dash = i == 8 || i == 13 || i == 18 || i == 23;
        let digit = (c >= '0' && c <= '9') || (c >= 'a' && c <= 'f') || (c >= 'A' && c <= 'F');
        if (dash && c != '-') || (!dash && !digit) {
            proof {
                assert(!fits_uuid(chars@[i as int], i as int));
            }
            return false;
        }
        i += 1;
    }
    true
}

/// Sixteen bytes with the marks of a UUID of the fourth version.
pub open spec fn marked(bytes: Seq<u8>) -> Seq<u8> {
    bytes.update(6, (64 + bytes[6] % 16) as u8).update(8, (128 + bytes[8] % 64) as u8)
}

/// Thirty-two digits with dashes.
pub open spec fn dashed(digits: Seq<char>) -> Seq<char> {
    digits.subrange(0, 8) + seq!['-'] + digits.subrange(8, 12) + seq!['-'] + digits.subrange(
        12,
        16,
    ) + seq!['-'] + digits.subrange(16, 20) + seq!['-'] + digits.subrange(20, 32)
}

/// The UUID of sixteen random bytes.
pub open spec fn uuid_of(bytes: Seq<u8>) -> Seq<char> {
    dashed(crate::hashes::hex_of(marked(bytes)))
}

/// The UUID of sixteen random bytes.
pub fn new_uuid_v4(random: [u8; 16]) -> (out: String)
    ensures
        out@ == uuid_of(random@),
{
    let mut bytes: Vec<u8> = Vec::new();
    let mut i: usize = 0;
    while i < 16
        invariant
            i <= 16,
            bytes@ == random@.take(i as int),
        decreases 16 - i,
    {
        bytes.push(random[i]);
        proof {
            assert(random@.take(i + 1) =~= random@.take(i as int).push(random@[i as int]));
        }
        i += 1;
    }
    let version = bytes[6];
    let variant = bytes[8];
    proof {
        assert(random@.take(16) =~= random@);
        assert((version & 0x0f) | 0x40 == 64 + version % 16) by (bit_vector);
        assert((variant & 0x3f) | 0x80 == 128 + variant % 64) by (bit_vector);
    }
    bytes.set(6, (version & 0x0f) | 0x40);
    bytes.set(8, (variant & 0x3f) | 0x80);
    proof {
        assert(bytes@ =~= marked(random@));
    }
    let digits = hex(bytes.as_slice());
    let ghost all = digits@;
    let mut out: Vec<char> = Vec::new();
    let mut k: usize = 0;
    while k < 32
        invariant
            k <= 32,
            digits.len() == 32,
            all == digits@,
            out@ == (if k <= 8 {
                all.subrange(0, k as int)
            } else if k <= 12 {
                all.subrange(0, 8) + seq!['-'] + all.subrange(8, k as int)
            } else if k <= 16 {
                all.subrange(0, 8) + seq!['-'] + all.subrange(8, 12) + seq!['-'] + all.subrange(
                    12,
                    k as int,
                )
            } else if k <= 20 {
                all.subrange(0, 8) + seq!['-'] + all.subrange(8, 12) + seq!['-'] + all.subrange(
                    12,
                    16,
                ) + seq!['-'] + all.subrange(16, k as int)
            } else {
                all.subrange(0, 8) + seq!['-'] + all.subrange(8, 12) + seq!['-'] + all.subrange(
                    12,
                    16,
                ) + seq!['-'] + all.subrange(16, 20) + seq!['-'] + all.subrange(20, k as int)
            }),
        decreases 32 - k,
    {
        let ghost before = out@;
        if k == 8 || k == 12 || k == 16 || k == 20 {
            out.push('-');
        }
        out.push(digits[k]);
        proof {
            if k < 8 {
                assert(out@ =~= all.subrange(0, k + 1));
            } else if k < 12 {
                assert(out@ =~= all.subrange(0, 8) + seq!['-'] + all.subrange(8, k + 1));
            } else if k < 16 {
                assert(out@ =~= all.subrange(0, 8) + seq!['-'] + all.subrange(8, 12) + seq!['-']
                    + all.subrange(12, k + 1));
            } else if k < 20 {
                assert(out@ =~= all.subrange(0, 8) + seq!['-'] + all.subrange(8, 12) + seq!['-']
                    + all.subrange(12, 16) + seq!['-'] + all.subrange(16, k + 1));
            } else {
                assert(out@ =~= all.subrange(0, 8) + seq!['-'] + all.subrange(8, 12) + seq!['-']
                    + all.subrange(12, 16) + seq!['-'] + all.subrange(16, 20) + seq!['-']
                    + all.subrange(20, k + 1));
            }
        }
        k += 1;
    }
    string_of(&out)
}

// ---------------------------------------------------------------------------
// Finding the session
// ---------------------------------------------------------------------------

/// The session that is gone on with.
#[derive(Debug)]
pub struct PreparedResume {
    pub session_id: String,
    pub scrubbed: bool,
}

/// What is known of the session that was asked for.
#[derive(Clone, Copy, Debug, PartialEq, Eq, Structural)]
pub enum ResumeSeen {
    /// Nothing yet.
    Nothing,
    /// Whether the slot itself has it.
    Slot { has: bool },
    /// Whether another slot has it.
    Others { have: bool },
}

/// What is done next.
#[derive(Debug)]
pub enum ResumeStep {
    /// The session is there, or nowhere.
    Ready(PreparedResume),
    /// The slot is asked for it.
    AskSlot,
    /// The other slots are asked for it.
    AskOthers,
    /// A clean copy of it is made.
    Copy,
}

/// What is done next about a session that was asked for. Only text that has the form
/// of a UUID is looked for, first in the slot itself.
pub fn prepare_cross_slot_resume(requested: &str, seen: ResumeSeen) -> (out: ResumeStep)
    ensures
        match out {
            ResumeStep::Ready(ready) => (!is_uuid(requested@) || seen == (ResumeSeen::Slot {
                has: true,
            }) || seen == (ResumeSeen::Others { have: false })) && ready.session_id@ == requested@
                && !ready.scrubbed,
            ResumeStep::AskSlot => is_uuid(requested@) && seen == ResumeSeen::Nothing,
            ResumeStep::AskOthers => is_uuid(requested@) && seen == (ResumeSeen::Slot {
                has: false,
            }),
            ResumeStep::Copy => is_uuid(requested@) && seen == (ResumeSeen::Others { have: true }),
        },
{
    if !looks_like_uuid(requested) {
        return ResumeStep::Ready(
            PreparedResume { session_id: copy_of(requested), scrubbed: false },
        );
    }
    match seen {
        ResumeSeen::Nothing => ResumeStep::AskSlot,
        ResumeSeen::Slot { has } => if has {
            ResumeStep::Ready(PreparedResume { session_id: copy_of(requested), scrubbed: false })
        } else {
            ResumeStep::AskOthers
        },
        ResumeSeen::Others { have } => if have {
            ResumeStep::Copy
        } else {
            ResumeStep::Ready(PreparedResume { session_id: copy_of(requested), scrubbed: false })
        },
    }
}

/// A session that was copied.
pub fn copied_resume(new_session_id: &str) -> (out: PreparedResume)
    ensures
        out.session_id@ == new_session_id@,
        out.scrubbed,
{
    PreparedResume { session_id: copy_of(new_session_id), scrubbed: true }
}

/// Whether a slot is asked for a session of another one.
pub open spec fn is_source(names: Seq<Seq<char>>, target: Seq<char>, name: Seq<char>) -> bool {
    name != target && (name == "default"@ || names.contains(name))
}

/// Whether texts are in order, each of them once.
pub open spec fn is_listing(items: Seq<Seq<char>>) -> bool {
    forall|i: int, j: int|
        0 <= i < j < items.len() ==> crate::textmap::text_lt(
            #[trigger] items[i],
            #[trigger] items[j],
        )
}

spec fn is_listed_before(
    rows: Seq<(String, u8)>,
    k: int,
    target: Seq<char>,
    name: Seq<char>,
) -> bool {
    exists|m: int| 0 <= m < k && (#[trigger] rows[m]).0@ == name && name != target
}

/// The slots that are asked for a session, in order: the default one and those with a
/// home, without the slot itself.
pub fn source_slots(names: &Vec<String>, target: &str) -> (out: Vec<String>)
    ensures
        is_listing(crate::text::texts(out@)),
        forall|name: Seq<char>| #[trigger]
            crate::text::texts(out@).contains(name) <==> is_source(
                crate::text::texts(names@),
                target@,
                name,
            ),
{
    let ghost all = crate::text::texts(names@);
    let mut found: TextMap<u8> = TextMap::new();
    found.insert(copy_of("default"), 0);
    let mut i: usize = 0;
    while i < names.len()
        invariant
            i <= names.len(),
            all == crate::text::texts(names@),
            forall|name: Seq<char>| #[trigger]
                found@.dom().contains(name) <==> name == "default"@ || all.take(
                    i as int,
                ).contains(name),
        decreases names.len() - i,
    {
        let ghost before = found@;
        found.insert(names[i].clone(), 0);
        proof {
            let head = all.take(i as int);
            assert(all.take(i + 1) =~= head.push(all[i as int]));
            assert forall|name: Seq<char>| #[trigger]
                found@.dom().contains(name) <==> name == "default"@ || all.take(
                    i + 1,
                ).contains(name) by {
                assert(before.dom().contains(name) <==> name == "default"@ || head.contains(name));
                if head.contains(name) {
                    let k = head.index_of(name);
                    assert(all.take(i + 1)[k] == name);
                }
                if all.take(i + 1).contains(name) {
                    let k = all.take(i + 1).index_of(name);
                    if k < i {
                        assert(head[k] == name);
                    }
                }
                if name == all[i as int] {
                    assert(all.take(i + 1)[i as int] == name);
                }
            }
        }
        i += 1;
    }
    proof {
        assert(all.take(all.len() as int) =~= all);
    }
    let entries = found.entries();
    let ghost rows = entries@;
    let mut out: Vec<String> = Vec::new();
    let mut k: usize = 0;
    while k < entries.len()
        invariant
            k <= entries.len(),
            rows == entries@,
            crate::textmap::is_sorted(rows),
            is_listing(crate::text::texts(out@)),
            forall|j: int|
                0 <= j < out@.len() ==> is_listed_before(
                    rows,
                    k as int,
                    target@,
                    (#[trigger] out@[j])@,
                ),
            forall|m: int|
                0 <= m < k && (#[trigger] rows[m]).0@ != target@ ==> crate::text::texts(
                    out@,
                ).contains(rows[m].0@),
        decreases entries.len() - k,
    {
        let ghost listed = crate::text::texts(out@);
        let ghost old_out = out@;
        if !same(entries[k].0.as_str(), target) {
            push_text(&mut out, entries[k].0.clone());
            proof {
                let now = crate::text::texts(out@);
                let new = rows[k as int].0@;
                assert(now == listed.push(new));
                assert forall|a: int, b: int| 0 <= a < b < now.len() implies crate::textmap::text_lt(
                    #[trigger] now[a],
                    #[trigger] now[b],
                ) by {
                    if b == listed.len() {
                        assert(listed[a] == old_out[a]@);
                        assert(is_listed_before(rows, k as int, target@, old_out[a]@));
                    } else {
                        assert(now[a] == listed[a] && now[b] == listed[b]);
                    }
                }
                assert forall|j: int| 0 <= j < out@.len() implies is_listed_before(
                    rows,
                    k + 1,
                    target@,
                    (#[trigger] out@[j])@,
                ) by {
                    assert(now[j] == out@[j]@);
                    if j < listed.len() {
                        assert(listed[j] == old_out[j]@);
                        assert(is_listed_before(rows, k as int, target@, old_out[j]@));
                    } else {
                        assert(rows[k as int].0@ == out@[j]@);
                    }
                }
                assert forall|m: int| 0 <= m < k + 1 && (#[trigger] rows[m]).0@ != target@ implies now
                    .contains(rows[m].0@) by {
                    if m < k {
                        let j = listed.index_of(rows[m].0@);
                        assert(now[j] == rows[m].0@);
                    } else {
                        assert(now[listed.len() as int] == new);
                    }
                }
            }
        }
        k += 1;
    }
    proof {
        let now = crate::text::texts(out@);
        assert forall|name: Seq<char>| #[trigger] now.contains(name) <==> is_source(
            all,
            target@,
            name,
        ) by {
            if now.contains(name) {
                let j = now.index_of(name);
                assert(now[j] == out@[j]@);
                assert(is_listed_before(rows, rows.len() as int, target@, out@[j]@));
                let m = choose|m: int|
                    0 <= m < rows.len() && (#[trigger] rows[m]).0@ == name && name != target@;
                crate::textmap::lemma_position(rows, m);
                assert(found@.dom().contains(name));
            }
            if is_source(all, target@, name) {
                assert(found@.dom().contains(name));
                assert(crate::textmap::has_key(rows, name));
                let m = crate::textmap::key_position(rows, name);
                assert(rows[m].0@ == name);
            }
        }
    }
    out
}

/// Where the threads of a slot are listed.
pub fn thread_database(slot_home: &str) -> (out: String)
    ensures
        out@ == crate::paths::joined_path(
            crate::paths::joined_path(slot_home@, "sqlite"@),
            "state_5.sqlite"@,
        ),
{
    join_path(join_path(slot_home, "sqlite").as_str(), STATE_DB_FILENAME)
}

/// The provider of a slot.
pub fn target_model_provider(provider: &Option<String>) -> (out: String)
    ensures
        out@ == (match provider {
            Some(name) => name@,
            None => "openai"@,
        }),
{
    match provider {
        Some(name) => name.clone(),
        None => copy_of("openai"),
    }
}

// ---------------------------------------------------------------------------
// The copy
// ---------------------------------------------------------------------------

/// A moment of the calendar.
#[derive(Clone, Copy, Debug)]
pub struct CalendarTime {
    pub year: u32,
    pub month: u8,
    pub day: u8,
    pub hour: u8,
    pub minute: u8,
    pub second: u8,
}

/// A year of at least four digits.
pub open spec fn year_of(year: nat) -> Seq<char> {
    if year < 10 {
        "000"@ + crate::numbers::decimal_of(year)
    } else if year < 100 {
        "00"@ + crate::numbers::decimal_of(year)
    } else if year < 1000 {
        "0"@ + crate::numbers::decimal_of(year)
    } else {
        crate::numbers::decimal_of(year)
    }
}

fn year_text(year: u32) -> (out: String)
    ensures
        out@ == year_of(year as nat),
{
    let digits = decimal(year as u64);
    if year < 10 {
        concat2("000", digits.as_str())
    } else if year < 100 {
        concat2("00", digits.as_str())
    } else if year < 1000 {
        concat2("0", digits.as_str())
    } else {
        digits
    }
}

/// The directory of the copies of a day.
pub open spec fn copies_of_day(slot_home: Seq<char>, now: CalendarTime) -> Seq<char> {
    let all = crate::paths::joined_path(slot_home, "cx-scrubbed-sessions"@);
    let year = crate::paths::joined_path(all, crate::numbers::decimal_of(now.year as nat));
    let month = crate::paths::joined_path(year, crate::format::two_digits_of(now.month as nat));
    crate::paths::joined_path(month, crate::format::two_digits_of(now.day as nat))
}

/// The directory of the copies of a day.
pub fn scrubbed_dir(slot_home: &str, now: CalendarTime) -> (out: String)
    ensures
        out@ == copies_of_day(slot_home@, now),
{
    let all = join_path(slot_home, "cx-scrubbed-sessions");
    let year = join_path(all.as_str(), decimal(now.year as u64).as_str());
    let month = join_path(year.as_str(), two_digits(now.month as u64).as_str());
    join_path(month.as_str(), two_digits(now.day as u64).as_str())
}

/// The name of a copy.
pub open spec fn copy_name(now: CalendarTime, id: Seq<char>) -> Seq<char> {
    "rollout-"@ + year_of(now.year as nat) + "-"@ + crate::format::two_digits_of(now.month as nat)
        + "-"@ + crate::format::two_digits_of(now.day as nat) + "T"@
        + crate::format::two_digits_of(now.hour as nat) + "-"@ + crate::format::two_digits_of(
        now.minute as nat,
    ) + "-"@ + crate::format::two_digits_of(now.second as nat) + "-"@ + id + ".jsonl"@
}

/// Where a copy is written.
pub fn scrubbed_path(slot_home: &str, now: CalendarTime, id: &str) -> (out: String)
    ensures
        out@ == crate::paths::joined_path(copies_of_day(slot_home@, now), copy_name(now, id@)),
{
    let year = concat4(
        "rollout-",
        year_text(now.year).as_str(),
        "-",
        two_digits(now.month as u64).as_str(),
    );
    let day = concat4(year.as_str(), "-", two_digits(now.day as u64).as_str(), "T");
    let hour = concat4(
        day.as_str(),
        two_digits(now.hour as u64).as_str(),
        "-",
        two_digits(now.minute as u64).as_str(),
    );
    let second = concat4(hour.as_str(), "-", two_digits(now.second as u64).as_str(), "-");
    let name = crate::text::concat3(second.as_str(), id, ".jsonl");
    join_path(scrubbed_dir(slot_home, now).as_str(), name.as_str())
}

/// A thread as it is listed.
#[derive(Debug)]
pub struct ThreadRow {
    pub id: String,
    pub rollout_path: String,
    pub created_at: i64,
    pub updated_at: i64,
    pub source: String,
    pub model_provider: String,
    pub cwd: String,
    pub title: String,
    pub sandbox_policy: String,
    pub approval_mode: String,
    pub tokens_used: i64,
    pub has_user_event: i64,
    pub archived: i64,
    pub archived_at: Option<i64>,
    pub git_sha: Option<String>,
    pub git_branch: Option<String>,
    pub git_origin_url: Option<String>,
    pub cli_version: String,
    pub first_user_message: String,
    pub agent_nickname: Option<String>,
    pub agent_role: Option<String>,
    pub memory_mode: String,
    pub model: Option<String>,
    pub reasoning_effort: Option<String>,
    pub agent_path: Option<String>,
    pub created_at_ms: Option<i64>,
    pub updated_at_ms: Option<i64>,
    pub thread_source: Option<String>,
    pub preview: String,
    pub recency_at: i64,
    pub recency_at_ms: i64,
}

/// The thread of a copy. Only its name, place, provider and title are new.
pub fn scrubbed_thread(source: ThreadRow, id: &str, rollout_path: &str, provider: &str) -> (out:
    ThreadRow)
    ensures
        out.id@ == id@,
        out.rollout_path@ == rollout_path@,
        out.model_provider@ == provider@,
        out.title@ == source.title@ + " (scrubbed)"@,
        out == (ThreadRow {
            id: out.id,
            rollout_path: out.rollout_path,
            model_provider: out.model_provider,
            title: out.title,
            ..source
        }),
{
    let mut row = source;
    row.id = copy_of(id);
    row.rollout_path = copy_of(rollout_path);
    row.model_provider = copy_of(provider);
    row.title = concat2(row.title.as_str(), " (scrubbed)");
    row
}

// ---------------------------------------------------------------------------
// Laws
// ---------------------------------------------------------------------------

proof fn lemma_hex(bytes: Seq<u8>)
    ensures
        crate::hashes::hex_of(bytes).len() == 2 * bytes.len(),
        forall|i: int|
            0 <= i < 2 * bytes.len() ==> is_hex(#[trigger] crate::hashes::hex_of(bytes)[i]),
    decreases bytes.len(),
{
    if bytes.len() > 0 {
        lemma_hex(bytes.drop_last());
    }
}

/// A new name has the form of a UUID, and of the fourth version.
pub proof fn new_names_are_uuids(bytes: Seq<u8>)
    requires
        bytes.len() == 16,
    ensures
        is_uuid(uuid_of(bytes)),
        uuid_of(bytes)[14] == '4',
{
    let digits = crate::hashes::hex_of(marked(bytes));
    lemma_hex(marked(bytes));
    let text = uuid_of(bytes);
    assert(text.len() == 36);
    assert forall|i: int| 0 <= i < 36 implies fits_uuid(#[trigger] text[i], i) by {
        let k = if i < 8 {
            i
        } else if i < 13 {
            i - 1
        } else if i < 18 {
            i - 2
        } else if i < 23 {
            i - 3
        } else {
            i - 4
        };
        if !is_dash_place(i) {
            assert(text[i] == digits[k]);
            assert(is_hex(digits[k]));
        }
    }
    assert(text[14] == digits[12]);
    lemma_hex_at(marked(bytes), 6);
    assert(marked(bytes)[6] == 64 + bytes[6] % 16);
}

proof fn lemma_hex_at(bytes: Seq<u8>, k: int)
    requires
        0 <= k < bytes.len(),
    ensures
        crate::hashes::hex_of(bytes).len() == 2 * bytes.len(),
        crate::hashes::hex_of(bytes)[2 * k] == crate::hashes::hex_digit(bytes[k] as int / 16),
    decreases bytes.len(),
{
    lemma_hex(bytes);
    lemma_hex(bytes.drop_last());
    if k < bytes.len() - 1 {
        assert(bytes.drop_last()[k] == bytes[k]);
        lemma_hex_at(bytes.drop_last(), k);
    }
}

/// A copy lies in a directory of its day below the home, and its file's name holds the
/// session's.
pub proof fn copies_are_named_for_their_session(now: CalendarTime, id: Seq<char>)
    ensures
        crate::text::has_prefix(copy_name(now, id), "rollout-"@),
        crate::text::has_suffix(copy_name(now, id), "-"@ + id + ".jsonl"@),
{
    let name = copy_name(now, id);
    let tail = "-"@ + id + ".jsonl"@;
    assert(name.take("rollout-"@.len() as int) =~= "rollout-"@);
    assert(name.skip(name.len() - tail.len()) =~= tail);
}

/// A session's name has five groups of hexadecimal digits with dashes between them.
pub proof fn names_are_digits_and_dashes(text: Seq<char>, i: int)
    requires
        is_uuid(text),
        0 <= i < text.len(),
    ensures
        text.len() == 36,
        (i == 8 || i == 13 || i == 18 || i == 23) ==> text[i] == '-',
        !(i == 8 || i == 13 || i == 18 || i == 23) ==> ('0' <= text[i] <= '9') || ('a' <= text[i]
            <= 'f') || ('A' <= text[i] <= 'F'),
{
    assert(fits_uuid(text[i], i));
}

/// A text of that shape is taken for a session's name.
pub proof fn digits_and_dashes_are_names(text: Seq<char>)
    requires
        text.len() == 36,
        text[8] == '-' && text[13] == '-' && text[18] == '-' && text[23] == '-',
        forall|i: int|
            0 <= i < 36 && i != 8 && i != 13 && i != 18 && i != 23 ==> ('0' <= #[trigger] text[i]
                <= '9') || ('a' <= text[i] <= 'f') || ('A' <= text[i] <= 'F'),
    ensures
        is_uuid(text),
{
}

/// Bytes that differ anywhere but in the places that mark a name give marked bytes
/// that differ; those two places hold the mark.
pub proof fn random_bytes_are_kept(bytes: Seq<u8>, i: int)
    requires
        bytes.len() == 16,
        0 <= i < 16,
    ensures
        marked(bytes).len() == 16,
        i != 6 && i != 8 ==> marked(bytes)[i] == bytes[i],
        marked(bytes)[6] / 16 == 4 && marked(bytes)[6] % 16 == bytes[6] % 16,
        marked(bytes)[8] / 64 == 2 && marked(bytes)[8] % 64 == bytes[8] % 64,
{
}

/// A session is sought in every slot but the one that it is for, the default slot
/// among them.
pub proof fn sessions_are_sought_elsewhere(
    names: Seq<Seq<char>>,
    target: Seq<char>,
    name: Seq<char>,
)
    ensures
        !is_source(names, target, target),
        names.contains(name) && name != target ==> is_source(names, target, name),
        target != "default"@ ==> is_source(names, target, "default"@),
        !names.contains(name) && name != "default"@ ==> !is_source(names, target, name),
{
}

} // verus!
