//! Sessions: who may write to a conversation, and the journal of what happened.

use vstd::prelude::*;

use crate::hashes::hex;
use crate::hashes::sha1;
use crate::lines::split_lines;
use crate::lines::trim;
use crate::numbers::decimal;
use crate::numbers::decimal_wide;
use crate::paths::extension;
use crate::paths::ManagerPaths;
use crate::sorting::reversed;
use crate::sorting::sort_items;
use crate::text::chars_of;
use crate::text::concat2;
use crate::text::concat3;
use crate::text::concat4;
use crate::text::copy_of;
use crate::text::same;
use crate::text::string_of;
use crate::text::text_starts_with;
use crate::textmap::place;
use crate::textmap::Place;

verus! {

pub const SESSION_SCHEMA_VERSION: u64 = 1;

pub const JOURNAL_SCHEMA_VERSION: u64 = 1;

// ---------------------------------------------------------------------------
// Names
// ---------------------------------------------------------------------------

/// The number of bytes of a text.
pub open spec fn byte_len(text: Seq<char>) -> nat {
    vstd::utf8::encode_utf8(text).len()
}

/// Whether a character may stand in a name behind its prefix.
pub open spec fn is_id_char(c: char) -> bool {
    ('a' <= c <= 'z') || ('0' <= c <= '9') || c == '-'
}

/// Whether a text is more than `prefix` and starts with it.
pub open spec fn is_prefixed(raw: Seq<char>, prefix: Seq<char>) -> bool {
    crate::text::has_prefix(raw, prefix) && raw.len() > prefix.len()
}

/// Whether a text is a name with `prefix`.
pub open spec fn is_id(raw: Seq<char>, prefix: Seq<char>) -> bool {
    &&& is_prefixed(raw, prefix)
    &&& byte_len(raw) <= 96
    &&& forall|i: int| prefix.len() <= i < raw.len() ==> is_id_char(#[trigger] raw[i])
}

/// Why a text is not a name with `prefix`.
pub open spec fn id_refusal(raw: Seq<char>, label: Seq<char>, prefix: Seq<char>) -> Seq<char> {
    if !is_prefixed(raw, prefix) {
        label + " must start with "@ + prefix
    } else if byte_len(raw) > 96 {
        label + " is too long"@
    } else {
        label + " contains unsupported characters"@
    }
}

/// Reads a name.
pub fn parse_id(raw: &str, label: &str, prefix: &str) -> (out: Result<String, String>)
    ensures
        match out {
            Ok(text) => text@ == raw@ && is_id(raw@, prefix@),
            Err(message) => !is_id(raw@, prefix@) && message@ == id_refusal(
                raw@,
                label@,
                prefix@,
            ),
        },
{
    let chars = chars_of(raw);
    let start: usize = prefix.unicode_len();
    if chars.len() <= start || !text_starts_with(raw, prefix) {
        return Err(concat3(label, " must start with ", prefix));
    }
    if raw.as_bytes().len() > 96 {
        return Err(concat2(label, " is too long"));
    }
    let mut i: usize = start;
    while i < chars.len()
        invariant
            start <= i <= chars.len(),
            start == prefix@.len(),
            chars@ == raw@,
            is_prefixed(raw@, prefix@),
            byte_len(raw@) <= 96,
            forall|j: int| start <= j < i ==> is_id_char(#[trigger] raw@[j]),
        decreases chars.len() - i,
    {
        let c = chars[i];
        if !((c >= 'a' && c <= 'z') || (c >= '0' && c <= '9') || c == '-') {
            proof {
                assert(!is_id_char(raw@[i as int]));
            }
            return Err(concat2(label, " contains unsupported characters"));
        }
        i += 1;
    }
    Ok(copy_of(raw))
}

/// The name of a session.
#[derive(Debug)]
pub struct SessionId {
    text: String,
}

impl View for SessionId {
    type V = Seq<char>;

    closed spec fn view(&self) -> Seq<char> {
        self.text@
    }
}

impl SessionId {
    #[verifier::type_invariant]
    spec fn inv(self) -> bool {
        is_id(self.text@, "sess_"@)
    }

    /// Reads the name of a session.
    pub fn parse(raw: &str) -> (out: Result<SessionId, String>)
        ensures
            match out {
                Ok(id) => id@ == raw@ && is_id(raw@, "sess_"@),
                Err(message) => !is_id(raw@, "sess_"@) && message@ == id_refusal(
                    raw@,
                    "session id"@,
                    "sess_"@,
                ),
            },
    {
        match parse_id(raw, "session id", "sess_") {
            Ok(text) => Ok(SessionId { text }),
            Err(message) => Err(message),
        }
    }

    /// The name as text.
    pub fn as_str(&self) -> (out: &str)
        ensures
            out@ == self@,
            is_id(out@, "sess_"@),
    {
        proof {
            use_type_invariant(self);
        }
        self.text.as_str()
    }

    /// The same name.
    pub fn copy(&self) -> (out: SessionId)
        ensures
            out@ == self@,
    {
        proof {
            use_type_invariant(self);
        }
        SessionId { text: self.text.clone() }
    }
}

/// Whether a character may stand in the name of a channel.
pub open spec fn is_channel_char(c: char) -> bool {
    ('a' <= c <= 'z') || ('A' <= c <= 'Z') || ('0' <= c <= '9') || c == '_' || c == '-' || c == '.'
        || c == ':'
}

/// Whether a text is the name of a channel.
pub open spec fn is_channel(raw: Seq<char>) -> bool {
    &&& raw.len() > 0
    &&& byte_len(raw) <= 128
    &&& forall|i: int| 0 <= i < raw.len() ==> is_channel_char(#[trigger] raw[i])
}

/// Why a text is not the name of a channel.
pub open spec fn channel_refusal(raw: Seq<char>) -> Seq<char> {
    if raw.len() == 0 {
        "channel id must not be empty"@
    } else if byte_len(raw) > 128 {
        "channel id is too long"@
    } else {
        "channel id contains unsupported characters"@
    }
}

/// The name of a channel.
#[derive(Debug)]
pub struct ChannelId {
    text: String,
}

impl View for ChannelId {
    type V = Seq<char>;

    closed spec fn view(&self) -> Seq<char> {
        self.text@
    }
}

impl ChannelId {
    #[verifier::type_invariant]
    spec fn inv(self) -> bool {
        is_channel(self.text@)
    }

    /// Reads the name of a channel.
    pub fn parse(raw: &str) -> (out: Result<ChannelId, String>)
        ensures
            match out {
                Ok(id) => id@ == raw@ && is_channel(raw@),
                Err(message) => !is_channel(raw@) && message@ == channel_refusal(raw@),
            },
    {
        let chars = chars_of(raw);
        if chars.len() == 0 {
            return Err(copy_of("channel id must not be empty"));
        }
        if raw.as_bytes().len() > 128 {
            return Err(copy_of("channel id is too long"));
        }
        let mut i: usize = 0;
        while i < chars.len()
            invariant
                i <= chars.len(),
                chars@ == raw@,
                raw@.len() > 0,
                byte_len(raw@) <= 128,
                forall|j: int| 0 <= j < i ==> is_channel_char(#[trigger] raw@[j]),
            decreases chars.len() - i,
        {
            let c = chars[i];
            if !((c >= 'a' && c <= 'z') || (c >= 'A' && c <= 'Z') || (c >= '0' && c <= '9') || c
                == '_' || c == '-' || c == '.' || c == ':') {
                proof {
                    assert(!is_channel_char(raw@[i as int]));
                }
                return Err(copy_of("channel id contains unsupported characters"));
            }
            i += 1;
        }
        Ok(ChannelId { text: copy_of(raw) })
    }

    /// The name as text.
    pub fn as_str(&self) -> (out: &str)
        ensures
            out@ == self@,
            is_channel(out@),
    {
        proof {
            use_type_invariant(self);
        }
        self.text.as_str()
    }

    /// The same name.
    pub fn copy(&self) -> (out: ChannelId)
        ensures
            out@ == self@,
    {
        proof {
            use_type_invariant(self);
        }
        ChannelId { text: self.text.clone() }
    }
}

/// The name of an event.
#[derive(Debug)]
pub struct EventId {
    text: String,
}

impl View for EventId {
    type V = Seq<char>;

    closed spec fn view(&self) -> Seq<char> {
        self.text@
    }
}

impl EventId {
    #[verifier::type_invariant]
    spec fn inv(self) -> bool {
        is_id(self.text@, "evt_"@)
    }

    /// Reads the name of an event.
    pub fn parse(raw: &str) -> (out: Result<EventId, String>)
        ensures
            match out {
                Ok(id) => id@ == raw@ && is_id(raw@, "evt_"@),
                Err(message) => !is_id(raw@, "evt_"@) && message@ == id_refusal(
                    raw@,
                    "event id"@,
                    "evt_"@,
                ),
            },
    {
        match parse_id(raw, "event id", "evt_") {
            Ok(text) => Ok(EventId { text }),
            Err(message) => Err(message),
        }
    }

    /// The name as text.
    pub fn as_str(&self) -> (out: &str)
        ensures
            out@ == self@,
            is_id(out@, "evt_"@),
    {
        proof {
            use_type_invariant(self);
        }
        self.text.as_str()
    }

    /// The same name.
    pub fn copy(&self) -> (out: EventId)
        ensures
            out@ == self@,
    {
        proof {
            use_type_invariant(self);
        }
        EventId { text: self.text.clone() }
    }
}

/// What the holder of a lease shows to prove it.
#[derive(Debug)]
pub struct LeaseToken {
    text: String,
}

impl View for LeaseToken {
    type V = Seq<char>;

    closed spec fn view(&self) -> Seq<char> {
        self.text@
    }
}

impl LeaseToken {
    #[verifier::type_invariant]
    spec fn inv(self) -> bool {
        is_id(self.text@, "lease_"@)
    }

    /// Reads the token of a lease.
    pub fn parse(raw: &str) -> (out: Result<LeaseToken, String>)
        ensures
            match out {
                Ok(token) => token@ == raw@ && is_id(raw@, "lease_"@),
                Err(message) => !is_id(raw@, "lease_"@) && message@ == id_refusal(
                    raw@,
                    "lease token"@,
                    "lease_"@,
                ),
            },
    {
        match parse_id(raw, "lease token", "lease_") {
            Ok(text) => Ok(LeaseToken { text }),
            Err(message) => Err(message),
        }
    }

    /// The token as text.
    pub fn as_str(&self) -> (out: &str)
        ensures
            out@ == self@,
            is_id(out@, "lease_"@),
    {
        proof {
            use_type_invariant(self);
        }
        self.text.as_str()
    }

    /// The same token.
    pub fn copy(&self) -> (out: LeaseToken)
        ensures
            out@ == self@,
    {
        proof {
            use_type_invariant(self);
        }
        LeaseToken { text: self.text.clone() }
    }
}

// ---------------------------------------------------------------------------
// New names
// ---------------------------------------------------------------------------

/// What makes a new name differ from others: the process, a count of the names that
/// it made, and the time.
#[derive(Clone, Copy, Debug)]
pub struct IdSeed {
    pub process: u32,
    pub counter: u64,
    pub now_nanos: u128,
}

/// The bytes whose digest a new name holds.
pub open spec fn seed_bytes(kind: Seq<char>, manager_dir: Seq<char>, seed: IdSeed) -> Seq<u8> {
    vstd::utf8::encode_utf8(kind) + seq![0u8] + vstd::utf8::encode_utf8(manager_dir) + seq![0u8]
        + vstd::utf8::encode_utf8(crate::numbers::decimal_of(seed.process as nat)) + seq![0u8]
        + vstd::utf8::encode_utf8(crate::numbers::decimal_of(seed.counter as nat)) + seq![0u8]
        + vstd::utf8::encode_utf8(crate::numbers::decimal_of(seed.now_nanos as nat))
}

/// The digest that a new name holds.
pub open spec fn digest_text(kind: Seq<char>, manager_dir: Seq<char>, seed: IdSeed) -> Seq<char> {
    crate::hashes::hex_of(crate::hashes::sha1_of(seed_bytes(kind, manager_dir, seed)))
}

fn push_bytes(out: &mut Vec<u8>, text: &str)
    ensures
        final(out)@ == old(out)@ + vstd::utf8::encode_utf8(text@),
{
    let bytes = text.as_bytes();
    let mut i: usize = 0;
    proof {
        assert(out@ =~= old(out)@ + bytes@.take(0));
    }
    while i < bytes.len()
        invariant
            i <= bytes.len(),
            bytes@ == vstd::utf8::encode_utf8(text@),
            out@ == old(out)@ + bytes@.take(i as int),
        decreases bytes.len() - i,
    {
        out.push(bytes[i]);
        proof {
            assert(old(out)@ + bytes@.take(i + 1) =~= (old(out)@ + bytes@.take(i as int)).push(
                bytes@[i as int],
            ));
        }
        i += 1;
    }
    proof {
        assert(bytes@.take(bytes@.len() as int) =~= bytes@);
    }
}

fn push_zero(out: &mut Vec<u8>)
    ensures
        final(out)@ == old(out)@ + seq![0u8],
{
    out.push(0);
    proof {
        assert(out@ =~= old(out)@ + seq![0u8]);
    }
}

/// The digest that a new name holds.
pub fn stable_digest(kind: &str, paths: &ManagerPaths, seed: IdSeed) -> (out: String)
    ensures
        out@ == digest_text(kind@, paths.manager_dir@, seed),
        out@.len() == 40,
{
    let mut bytes: Vec<u8> = Vec::new();
    push_bytes(&mut bytes, kind);
    proof {
        assert(bytes@ =~= vstd::utf8::encode_utf8(kind@));
    }
    push_zero(&mut bytes);
    push_bytes(&mut bytes, paths.manager_dir.as_str());
    push_zero(&mut bytes);
    push_bytes(&mut bytes, decimal(seed.process as u64).as_str());
    push_zero(&mut bytes);
    push_bytes(&mut bytes, decimal(seed.counter).as_str());
    push_zero(&mut bytes);
    push_bytes(&mut bytes, decimal_wide(seed.now_nanos).as_str());
    string_of(&hex(sha1(bytes.as_slice()).as_slice()))
}

proof fn lemma_hex_chars(bytes: Seq<u8>)
    ensures
        crate::hashes::hex_of(bytes).len() == 2 * bytes.len(),
        forall|i: int|
            0 <= i < crate::hashes::hex_of(bytes).len() ==> is_id_char(
                #[trigger] crate::hashes::hex_of(bytes)[i],
            ),
    decreases bytes.len(),
{
    if bytes.len() > 0 {
        lemma_hex_chars(bytes.drop_last());
    }
}

/// A digest behind a short prefix of plain letters is a name.
proof fn lemma_digest_is_id(prefix: Seq<char>, bytes: Seq<u8>)
    requires
        prefix.len() <= 10,
        vstd::utf8::is_ascii_chars(prefix),
        crate::hashes::hex_of(bytes).len() == 40,
    ensures
        is_id(prefix + crate::hashes::hex_of(bytes), prefix),
{
    let digest = crate::hashes::hex_of(bytes);
    let raw = prefix + digest;
    lemma_hex_chars(bytes);
    assert(raw.take(prefix.len() as int) =~= prefix);
    assert forall|i: int| 0 <= i < raw.len() implies '\0' <= #[trigger] raw[i] <= '\u{7f}' by {
        if i >= prefix.len() {
            assert(is_id_char(digest[i - prefix.len()]));
        } else {
            assert(raw[i] == prefix[i]);
        }
    }
    vstd::utf8::is_ascii_chars_encode_utf8(raw);
    assert forall|i: int| prefix.len() <= i < raw.len() implies is_id_char(#[trigger] raw[i]) by {
        assert(raw[i] == digest[i - prefix.len()]);
    }
}

/// A new name for a session.
pub fn new_session_id(paths: &ManagerPaths, seed: IdSeed) -> (out: SessionId)
    ensures
        out@ == "sess_"@ + digest_text("session"@, paths.manager_dir@, seed),
{
    let text = concat2("sess_", stable_digest("session", paths, seed).as_str());
    proof {
        reveal_strlit("sess_");
        lemma_digest_is_id(
            "sess_"@,
            crate::hashes::sha1_of(seed_bytes("session"@, paths.manager_dir@, seed)),
        );
    }
    SessionId { text }
}

/// A new name for an event.
pub fn new_event_id(paths: &ManagerPaths, seed: IdSeed) -> (out: EventId)
    ensures
        out@ == "evt_"@ + digest_text("event"@, paths.manager_dir@, seed),
{
    let text = concat2("evt_", stable_digest("event", paths, seed).as_str());
    proof {
        reveal_strlit("evt_");
        lemma_digest_is_id(
            "evt_"@,
            crate::hashes::sha1_of(seed_bytes("event"@, paths.manager_dir@, seed)),
        );
    }
    EventId { text }
}

/// A new token for a lease.
pub fn new_lease_token(paths: &ManagerPaths, seed: IdSeed) -> (out: LeaseToken)
    ensures
        out@ == "lease_"@ + digest_text("lease"@, paths.manager_dir@, seed),
{
    let text = concat2("lease_", stable_digest("lease", paths, seed).as_str());
    proof {
        reveal_strlit("lease_");
        lemma_digest_is_id(
            "lease_"@,
            crate::hashes::sha1_of(seed_bytes("lease"@, paths.manager_dir@, seed)),
        );
    }
    LeaseToken { text }
}

// ---------------------------------------------------------------------------
// Records
// ---------------------------------------------------------------------------

/// How a session is doing.
#[derive(Clone, Copy, Debug, PartialEq, Eq, Structural)]
pub enum SessionStatus {
    Active,
}

/// What happened.
#[derive(Clone, Copy, Debug, PartialEq, Eq, Structural)]
pub enum JournalEventKind {
    SessionCreated,
    LeaseAcquired,
    LeaseReleased,
    ChannelMessageReceived,
}

impl JournalEventKind {
    /// The word for what happened in an entry of the journal.
    pub open spec fn word(self) -> Seq<char> {
        match self {
            JournalEventKind::SessionCreated => "session-created"@,
            JournalEventKind::LeaseAcquired => "lease-acquired"@,
            JournalEventKind::LeaseReleased => "lease-released"@,
            JournalEventKind::ChannelMessageReceived => "channel-message-received"@,
        }
    }

    /// The word for what happened in an entry of the journal.
    pub fn text(self) -> (out: &'static str)
        ensures
            out@ == self.word(),
    {
        match self {
            JournalEventKind::SessionCreated => "session-created",
            JournalEventKind::LeaseAcquired => "lease-acquired",
            JournalEventKind::LeaseReleased => "lease-released",
            JournalEventKind::ChannelMessageReceived => "channel-message-received",
        }
    }
}

/// The right of a channel to write to a session.
#[derive(Debug)]
pub struct ChannelLease {
    pub channel_id: ChannelId,
    pub lease_token: LeaseToken,
    pub epoch: u64,
    pub acquired_at_unix: u64,
}

/// A session.
#[derive(Debug)]
pub struct SessionRecord {
    pub schema_version: u64,
    pub session_id: SessionId,
    pub primary_channel_id: ChannelId,
    pub current_channel_id: ChannelId,
    pub status: SessionStatus,
    pub lease_epoch: u64,
    pub active_lease: Option<ChannelLease>,
    pub created_at_unix: u64,
    pub updated_at_unix: u64,
}

/// An entry of the journal.
#[derive(Debug)]
pub struct JournalEvent {
    pub schema_version: u64,
    pub event_id: EventId,
    pub event_kind: JournalEventKind,
    pub session_id: SessionId,
    pub channel_id: ChannelId,
    pub occurred_at_unix: u64,
}

/// A lease, over mathematical values.
pub struct LeaseModel {
    pub channel_id: Seq<char>,
    pub lease_token: Seq<char>,
    pub epoch: u64,
    pub acquired_at_unix: u64,
}

/// A session, over mathematical values.
pub struct SessionModel {
    pub schema_version: u64,
    pub session_id: Seq<char>,
    pub primary_channel_id: Seq<char>,
    pub current_channel_id: Seq<char>,
    pub status: SessionStatus,
    pub lease_epoch: u64,
    pub active_lease: Option<LeaseModel>,
    pub created_at_unix: u64,
    pub updated_at_unix: u64,
}

/// An entry of the journal, over mathematical values.
pub struct EventModel {
    pub schema_version: u64,
    pub event_id: Seq<char>,
    pub event_kind: JournalEventKind,
    pub session_id: Seq<char>,
    pub channel_id: Seq<char>,
    pub occurred_at_unix: u64,
}

impl View for ChannelLease {
    type V = LeaseModel;

    open spec fn view(&self) -> LeaseModel {
        LeaseModel {
            channel_id: self.channel_id@,
            lease_token: self.lease_token@,
            epoch: self.epoch,
            acquired_at_unix: self.acquired_at_unix,
        }
    }
}

impl View for SessionRecord {
    type V = SessionModel;

    open spec fn view(&self) -> SessionModel {
        SessionModel {
            schema_version: self.schema_version,
            session_id: self.session_id@,
            primary_channel_id: self.primary_channel_id@,
            current_channel_id: self.current_channel_id@,
            status: self.status,
            lease_epoch: self.lease_epoch,
            active_lease: match self.active_lease {
                Some(lease) => Some(lease@),
                None => None,
            },
            created_at_unix: self.created_at_unix,
            updated_at_unix: self.updated_at_unix,
        }
    }
}

impl View for JournalEvent {
    type V = EventModel;

    open spec fn view(&self) -> EventModel {
        EventModel {
            schema_version: self.schema_version,
            event_id: self.event_id@,
            event_kind: self.event_kind,
            session_id: self.session_id@,
            channel_id: self.channel_id@,
            occurred_at_unix: self.occurred_at_unix,
        }
    }
}

/// A request for a new session.
#[derive(Debug)]
pub struct CreateSessionRequest {
    pub session_id: Option<SessionId>,
    pub channel_id: ChannelId,
}

/// A new session, and the entry of the journal for it.
#[derive(Debug)]
pub struct CreateSessionResult {
    pub session: SessionRecord,
    pub event: JournalEvent,
}

/// A request for the lease of a session.
#[derive(Debug)]
pub struct AcquireLeaseRequest {
    pub session_id: SessionId,
    pub channel_id: ChannelId,
    pub steal: bool,
}

/// A request to give a lease back.
#[derive(Debug)]
pub struct ReleaseLeaseRequest {
    pub session_id: SessionId,
    pub lease_token: LeaseToken,
}

/// A message that came in on a channel.
#[derive(Debug)]
pub struct RecordChannelMessageRequest {
    pub session_id: SessionId,
    pub channel_id: ChannelId,
}

/// A session after its lease changed, and the entry of the journal for it.
#[derive(Debug)]
pub struct LeaseResult {
    pub session: SessionRecord,
    pub event: JournalEvent,
}

// ---------------------------------------------------------------------------
// Requests
// ---------------------------------------------------------------------------

/// The moment of a request: the time in seconds, and what new names are made of.
#[derive(Clone, Copy, Debug)]
pub struct Moment {
    pub now: u64,
    pub session_seed: IdSeed,
    pub lease_seed: IdSeed,
    pub event_seed: IdSeed,
}

/// An entry of the journal.
pub open spec fn event_of(
    manager_dir: Seq<char>,
    kind: JournalEventKind,
    session: Seq<char>,
    channel: Seq<char>,
    moment: Moment,
) -> EventModel {
    EventModel {
        schema_version: JOURNAL_SCHEMA_VERSION,
        event_id: "evt_"@ + digest_text("event"@, manager_dir, moment.event_seed),
        event_kind: kind,
        session_id: session,
        channel_id: channel,
        occurred_at_unix: moment.now,
    }
}

fn new_event(
    paths: &ManagerPaths,
    kind: JournalEventKind,
    session_id: SessionId,
    channel_id: ChannelId,
    moment: Moment,
) -> (out: JournalEvent)
    ensures
        out@ == event_of(paths.manager_dir@, kind, session_id@, channel_id@, moment),
{
    JournalEvent {
        schema_version: JOURNAL_SCHEMA_VERSION,
        event_id: new_event_id(paths, moment.event_seed),
        event_kind: kind,
        session_id,
        channel_id,
        occurred_at_unix: moment.now,
    }
}

/// A new session: no channel holds its lease.
pub open spec fn created(session_id: Seq<char>, channel: Seq<char>, now: u64) -> SessionModel {
    SessionModel {
        schema_version: SESSION_SCHEMA_VERSION,
        session_id,
        primary_channel_id: channel,
        current_channel_id: channel,
        status: SessionStatus::Active,
        lease_epoch: 0,
        active_lease: None,
        created_at_unix: now,
        updated_at_unix: now,
    }
}

/// The name of a new session: the one asked for, or a new one.
pub open spec fn chosen_id(asked: Option<SessionId>, manager_dir: Seq<char>, moment: Moment) -> Seq<
    char,
> {
    match asked {
        Some(id) => id@,
        None => "sess_"@ + digest_text("session"@, manager_dir, moment.session_seed),
    }
}

/// The name of a new session: the one asked for, or a new one.
pub fn session_id_for(
    paths: &ManagerPaths,
    request: &CreateSessionRequest,
    moment: Moment,
) -> (out: SessionId)
    ensures
        out@ == chosen_id(request.session_id, paths.manager_dir@, moment),
{
    match &request.session_id {
        Some(id) => id.copy(),
        None => new_session_id(paths, moment.session_seed),
    }
}

/// Creates a session, unless one of its name `exists`.
pub fn create_session(
    paths: &ManagerPaths,
    request: CreateSessionRequest,
    exists: bool,
    moment: Moment,
) -> (out: Result<CreateSessionResult, String>)
    ensures
        ({
            let id = chosen_id(request.session_id, paths.manager_dir@, moment);
            match out {
                Ok(result) => !exists && result.session@ == created(
                    id,
                    request.channel_id@,
                    moment.now,
                ) && result.event@ == event_of(
                    paths.manager_dir@,
                    JournalEventKind::SessionCreated,
                    id,
                    request.channel_id@,
                    moment,
                ),
                Err(message) => exists && message@ == "session already exists: "@ + id,
            }
        }),
{
    let session_id = session_id_for(paths, &request, moment);
    if exists {
        return Err(concat2("session already exists: ", session_id.as_str()));
    }
    let event = new_event(
        paths,
        JournalEventKind::SessionCreated,
        session_id.copy(),
        request.channel_id.copy(),
        moment,
    );
    let session = SessionRecord {
        schema_version: SESSION_SCHEMA_VERSION,
        session_id,
        primary_channel_id: request.channel_id.copy(),
        current_channel_id: request.channel_id,
        status: SessionStatus::Active,
        lease_epoch: 0,
        active_lease: None,
        created_at_unix: moment.now,
        updated_at_unix: moment.now,
    };
    Ok(CreateSessionResult { session, event })
}

/// A session whose lease `channel` has acquired. The lease that was held is only
/// taken away where that is asked for.
pub open spec fn leased(
    session: SessionModel,
    channel: Seq<char>,
    steal: bool,
    manager_dir: Seq<char>,
    moment: Moment,
) -> Result<SessionModel, Seq<char>> {
    if session.active_lease is Some && !steal {
        Err("session already has an active lease: "@ + session.session_id)
    } else if session.lease_epoch == u64::MAX {
        Err("lease epoch overflow"@)
    } else {
        let epoch = (session.lease_epoch + 1) as u64;
        Ok(
            SessionModel {
                current_channel_id: channel,
                lease_epoch: epoch,
                active_lease: Some(
                    LeaseModel {
                        channel_id: channel,
                        lease_token: "lease_"@ + digest_text(
                            "lease"@,
                            manager_dir,
                            moment.lease_seed,
                        ),
                        epoch,
                        acquired_at_unix: moment.now,
                    },
                ),
                updated_at_unix: moment.now,
                ..session
            },
        )
    }
}

/// Whether `out` is `session` after a change, with its entry of the journal, or why
/// the change was refused.
pub open spec fn is_change(
    out: Result<LeaseResult, String>,
    session: Result<SessionModel, Seq<char>>,
    event: EventModel,
) -> bool {
    match (session, out) {
        (Ok(changed), Ok(result)) => result.session@ == changed && result.event@ == event,
        (Err(reason), Err(message)) => message@ == reason,
        _ => false,
    }
}

/// Acquires the lease of `session` for a channel.
pub fn acquire_lease(
    paths: &ManagerPaths,
    session: SessionRecord,
    request: AcquireLeaseRequest,
    moment: Moment,
) -> (out: Result<LeaseResult, String>)
    ensures
        is_change(
            out,
            leased(
                session@,
                request.channel_id@,
                request.steal,
                paths.manager_dir@,
                moment,
            ),
            event_of(
                paths.manager_dir@,
                JournalEventKind::LeaseAcquired,
                session@.session_id,
                request.channel_id@,
                moment,
            ),
        ),
{
    if session.active_lease.is_some() && !request.steal {
        return Err(
            concat2("session already has an active lease: ", session.session_id.as_str()),
        );
    }
    if session.lease_epoch == u64::MAX {
        return Err(copy_of("lease epoch overflow"));
    }
    let epoch: u64 = session.lease_epoch + 1;
    let lease = ChannelLease {
        channel_id: request.channel_id.copy(),
        lease_token: new_lease_token(paths, moment.lease_seed),
        epoch,
        acquired_at_unix: moment.now,
    };
    let event = new_event(
        paths,
        JournalEventKind::LeaseAcquired,
        session.session_id.copy(),
        request.channel_id.copy(),
        moment,
    );
    let changed = SessionRecord {
        schema_version: session.schema_version,
        session_id: session.session_id,
        primary_channel_id: session.primary_channel_id,
        current_channel_id: request.channel_id,
        status: session.status,
        lease_epoch: epoch,
        active_lease: Some(lease),
        created_at_unix: session.created_at_unix,
        updated_at_unix: moment.now,
    };
    Ok(LeaseResult { session: changed, event })
}

/// A session whose lease was given back by its holder.
pub open spec fn released(session: SessionModel, token: Seq<char>, now: u64) -> Result<
    SessionModel,
    Seq<char>,
> {
    match session.active_lease {
        None => Err("session has no active lease: "@ + session.session_id),
        Some(lease) => if lease.lease_token != token {
            Err("lease token does not match active lease"@)
        } else {
            Ok(SessionModel { active_lease: None, updated_at_unix: now, ..session })
        },
    }
}

/// The channel that holds the lease of a session.
pub open spec fn holder(session: SessionModel) -> Seq<char> {
    match session.active_lease {
        Some(lease) => lease.channel_id,
        None => seq![],
    }
}

/// Gives the lease of `session` back.
pub fn release_lease(
    paths: &ManagerPaths,
    session: SessionRecord,
    request: ReleaseLeaseRequest,
    moment: Moment,
) -> (out: Result<LeaseResult, String>)
    ensures
        is_change(
            out,
            released(session@, request.lease_token@, moment.now),
            event_of(
                paths.manager_dir@,
                JournalEventKind::LeaseReleased,
                session@.session_id,
                holder(session@),
                moment,
            ),
        ),
{
    match session.active_lease {
        None => Err(concat2("session has no active lease: ", session.session_id.as_str())),
        Some(lease) => {
            if !same(lease.lease_token.as_str(), request.lease_token.as_str()) {
                return Err(copy_of("lease token does not match active lease"));
            }
            let event = new_event(
                paths,
                JournalEventKind::LeaseReleased,
                session.session_id.copy(),
                lease.channel_id,
                moment,
            );
            let changed = SessionRecord {
                schema_version: session.schema_version,
                session_id: session.session_id,
                primary_channel_id: session.primary_channel_id,
                current_channel_id: session.current_channel_id,
                status: session.status,
                lease_epoch: session.lease_epoch,
                active_lease: None,
                created_at_unix: session.created_at_unix,
                updated_at_unix: moment.now,
            };
            Ok(LeaseResult { session: changed, event })
        },
    }
}

/// The entry of the journal for a message: it says that one came, not what it says.
/// There is one only for a session that was found; the session itself stays as it is.
pub fn record_channel_message(
    paths: &ManagerPaths,
    request: RecordChannelMessageRequest,
    found: Result<SessionRecord, String>,
    moment: Moment,
) -> (out: Result<JournalEvent, String>)
    ensures
        match (found, out) {
            (Ok(_), Ok(event)) => event@ == event_of(
                paths.manager_dir@,
                JournalEventKind::ChannelMessageReceived,
                request.session_id@,
                request.channel_id@,
                moment,
            ),
            (Err(reason), Err(message)) => message@ == reason@,
            _ => false,
        },
{
    match found {
        Ok(_) => Ok(
            new_event(
                paths,
                JournalEventKind::ChannelMessageReceived,
                request.session_id,
                request.channel_id,
                moment,
            ),
        ),
        Err(reason) => Err(reason),
    }
}

// ---------------------------------------------------------------------------
// Reading
// ---------------------------------------------------------------------------

/// A session that was read from `path`. Where the file could not be understood,
/// `parsed` says why.
pub fn show_session(parsed: Result<SessionRecord, String>, path: &str) -> (out: Result<
    SessionRecord,
    String,
>)
    ensures
        match (parsed, out) {
            (Ok(read), Ok(session)) => session == read && read.schema_version
                == SESSION_SCHEMA_VERSION,
            (Ok(read), Err(message)) => read.schema_version != SESSION_SCHEMA_VERSION && message@
                == "unsupported session schema version: "@ + crate::numbers::decimal_of(
                read.schema_version as nat,
            ),
            (Err(reason), Err(message)) => message@ == "parse "@ + path@ + ": "@ + reason@,
            (Err(_), Ok(_)) => false,
        },
{
    match parsed {
        Err(reason) => Err(concat4("parse ", path, ": ", reason.as_str())),
        Ok(session) => if session.schema_version != SESSION_SCHEMA_VERSION {
            Err(
                concat2(
                    "unsupported session schema version: ",
                    decimal(session.schema_version).as_str(),
                ),
            )
        } else {
            Ok(session)
        },
    }
}

/// Whether `a` is listed before `b`: by the time of their creation, then by name.
pub open spec fn is_listed_before(a: SessionModel, b: SessionModel) -> bool {
    a.created_at_unix < b.created_at_unix || (a.created_at_unix == b.created_at_unix
        && crate::textmap::text_lt(a.session_id, b.session_id))
}

/// The views of sessions.
pub open spec fn session_models(items: Seq<SessionRecord>) -> Seq<SessionModel> {
    items.map_values(|s: SessionRecord| s@)
}

fn comes_before(a: &SessionRecord, b: &SessionRecord) -> (out: bool)
    ensures
        out == is_listed_before(a@, b@),
{
    if a.created_at_unix < b.created_at_unix {
        true
    } else if a.created_at_unix == b.created_at_unix {
        match place(a.session_id.as_str(), b.session_id.as_str()) {
            Place::Before => true,
            _ => false,
        }
    } else {
        false
    }
}

/// The order in which sessions are listed.
pub open spec fn listing_order() -> spec_fn(SessionRecord, SessionRecord) -> bool {
    |a: SessionRecord, b: SessionRecord| is_listed_before(a@, b@)
}

/// Sessions in the order in which they are listed.
pub fn list_sessions(sessions: Vec<SessionRecord>) -> (out: Vec<SessionRecord>)
    ensures
        out@ == crate::sorting::sorted(sessions@, listing_order()),
{
    sort_items(sessions, comes_before, Ghost(listing_order()))
}

/// Whether a file of the directory of sessions holds one.
pub open spec fn is_session_file(path: Seq<char>) -> bool {
    crate::paths::extension_of(path) == Some("json"@)
}

/// The sessions of a directory, or why the first of its files that hold one could
/// not be read.
pub open spec fn read_sessions(entries: Seq<(String, Result<SessionRecord, String>)>) -> Result<
    Seq<SessionRecord>,
    Seq<char>,
>
    decreases entries.len(),
{
    if entries.len() == 0 {
        Ok(seq![])
    } else {
        match read_sessions(entries.drop_last()) {
            Err(reason) => Err(reason),
            Ok(before) => if !is_session_file(entries.last().0@) {
                Ok(before)
            } else {
                match entries.last().1 {
                    Err(reason) => Err(reason@),
                    Ok(session) => Ok(before.push(session)),
                }
            },
        }
    }
}

proof fn lemma_sessions_fail_early(entries: Seq<(String, Result<SessionRecord, String>)>, k: int)
    requires
        0 <= k <= entries.len(),
        read_sessions(entries.take(k)) is Err,
    ensures
        read_sessions(entries) == read_sessions(entries.take(k)),
    decreases entries.len(),
{
    if k == entries.len() {
        assert(entries.take(k) =~= entries);
    } else {
        assert(entries.drop_last().take(k) =~= entries.take(k));
        lemma_sessions_fail_early(entries.drop_last(), k);
    }
}

/// The sessions of a directory in the order in which they are listed, given the path
/// of each entry and what was read from it. Entries that are no `json` files are
/// passed over; of the rest the first that could not be read fails the whole list.
pub fn listed_sessions(entries: Vec<(String, Result<SessionRecord, String>)>) -> (out: Result<
    Vec<SessionRecord>,
    String,
>)
    ensures
        match (read_sessions(entries@), out) {
            (Ok(found), Ok(sessions)) => sessions@ == crate::sorting::sorted(
                found,
                listing_order(),
            ),
            (Err(reason), Err(message)) => message@ == reason,
            _ => false,
        },
{
    let ghost all = entries@;
    let n: usize = entries.len();
    let mut waiting = reversed(entries);
    let mut found: Vec<SessionRecord> = Vec::new();
    proof {
        assert(all.take(0) =~= seq![]);
        assert(found@ =~= seq![]);
    }
    while waiting.len() > 0
        invariant
            waiting.len() <= n,
            all.len() == n,
            all == entries@,
            forall|j: int| 0 <= j < waiting.len() ==> #[trigger] waiting@[j] == all[n - 1 - j],
            read_sessions(all.take(n - waiting.len())) == Ok::<Seq<SessionRecord>, Seq<char>>(
                found@,
            ),
        decreases waiting.len(),
    {
        let ghost k = n - waiting.len();
        match waiting.pop() {
            None => {},
            Some((path, read)) => {
                proof {
                    assert((path, read) == all[k]);
                    assert(all.take(k + 1).drop_last() =~= all.take(k));
                    assert(all.take(k + 1).last() == (path, read));
                }
                let named = match extension(path.as_str()) {
                    Some(ending) => same(ending.as_str(), "json"),
                    None => false,
                };
                if named {
                    match read {
                        Err(reason) => {
                            proof {
                                lemma_sessions_fail_early(all, k + 1);
                            }
                            return Err(reason);
                        },
                        Ok(session) => {
                            found.push(session);
                        },
                    }
                }
            },
        }
    }
    proof {
        assert(all.take(n as int) =~= all);
    }
    Ok(list_sessions(found))
}

/// A line of the journal that is not blank.
#[derive(Debug)]
pub struct JournalLine {
    /// Counted from one.
    pub number: usize,
    pub text: String,
}

/// The lines of a journal that are not blank, with their numbers.
pub open spec fn written_lines(lines: Seq<Seq<char>>) -> Seq<(nat, Seq<char>)>
    decreases lines.len(),
{
    if lines.len() == 0 {
        seq![]
    } else if crate::lines::trimmed(lines.last()).len() == 0 {
        written_lines(lines.drop_last())
    } else {
        written_lines(lines.drop_last()).push((lines.len(), lines.last()))
    }
}

/// The views of lines.
pub open spec fn line_models(items: Seq<JournalLine>) -> Seq<(nat, Seq<char>)> {
    items.map_values(|line: JournalLine| (line.number as nat, line.text@))
}

/// The lines of a journal that are not blank, with their numbers.
pub fn journal_lines(content: &str) -> (out: Vec<JournalLine>)
    ensures
        line_models(out@) == written_lines(crate::lines::lines_of(content@)),
{
    let lines = split_lines(&chars_of(content));
    let ghost all = crate::lines::lines_of(content@);
    let mut out: Vec<JournalLine> = Vec::new();
    let mut i: usize = 0;
    proof {
        assert(all.len() == lines@.len());
        assert(all.take(0) =~= seq![]);
        assert(line_models(out@) =~= seq![]);
    }
    while i < lines.len()
        invariant
            i <= lines.len(),
            all == crate::lines::rows(lines@),
            line_models(out@) == written_lines(all.take(i as int)),
        decreases lines.len() - i,
    {
        let ghost before = line_models(out@);
        proof {
            assert(all.take(i + 1).drop_last() =~= all.take(i as int));
            assert(all.take(i + 1).last() == lines@[i as int]@);
        }
        if trim(&lines[i]).len() > 0 {
            out.push(JournalLine { number: i + 1, text: string_of(&lines[i]) });
            proof {
                assert(line_models(out@) =~= before.push(((i + 1) as nat, lines@[i as int]@)));
            }
        }
        i += 1;
    }
    proof {
        assert(all.take(all.len() as int) =~= all);
    }
    out
}

/// A line of the journal that was read: its number, and its event or why the line
/// could not be understood.
#[derive(Debug)]
pub struct ReadEvent {
    pub number: usize,
    pub event: Result<JournalEvent, String>,
}

/// The events of a session, up to the first line that cannot be understood.
pub open spec fn events_of(
    items: Seq<ReadEvent>,
    journal_file: Seq<char>,
    session: Option<Seq<char>>,
) -> Result<Seq<EventModel>, Seq<char>>
    decreases items.len(),
{
    if items.len() == 0 {
        Ok(seq![])
    } else {
        match events_of(items.drop_last(), journal_file, session) {
            Err(message) => Err(message),
            Ok(before) => match items.last().event {
                Err(reason) => Err(
                    "parse "@ + journal_file + " line "@ + crate::numbers::decimal_of(
                        items.last().number as nat,
                    ) + ": "@ + reason@,
                ),
                Ok(event) => if event.schema_version != JOURNAL_SCHEMA_VERSION {
                    Err(
                        "unsupported journal schema version: "@ + crate::numbers::decimal_of(
                            event.schema_version as nat,
                        ),
                    )
                } else if session is Some && session != Some(event@.session_id) {
                    Ok(before)
                } else {
                    Ok(before.push(event@))
                },
            },
        }
    }
}

proof fn lemma_events_fail_early(
    items: Seq<ReadEvent>,
    journal_file: Seq<char>,
    session: Option<Seq<char>>,
    k: int,
)
    requires
        0 <= k <= items.len(),
        events_of(items.take(k), journal_file, session) is Err,
    ensures
        events_of(items, journal_file, session) == events_of(
            items.take(k),
            journal_file,
            session,
        ),
    decreases items.len(),
{
    if k == items.len() {
        assert(items.take(k) =~= items);
    } else {
        assert(items.drop_last().take(k) =~= items.take(k));
        lemma_events_fail_early(items.drop_last(), journal_file, session, k);
    }
}

/// The views of events.
pub open spec fn event_models(items: Seq<JournalEvent>) -> Seq<EventModel> {
    items.map_values(|e: JournalEvent| e@)
}

/// The name of an optional session.
pub open spec fn opt_session(session: Option<&SessionId>) -> Option<Seq<char>> {
    match session {
        Some(id) => Some(id@),
        None => None,
    }
}

/// The events of a session, or of all.
pub fn list_events(items: Vec<ReadEvent>, journal_file: &str, session: Option<&SessionId>) -> (out:
    Result<Vec<JournalEvent>, String>)
    ensures
        match (events_of(items@, journal_file@, opt_session(session)), out) {
            (Ok(models), Ok(events)) => event_models(events@) == models,
            (Err(reason), Err(message)) => message@ == reason,
            _ => false,
        },
{
    let ghost all = items@;
    let ghost asked = opt_session(session);
    let ghost file = journal_file@;
    let n: usize = items.len();
    let mut waiting = reversed(items);
    let mut out: Vec<JournalEvent> = Vec::new();
    proof {
        assert(all.take(0) =~= seq![]);
        assert(event_models(out@) =~= seq![]);
    }
    while waiting.len() > 0
        invariant
            waiting.len() <= n,
            all.len() == n,
            all == items@,
            asked == opt_session(session),
            file == journal_file@,
            forall|j: int| 0 <= j < waiting.len() ==> #[trigger] waiting@[j] == all[n - 1 - j],
            events_of(all.take(n - waiting.len()), file, asked) == Ok::<Seq<EventModel>, Seq<char>>(
                event_models(out@),
            ),
        decreases waiting.len(),
    {
        let ghost k = n - waiting.len();
        let ghost before = event_models(out@);
        let next = waiting.pop();
        match next {
            None => {},
            Some(item) => {
                proof {
                    assert(item == all[k]);
                    assert(all.take(k + 1).drop_last() =~= all.take(k));
                    assert(all.take(k + 1).last() == item);
                }
                match item.event {
                    Err(reason) => {
                        proof {
                            lemma_events_fail_early(all, file, asked, k + 1);
                        }
                        let place = concat4(
                            "parse ",
                            journal_file,
                            " line ",
                            decimal(item.number as u64).as_str(),
                        );
                        return Err(concat3(place.as_str(), ": ", reason.as_str()));
                    },
                    Ok(event) => {
                        if event.schema_version != JOURNAL_SCHEMA_VERSION {
                            proof {
                                lemma_events_fail_early(all, file, asked, k + 1);
                            }
                            return Err(
                                concat2(
                                    "unsupported journal schema version: ",
                                    decimal(event.schema_version).as_str(),
                                ),
                            );
                        }
                        let wanted = match session {
                            Some(id) => same(id.as_str(), event.session_id.as_str()),
                            None => true,
                        };
                        if wanted {
                            out.push(event);
                            proof {
                                assert(event_models(out@) =~= before.push(event@));
                            }
                        }
                    },
                }
            },
        }
    }
    proof {
        assert(all.take(n as int) =~= all);
    }
    Ok(out)
}

// ---------------------------------------------------------------------------
// Laws
// ---------------------------------------------------------------------------

/// Whether the lease of a session, if one is held, is that of its epoch.
pub open spec fn is_consistent(session: SessionModel) -> bool {
    session.active_lease matches Some(lease) ==> lease.epoch == session.lease_epoch
}

/// A new session is consistent, and every change keeps it so.
pub proof fn leases_carry_the_epoch(
    id: Seq<char>,
    session: SessionModel,
    channel: Seq<char>,
    steal: bool,
    token: Seq<char>,
    manager_dir: Seq<char>,
    moment: Moment,
)
    ensures
        is_consistent(created(id, channel, moment.now)),
        is_consistent(session) ==> (leased(session, channel, steal, manager_dir, moment) matches Ok(
            changed,
        ) ==> is_consistent(changed)),
        is_consistent(session) ==> (released(session, token, moment.now) matches Ok(changed)
            ==> is_consistent(changed)),
{
}

/// Epochs only grow: a lease that is acquired has the next one, and giving it back
/// keeps it.
pub proof fn epochs_grow(
    session: SessionModel,
    channel: Seq<char>,
    steal: bool,
    token: Seq<char>,
    manager_dir: Seq<char>,
    moment: Moment,
)
    ensures
        leased(session, channel, steal, manager_dir, moment) matches Ok(changed)
            ==> changed.lease_epoch == session.lease_epoch + 1,
        released(session, token, moment.now) matches Ok(changed) ==> changed.lease_epoch
            == session.lease_epoch,
{
}

/// A lease that was acquired is given back with its own token and with no other,
/// and the session is then free as it was, at the new epoch.
pub proof fn leases_are_given_back_by_their_holder(
    session: SessionModel,
    channel: Seq<char>,
    steal: bool,
    token: Seq<char>,
    manager_dir: Seq<char>,
    moment: Moment,
    later: u64,
)
    requires
        leased(session, channel, steal, manager_dir, moment) is Ok,
    ensures
        ({
            let held = leased(session, channel, steal, manager_dir, moment)->Ok_0;
            let own = held.active_lease->0.lease_token;
            &&& released(held, token, later) is Ok <==> token == own
            &&& released(held, own, later) matches Ok(free) ==> free == (SessionModel {
                active_lease: None,
                updated_at_unix: later,
                ..held
            })
        }),
{
}

/// A lease that is held is never taken away unless that is asked for.
pub proof fn held_leases_are_safe(
    session: SessionModel,
    channel: Seq<char>,
    manager_dir: Seq<char>,
    moment: Moment,
)
    requires
        session.active_lease is Some,
    ensures
        leased(session, channel, false, manager_dir, moment) is Err,
{
}

/// A name never leads out of its directory: it holds neither a slash nor a dot.
pub proof fn ids_are_file_names(raw: Seq<char>, i: int)
    requires
        is_id(raw, "sess_"@) || is_id(raw, "evt_"@) || is_id(raw, "lease_"@),
        0 <= i < raw.len(),
    ensures
        raw[i] != '/',
        raw[i] != '.',
{
    reveal_strlit("sess_");
    reveal_strlit("evt_");
    reveal_strlit("lease_");
    let prefix = if is_id(raw, "sess_"@) {
        "sess_"@
    } else if is_id(raw, "evt_"@) {
        "evt_"@
    } else {
        "lease_"@
    };
    if i < prefix.len() {
        assert(raw[i] == raw.take(prefix.len() as int)[i]);
    }
}

/// Sessions are listed in order, and none is lost or added.
pub proof fn sessions_are_listed_in_order(sessions: Seq<SessionRecord>)
    ensures
        ({
            let list = crate::sorting::sorted(sessions, listing_order());
            &&& crate::sorting::is_sorted(list, listing_order())
            &&& list.to_multiset() == sessions.to_multiset()
            &&& list.len() == sessions.len()
        }),
{
    let before = listing_order();
    assert forall|a: SessionRecord, b: SessionRecord, c: SessionRecord|
        !(#[trigger] before(b, a)) && !(#[trigger] before(c, b)) implies !before(c, a) by {
        lemma_not_before(a@, b@, c@);
    }
    assert forall|a: SessionRecord, b: SessionRecord| #[trigger] before(a, b) implies !before(
        b,
        a,
    ) by {
        crate::textmap::lemma_text_lt_irreflexive(a@.session_id);
        if crate::textmap::text_lt(a@.session_id, b@.session_id) && crate::textmap::text_lt(
            b@.session_id,
            a@.session_id,
        ) {
            crate::textmap::lemma_text_lt_transitive(a@.session_id, b@.session_id, a@.session_id);
        }
    }
    crate::sorting::sorting_keeps_items(sessions, before);
}

proof fn lemma_not_before(a: SessionModel, b: SessionModel, c: SessionModel)
    requires
        !is_listed_before(b, a),
        !is_listed_before(c, b),
    ensures
        !is_listed_before(c, a),
{
    crate::textmap::lemma_text_lt_total(a.session_id, b.session_id);
    crate::textmap::lemma_text_lt_total(b.session_id, c.session_id);
    crate::textmap::lemma_text_lt_irreflexive(a.session_id);
    if is_listed_before(c, a) && crate::textmap::text_lt(c.session_id, a.session_id)
        && crate::textmap::text_lt(a.session_id, b.session_id) {
        crate::textmap::lemma_text_lt_transitive(c.session_id, a.session_id, b.session_id);
    }
}

/// A new session is free: it belongs to its channel, which nobody holds, and was changed
/// last when it was made.
pub proof fn new_sessions_are_free(id: Seq<char>, channel: Seq<char>, now: u64)
    ensures
        ({
            let session = created(id, channel, now);
            &&& session.schema_version == 1
            &&& session.session_id == id
            &&& session.primary_channel_id == channel
            &&& session.current_channel_id == channel
            &&& session.active_lease is None
            &&& session.lease_epoch == 0
            &&& session.created_at_unix == now
            &&& session.updated_at_unix == now
        }),
{
}

/// A channel gets the lease of a session if nobody holds it or it is taken over. It then
/// holds it, the session is where the channel is, and the session is otherwise what it
/// was.
pub proof fn leases_go_to_who_asks(
    session: SessionModel,
    channel: Seq<char>,
    steal: bool,
    manager_dir: Seq<char>,
    moment: Moment,
)
    requires
        session.lease_epoch < u64::MAX,
    ensures
        leased(session, channel, steal, manager_dir, moment) is Ok <==> steal
            || session.active_lease is None,
        leased(session, channel, steal, manager_dir, moment) matches Ok(held) ==> {
            &&& held.active_lease is Some
            &&& held.active_lease->0.channel_id == channel
            &&& held.active_lease->0.acquired_at_unix == moment.now
            &&& held.current_channel_id == channel
            &&& held.updated_at_unix == moment.now
            &&& held.session_id == session.session_id
            &&& held.primary_channel_id == session.primary_channel_id
            &&& held.created_at_unix == session.created_at_unix
            &&& held.schema_version == session.schema_version
        },
{
}

/// A lease is given back with its token alone; the session is then free and otherwise
/// what it was.
pub proof fn leases_are_given_back(session: SessionModel, token: Seq<char>, now: u64)
    ensures
        released(session, token, now) is Ok <==> (session.active_lease matches Some(lease)
            && lease.lease_token == token),
        released(session, token, now) matches Ok(free) ==> {
            &&& free.active_lease is None
            &&& free.updated_at_unix == now
            &&& free.session_id == session.session_id
            &&& free.current_channel_id == session.current_channel_id
            &&& free.primary_channel_id == session.primary_channel_id
            &&& free.created_at_unix == session.created_at_unix
            &&& free.lease_epoch == session.lease_epoch
        },
{
}

/// An event names what happened, in which session, on which channel and when.
pub proof fn events_tell_what_happened(
    manager_dir: Seq<char>,
    kind: JournalEventKind,
    session: Seq<char>,
    channel: Seq<char>,
    moment: Moment,
)
    ensures
        ({
            let event = event_of(manager_dir, kind, session, channel, moment);
            &&& event.schema_version == 1
            &&& event.event_kind == kind
            &&& event.session_id == session
            &&& event.channel_id == channel
            &&& event.occurred_at_unix == moment.now
            &&& event.event_id.take(4) == "evt_"@
        }),
{
    reveal_strlit("evt_");
    assert("evt_"@.len() == 4);
    let event = event_of(manager_dir, kind, session, channel, moment);
    assert(event.event_id.take(4) =~= "evt_"@);
}

/// The sessions are listed from the oldest to the newest, each once.
pub proof fn older_sessions_come_first(sessions: Seq<SessionRecord>, i: int, j: int)
    requires
        0 <= i < j < sessions.len(),
    ensures
        ({
            let list = crate::sorting::sorted(sessions, listing_order());
            &&& list.len() == sessions.len()
            &&& list[i].created_at_unix <= list[j].created_at_unix
        }),
{
    sessions_are_listed_in_order(sessions);
    let list = crate::sorting::sorted(sessions, listing_order());
    assert(!listing_order()(list[j], list[i]));
}

/// The sessions that are listed are those of the files, and nothing else in their
/// directory counts; one that cannot be read is an error.
pub proof fn sessions_are_read_from_files(
    entries: Seq<(String, Result<SessionRecord, String>)>,
    path: String,
    read: Result<SessionRecord, String>,
)
    ensures
        read_sessions(seq![]) == Ok::<Seq<SessionRecord>, Seq<char>>(seq![]),
        read_sessions(entries) matches Ok(before) ==> {
            let more = read_sessions(entries.push((path, read)));
            &&& crate::paths::extension_of(path@) != Some("json"@) ==> more == Ok::<
                Seq<SessionRecord>,
                Seq<char>,
            >(before)
            &&& crate::paths::extension_of(path@) == Some("json"@) ==> (match read {
                Ok(session) => more == Ok::<Seq<SessionRecord>, Seq<char>>(before.push(session)),
                Err(reason) => more == Err::<Seq<SessionRecord>, Seq<char>>(reason@),
            })
        },
        read_sessions(entries) is Err ==> read_sessions(entries.push((path, read)))
            == read_sessions(entries),
{
    assert(entries.push((path, read)).drop_last() =~= entries);
    assert(entries.push((path, read)).last() == (path, read));
}

/// The events of a session are those of the journal that name it, in order; without a
/// session they are all. One that cannot be read, or of another version, is an error.
pub proof fn events_are_listed_in_order(
    items: Seq<ReadEvent>,
    item: ReadEvent,
    journal_file: Seq<char>,
    session: Option<Seq<char>>,
)
    ensures
        events_of(seq![], journal_file, session) == Ok::<Seq<EventModel>, Seq<char>>(seq![]),
        events_of(items, journal_file, session) matches Ok(before) ==> {
            let more = events_of(items.push(item), journal_file, session);
            match item.event {
                Err(_) => more is Err,
                Ok(event) => if event.schema_version != 1 {
                    more is Err
                } else if session is None || session == Some(event@.session_id) {
                    more == Ok::<Seq<EventModel>, Seq<char>>(before.push(event@))
                } else {
                    more == Ok::<Seq<EventModel>, Seq<char>>(before)
                },
            }
        },
        events_of(items, journal_file, session) is Err ==> events_of(
            items.push(item),
            journal_file,
            session,
        ) == events_of(items, journal_file, session),
{
    assert(items.push(item).drop_last() =~= items);
    assert(items.push(item).last() == item);
}

/// The lines of a journal are those that are not blank, each with its number.
pub proof fn journal_lines_keep_their_numbers(lines: Seq<Seq<char>>, line: Seq<char>)
    ensures
        written_lines(seq![]).len() == 0,
        crate::lines::trimmed(line).len() == 0 ==> written_lines(lines.push(line))
            == written_lines(lines),
        crate::lines::trimmed(line).len() > 0 ==> written_lines(lines.push(line)) == written_lines(
            lines,
        ).push((lines.len() + 1, line)),
{
    assert(lines.push(line).drop_last() =~= lines);
    assert(lines.push(line).last() == line);
}

/// A name is refused for how it begins first, then for its length, then for what it
/// holds.
pub proof fn refusals_say_why(raw: Seq<char>, label: Seq<char>, prefix: Seq<char>)
    ensures
        !crate::text::has_prefix(raw, prefix) ==> id_refusal(raw, label, prefix) == label
            + " must start with "@ + prefix,
        raw == prefix ==> id_refusal(raw, label, prefix) == label + " must start with "@ + prefix,
        crate::text::has_prefix(raw, prefix) && raw.len() > prefix.len()
            && vstd::utf8::encode_utf8(raw).len() > 96 ==> id_refusal(raw, label, prefix) == label
            + " is too long"@,
        crate::text::has_prefix(raw, prefix) && raw.len() > prefix.len()
            && vstd::utf8::encode_utf8(raw).len() <= 96 ==> id_refusal(raw, label, prefix) == label
            + " contains unsupported characters"@,
        raw.len() == 0 ==> channel_refusal(raw) == "channel id must not be empty"@,
        raw.len() > 0 && vstd::utf8::encode_utf8(raw).len() > 128 ==> channel_refusal(raw)
            == "channel id is too long"@,
        raw.len() > 0 && vstd::utf8::encode_utf8(raw).len() <= 128 ==> channel_refusal(raw)
            == "channel id contains unsupported characters"@,
{
}

/// A session that was named keeps its name, and any other gets one of its own.
pub proof fn asked_names_are_kept(id: SessionId, manager_dir: Seq<char>, moment: Moment)
    ensures
        chosen_id(Some(id), manager_dir, moment) == id@,
        crate::text::has_prefix(chosen_id(None, manager_dir, moment), "sess_"@),
{
    let made = chosen_id(None, manager_dir, moment);
    assert(made.take("sess_"@.len() as int) =~= "sess_"@);
}

/// The name of a session is a word and behind it small letters, digits and dashes; that
/// of a channel is letters, digits and four signs. Neither is long.
pub proof fn names_hold_plain_characters(raw: Seq<char>, prefix: Seq<char>)
    ensures
        is_id(raw, prefix) <==> {
            &&& crate::text::has_prefix(raw, prefix)
            &&& raw.len() > prefix.len()
            &&& vstd::utf8::encode_utf8(raw).len() <= 96
            &&& forall|i: int|
                prefix.len() <= i < raw.len() ==> ('a' <= #[trigger] raw[i] <= 'z') || ('0' <= raw[i]
                    <= '9') || raw[i] == '-'
        },
        is_channel(raw) <==> {
            &&& raw.len() > 0
            &&& vstd::utf8::encode_utf8(raw).len() <= 128
            &&& forall|i: int|
                0 <= i < raw.len() ==> ('a' <= #[trigger] raw[i] <= 'z') || ('A' <= raw[i] <= 'Z')
                    || ('0' <= raw[i] <= '9') || raw[i] == '_' || raw[i] == '-' || raw[i] == '.'
                    || raw[i] == ':'
        },
{
    if is_id(raw, prefix) {
        assert forall|i: int| prefix.len() <= i < raw.len() implies ('a' <= #[trigger] raw[i] <= 'z')
            || ('0' <= raw[i] <= '9') || raw[i] == '-' by {
            assert(is_id_char(raw[i]));
        }
    }
    if is_channel(raw) {
        assert forall|i: int| 0 <= i < raw.len() implies ('a' <= #[trigger] raw[i] <= 'z') || ('A'
            <= raw[i] <= 'Z') || ('0' <= raw[i] <= '9') || raw[i] == '_' || raw[i] == '-' || raw[i]
            == '.' || raw[i] == ':' by {
            assert(is_channel_char(raw[i]));
        }
    }
}

/// Each kind of event has its own word in the journal.
pub proof fn events_have_their_words(a: JournalEventKind, b: JournalEventKind)
    ensures
        a != b ==> a.word() != b.word(),
        JournalEventKind::SessionCreated.word() == "session-created"@,
        JournalEventKind::LeaseAcquired.word() == "lease-acquired"@,
        JournalEventKind::LeaseReleased.word() == "lease-released"@,
        JournalEventKind::ChannelMessageReceived.word() == "channel-message-received"@,
{
    reveal_strlit("session-created");
    reveal_strlit("lease-acquired");
    reveal_strlit("lease-released");
    reveal_strlit("channel-message-received");
    assert("session-created"@.len() == 15 && "lease-acquired"@.len() == 14
        && "lease-released"@.len() == 14 && "channel-message-received"@.len() == 24);
    assert("lease-acquired"@[6] == 'a' && "lease-released"@[6] == 'r');
}

} // verus!
