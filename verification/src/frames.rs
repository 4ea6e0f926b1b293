//! WebSocket frames: the bytes of one frame, and text messages made of frames.

use vstd::prelude::*;
use vstd::utf8::*;

use crate::numbers::decimal;
use crate::text::concat2;
use crate::text::concat3;

verus! {

/// The longest payload that is accepted.
pub const MAX_PAYLOAD: u64 = 16777216;

/// The text of the error with which `String::from_utf8` refuses bytes.
pub uninterp spec fn utf8_refusal(bytes: Seq<u8>) -> Seq<char>;

/// `String::from_utf8`: succeeds exactly on well-formed UTF-8, and then yields
/// the text that is encoded as `bytes`; else the text of its error.
#[verifier::external_body]
pub(crate) fn utf8_text(bytes: Vec<u8>) -> (out: Result<String, String>)
    ensures
        match out {
            Ok(text) => valid_utf8(bytes@) && encode_utf8(text@) == bytes@,
            Err(reason) => !valid_utf8(bytes@) && reason@ == utf8_refusal(bytes@),
        },
{
    String::from_utf8(bytes).map_err(|error: std::string::FromUtf8Error| error.to_string())
}

/// What `String::from_utf8_lossy` makes of bytes.
pub uninterp spec fn lossy_of(bytes: Seq<u8>) -> Seq<char>;

/// `String::from_utf8_lossy`: bytes of valid UTF-8 are the text that they encode.
/// What stands for other bytes is not stated.
#[verifier::external_body]
pub(crate) fn lossy_text(bytes: &[u8]) -> (out: String)
    ensures
        out@ == lossy_of(bytes@),
        vstd::utf8::valid_utf8(bytes@) ==> out@ == vstd::utf8::decode_utf8(bytes@),
{
    String::from_utf8_lossy(bytes).into_owned()
}

/// One frame, its payload unmasked.
pub struct Frame {
    pub fin: bool,
    pub opcode: u8,
    pub payload: Vec<u8>,
}

/// What a run of bytes starts with.
pub enum Decoded {
    /// At least this many bytes are needed before more can be said.
    Incomplete(usize),
    /// A frame whose payload is longer than `MAX_PAYLOAD`.
    TooLarge(u64),
    /// A whole frame, and the number of bytes that it takes.
    Whole(Frame, usize),
}

/// A frame over mathematical values.
pub struct FrameModel {
    pub fin: bool,
    pub opcode: u8,
    pub payload: Seq<u8>,
}

/// What a run of bytes starts with, over mathematical values.
pub enum DecodedModel {
    Incomplete(int),
    TooLarge(nat),
    Whole(FrameModel, int),
}

impl View for Frame {
    type V = FrameModel;

    open spec fn view(&self) -> FrameModel {
        FrameModel { fin: self.fin, opcode: self.opcode, payload: self.payload@ }
    }
}

impl View for Decoded {
    type V = DecodedModel;

    open spec fn view(&self) -> DecodedModel {
        match self {
            Decoded::Incomplete(n) => DecodedModel::Incomplete(*n as int),
            Decoded::TooLarge(n) => DecodedModel::TooLarge(*n as nat),
            Decoded::Whole(frame, n) => DecodedModel::Whole(frame@, *n as int),
        }
    }
}

// ---------------------------------------------------------------------------
// Lengths
// ---------------------------------------------------------------------------

/// The number that the bytes `s` denote, the most significant byte first.
pub open spec fn be_value(s: Seq<u8>) -> nat
    decreases s.len(),
{
    if s.len() == 0 {
        0
    } else {
        256 * be_value(s.drop_last()) + s.last() as nat
    }
}

/// `n` as `width` bytes, the most significant byte first.
pub open spec fn be_bytes(n: nat, width: nat) -> Seq<u8>
    decreases width,
{
    if width == 0 {
        seq![]
    } else {
        be_bytes(n / 256, (width - 1) as nat).push((n % 256) as u8)
    }
}

/// The largest number that fits in `width` bytes, plus one.
pub open spec fn be_limit(width: nat) -> nat
    decreases width,
{
    if width == 0 {
        1
    } else {
        256 * be_limit((width - 1) as nat)
    }
}

proof fn lemma_be_round_trip(n: nat, width: nat)
    requires
        n < be_limit(width),
    ensures
        be_bytes(n, width).len() == width,
        be_value(be_bytes(n, width)) == n,
    decreases width,
{
    if width > 0 {
        lemma_be_round_trip(n / 256, (width - 1) as nat);
        let s = be_bytes(n, width);
        assert(s.drop_last() =~= be_bytes(n / 256, (width - 1) as nat));
    }
}

proof fn lemma_be_value_bound(s: Seq<u8>)
    ensures
        be_value(s) < be_limit(s.len()),
    decreases s.len(),
{
    if s.len() > 0 {
        lemma_be_value_bound(s.drop_last());
    }
}

proof fn lemma_be_limits()
    ensures
        be_limit(2) == 65536,
        be_limit(8) == 18446744073709551616,
{
    reveal_with_fuel(be_limit, 9);
}

/// The number of length bytes that follow the second header byte.
pub open spec fn extra_len(h1: u8) -> int {
    if h1 % 128 == 126 {
        2
    } else if h1 % 128 == 127 {
        8
    } else {
        0
    }
}

/// Whether the second header byte announces a mask.
pub open spec fn is_masked(h1: u8) -> bool {
    h1 >= 128
}

/// The payload length that a header states.
pub open spec fn stated_len(s: Seq<u8>) -> nat {
    if extra_len(s[1]) == 0 {
        (s[1] % 128) as nat
    } else {
        be_value(s.subrange(2, 2 + extra_len(s[1])))
    }
}

/// `payload` with `mask` applied, over and over.
pub open spec fn masked(payload: Seq<u8>, mask: Seq<u8>) -> Seq<u8> {
    Seq::new(payload.len(), |i: int| payload[i] ^ mask[i % 4])
}

/// What the bytes `s` start with.
pub open spec fn decoded(s: Seq<u8>) -> DecodedModel {
    if s.len() < 2 {
        DecodedModel::Incomplete(2)
    } else if s.len() < 2 + extra_len(s[1]) {
        DecodedModel::Incomplete(2 + extra_len(s[1]))
    } else if stated_len(s) > MAX_PAYLOAD {
        DecodedModel::TooLarge(stated_len(s))
    } else {
        let at = 2 + extra_len(s[1]);
        let body = if is_masked(s[1]) {
            at + 4
        } else {
            at
        };
        let end = body + stated_len(s);
        if s.len() < end {
            DecodedModel::Incomplete(end)
        } else {
            let raw = s.subrange(body, end);
            let payload = if is_masked(s[1]) {
                masked(raw, s.subrange(at, at + 4))
            } else {
                raw
            };
            DecodedModel::Whole(
                FrameModel { fin: s[0] >= 128, opcode: s[0] % 16, payload },
                end,
            )
        }
    }
}

fn be_read(s: &Vec<u8>, from: usize, width: usize) -> (out: u64)
    requires
        width <= 8,
        from + width <= s@.len(),
    ensures
        out == be_value(s@.subrange(from as int, from + width)),
{
    let mut value: u64 = 0;
    let mut i: usize = 0;
    while i < width
        invariant
            i <= width <= 8,
            from + width <= s.len(),
            value == be_value(s@.subrange(from as int, from + i)),
        decreases width - i,
    {
        proof {
            reveal_with_fuel(be_limit, 9);
            let t = s@.subrange(from as int, from + i);
            lemma_be_value_bound(t);
            lemma_be_limit_grows(t.len(), 7);
            let u = s@.subrange(from as int, from + i + 1);
            assert(u.drop_last() =~= t);
        }
        value = 256 * value + s[from + i] as u64;
        i += 1;
    }
    value
}

proof fn lemma_be_limit_grows(a: nat, b: nat)
    requires
        a <= b,
    ensures
        1 <= be_limit(a) <= be_limit(b),
    decreases b,
{
    if a < b {
        lemma_be_limit_grows(a, (b - 1) as nat);
    } else if a > 0 {
        lemma_be_limit_grows((a - 1) as nat, (a - 1) as nat);
    }
}

/// Reads the frame that `s` starts with.
pub fn decode_frame(s: &Vec<u8>) -> (out: Decoded)
    ensures
        out@ == decoded(s@),
{
    if s.len() < 2 {
        return Decoded::Incomplete(2);
    }
    let short: u8 = s[1] % 128;
    let has_mask = s[1] >= 128;
    let extra: usize = if short == 126 {
        2
    } else if short == 127 {
        8
    } else {
        0
    };
    let at: usize = 2 + extra;
    if s.len() < at {
        return Decoded::Incomplete(at);
    }
    let len: u64 = if extra == 0 {
        short as u64
    } else {
        be_read(s, 2, extra)
    };
    if len > MAX_PAYLOAD {
        return Decoded::TooLarge(len);
    }
    let body: usize = if has_mask {
        at + 4
    } else {
        at
    };
    let end: usize = body + len as usize;
    if s.len() < end {
        return Decoded::Incomplete(end);
    }
    let ghost raw = s@.subrange(body as int, end as int);
    let ghost mask = s@.subrange(at as int, at + 4);
    let mut payload: Vec<u8> = Vec::new();
    let mut i: usize = body;
    while i < end
        invariant
            2 <= at <= body <= i <= end <= s@.len(),
            has_mask ==> body == at + 4,
            raw == s@.subrange(body as int, end as int),
            mask == s@.subrange(at as int, at + 4),
            payload@.len() == i - body,
            forall|j: int|
                0 <= j < payload@.len() ==> #[trigger] payload@[j] == (if has_mask {
                    raw[j] ^ mask[j % 4]
                } else {
                    raw[j]
                }),
        decreases end - i,
    {
        let b: u8 = s[i];
        if has_mask {
            let m: u8 = s[at + (i - body) % 4];
            payload.push(b ^ m);
        } else {
            payload.push(b);
        }
        i += 1;
    }
    proof {
        if has_mask {
            assert(payload@ =~= masked(raw, mask));
        } else {
            assert(payload@ =~= raw);
        }
    }
    Decoded::Whole(Frame { fin: s[0] >= 128, opcode: s[0] % 16, payload }, end)
}

// ---------------------------------------------------------------------------
// Writing frames
// ---------------------------------------------------------------------------

/// The header bytes behind the first one, for a payload of `n` bytes. `bit` is
/// 128 where a mask follows and 0 where none does.
pub open spec fn length_bytes(n: nat, bit: u8) -> Seq<u8> {
    if n < 126 {
        seq![(bit + n) as u8]
    } else if n <= 0xffff {
        seq![(bit + 126) as u8] + be_bytes(n, 2)
    } else {
        seq![(bit + 127) as u8] + be_bytes(n, 8)
    }
}

/// The mask that is put on everything sent.
pub open spec fn client_mask() -> Seq<u8> {
    seq![0x12u8, 0x34u8, 0x56u8, 0x78u8]
}

/// The frame in which `payload` is sent as one whole text message.
pub open spec fn text_frame_bytes(payload: Seq<u8>) -> Seq<u8> {
    seq![0x81u8] + length_bytes(payload.len(), 128) + client_mask() + masked(
        payload,
        client_mask(),
    )
}

/// The frame that answers a ping with `payload`.
pub open spec fn pong_bytes(payload: Seq<u8>) -> Seq<u8> {
    seq![0x8au8] + length_bytes(payload.len(), 0) + payload
}

fn push_be(out: &mut Vec<u8>, n: u64, width: usize)
    requires
        width <= 8,
    ensures
        final(out)@ == old(out)@ + be_bytes(n as nat, width as nat),
    decreases width,
{
    if width > 0 {
        push_be(out, n / 256, width - 1);
        out.push((n % 256) as u8);
        proof {
            let start = old(out)@;
            assert(out@ =~= start + be_bytes(n as nat, width as nat));
        }
    } else {
        proof {
            assert(old(out)@ + be_bytes(n as nat, 0) =~= old(out)@);
        }
    }
}

fn push_length(out: &mut Vec<u8>, n: usize, bit: u8)
    requires
        bit == 0 || bit == 128,
    ensures
        final(out)@ == old(out)@ + length_bytes(n as nat, bit),
{
    let ghost start = out@;
    if n < 126 {
        out.push(bit + n as u8);
        proof {
            assert(out@ =~= start + length_bytes(n as nat, bit));
        }
    } else if n <= 0xffff {
        out.push(bit + 126);
        push_be(out, n as u64, 2);
        proof {
            assert(out@ =~= start + length_bytes(n as nat, bit));
        }
    } else {
        out.push(bit + 127);
        push_be(out, n as u64, 8);
        proof {
            assert(out@ =~= start + length_bytes(n as nat, bit));
        }
    }
}

/// The bytes that send `text` as one masked text frame.
pub fn ws_send_text(text: &str) -> (out: Vec<u8>)
    ensures
        out@ == text_frame_bytes(encode_utf8(text@)),
{
    let payload = text.as_bytes();
    let mask: [u8; 4] = [0x12u8, 0x34u8, 0x56u8, 0x78u8];
    let mut frame: Vec<u8> = Vec::new();
    frame.push(0x81);
    push_length(&mut frame, payload.len(), 128);
    frame.push(0x12);
    frame.push(0x34);
    frame.push(0x56);
    frame.push(0x78);
    let ghost p = encode_utf8(text@);
    let ghost head = seq![0x81u8] + length_bytes(p.len(), 128) + client_mask();
    proof {
        assert(frame@ =~= head);
        assert(mask@ =~= client_mask());
    }
    let mut i: usize = 0;
    while i < payload.len()
        invariant
            i <= payload.len(),
            payload@ == p,
            mask@ == client_mask(),
            frame@ == head + masked(p, client_mask()).take(i as int),
        decreases payload.len() - i,
    {
        let m: u8 = mask[i % 4];
        frame.push(payload[i] ^ m);
        proof {
            let all = masked(p, client_mask());
            assert(all.take(i + 1) =~= all.take(i as int).push(all[i as int]));
            assert(frame@ =~= head + all.take(i + 1));
        }
        i += 1;
    }
    proof {
        let all = masked(p, client_mask());
        assert(all.take(p.len() as int) =~= all);
        assert(frame@ =~= text_frame_bytes(p));
    }
    frame
}

/// The bytes that answer a ping.
pub fn pong_frame(payload: &Vec<u8>) -> (out: Vec<u8>)
    ensures
        out@ == pong_bytes(payload@),
{
    let mut pong: Vec<u8> = Vec::new();
    pong.push(0x8a);
    push_length(&mut pong, payload.len(), 0);
    let ghost head = seq![0x8au8] + length_bytes(payload@.len(), 0);
    proof {
        assert(pong@ =~= head);
    }
    pong.extend_from_slice(payload.as_slice());
    proof {
        assert(pong@ =~= pong_bytes(payload@));
    }
    pong
}

// ---------------------------------------------------------------------------
// Messages
// ---------------------------------------------------------------------------

/// The text message that is being received: `None` between messages, the bytes
/// so far within one that came in several frames.
pub struct Assembly {
    pub fragments: Option<Vec<u8>>,
}

/// The bytes received so far of the current message.
pub open spec fn assembled(state: Assembly) -> Option<Seq<u8>> {
    match state.fragments {
        Some(bytes) => Some(bytes@),
        None => None,
    }
}

/// What a frame leads to.
pub enum Received {
    /// Wait for the next frame.
    Continue,
    /// Send these bytes, then wait for the next frame.
    Reply(Vec<u8>),
    /// The message is complete.
    Text(String),
    /// The connection is of no further use.
    Fail(String),
}

/// What a frame leads to, over mathematical values. A complete message is
/// given by its bytes.
pub enum ReceivedModel {
    Continue,
    Reply(Seq<u8>),
    Text(Seq<u8>),
    Fail(Seq<char>),
}

impl View for Received {
    type V = ReceivedModel;

    open spec fn view(&self) -> ReceivedModel {
        match self {
            Received::Continue => ReceivedModel::Continue,
            Received::Reply(bytes) => ReceivedModel::Reply(bytes@),
            Received::Text(text) => ReceivedModel::Text(encode_utf8(text@)),
            Received::Fail(message) => ReceivedModel::Fail(message@),
        }
    }
}

/// A finished message, which must be UTF-8.
pub open spec fn finished(bytes: Seq<u8>) -> ReceivedModel {
    if valid_utf8(bytes) {
        ReceivedModel::Text(bytes)
    } else {
        ReceivedModel::Fail("invalid UTF-8 in daemon response: "@ + utf8_refusal(bytes))
    }
}

/// What `frame` leads to when `before` has been received of a message, and what
/// has been received of one afterwards.
pub open spec fn after_frame(before: Option<Seq<u8>>, frame: FrameModel) -> (
    ReceivedModel,
    Option<Seq<u8>>,
) {
    if frame.opcode == 1 {
        if before is Some {
            (ReceivedModel::Fail("unexpected text frame during fragmentation"@), before)
        } else if frame.fin {
            (finished(frame.payload), None)
        } else {
            (ReceivedModel::Continue, Some(frame.payload))
        }
    } else if frame.opcode == 0 {
        if before is None {
            (ReceivedModel::Fail("unexpected continuation frame without start"@), before)
        } else if frame.fin {
            (finished(before->0 + frame.payload), None)
        } else {
            (ReceivedModel::Continue, Some(before->0 + frame.payload))
        }
    } else if frame.opcode == 8 {
        (ReceivedModel::Fail("daemon closed connection"@), before)
    } else if frame.opcode == 9 {
        (ReceivedModel::Reply(pong_bytes(frame.payload)), before)
    } else {
        (
            ReceivedModel::Fail(
                "unexpected daemon frame opcode: "@ + crate::numbers::decimal_of(
                    frame.opcode as nat,
                ),
            ),
            before,
        )
    }
}

fn finish(bytes: Vec<u8>) -> (out: Received)
    ensures
        out@ == finished(bytes@),
{
    match utf8_text(bytes) {
        Ok(text) => Received::Text(text),
        Err(reason) => Received::Fail(
            concat2("invalid UTF-8 in daemon response: ", reason.as_str()),
        ),
    }
}

impl Assembly {
    /// The state between two messages.
    pub fn new() -> (out: Assembly)
        ensures
            assembled(out) is None,
    {
        Assembly { fragments: None }
    }

    /// Takes the next frame.
    pub fn accept(&mut self, frame: Frame) -> (out: Received)
        ensures
            (out@, assembled(*final(self))) == after_frame(assembled(*old(self)), frame@),
    {
        if frame.opcode == 1 {
            if self.fragments.is_some() {
                return Received::Fail(
                    String::from_str("unexpected text frame during fragmentation"),
                );
            }
            if frame.fin {
                return finish(frame.payload);
            }
            self.fragments = Some(frame.payload);
            Received::Continue
        } else if frame.opcode == 0 {
            match self.fragments.take() {
                None => Received::Fail(
                    String::from_str("unexpected continuation frame without start"),
                ),
                Some(bytes) => {
                    let mut all = bytes;
                    let ghost start = all@;
                    all.extend_from_slice(frame.payload.as_slice());
                    proof {
                        assert(all@ =~= start + frame.payload@);
                    }
                    if frame.fin {
                        return finish(all);
                    }
                    self.fragments = Some(all);
                    Received::Continue
                },
            }
        } else if frame.opcode == 8 {
            Received::Fail(String::from_str("daemon closed connection"))
        } else if frame.opcode == 9 {
            Received::Reply(pong_frame(&frame.payload))
        } else {
            Received::Fail(
                concat2("unexpected daemon frame opcode: ", decimal(frame.opcode as u64).as_str()),
            )
        }
    }
}

/// The message for a frame whose payload is too long.
pub fn too_large_message(len: u64) -> (out: String)
    ensures
        out@ == "daemon frame too large: "@ + crate::numbers::decimal_of(len as nat) + " bytes"@,
{
    concat3("daemon frame too large: ", decimal(len).as_str(), " bytes")
}

// ---------------------------------------------------------------------------
// Laws
// ---------------------------------------------------------------------------

/// Masking twice with the same mask changes nothing.
pub proof fn masking_is_an_involution(payload: Seq<u8>, mask: Seq<u8>)
    requires
        mask.len() == 4,
    ensures
        masked(masked(payload, mask), mask) == payload,
{
    let once = masked(payload, mask);
    assert forall|i: int| 0 <= i < payload.len() implies #[trigger] masked(once, mask)[i]
        == payload[i] by {
        let a = payload[i];
        let m = mask[i % 4];
        assert((a ^ m) ^ m == a) by (bit_vector);
    }
    assert(masked(once, mask) =~= payload);
}

proof fn lemma_length_bytes(n: nat, bit: u8, head: u8, rest: Seq<u8>)
    requires
        bit == 0 || bit == 128,
        n < 18446744073709551616,
    ensures
        ({
            let s = seq![head] + length_bytes(n, bit) + rest;
            &&& s.len() >= 2
            &&& s[0] == head
            &&& is_masked(s[1]) == (bit == 128)
            &&& length_bytes(n, bit).len() == 1 + extra_len(s[1])
            &&& stated_len(s) == n
        }),
{
    lemma_be_limits();
    let l = length_bytes(n, bit);
    let s = seq![head] + l + rest;
    if n < 126 {
        assert(s[1] == (bit + n) as u8);
    } else if n <= 0xffff {
        lemma_be_round_trip(n, 2);
        assert(s[1] == (bit + 126) as u8);
        assert(s.subrange(2, 4) =~= be_bytes(n, 2));
    } else {
        lemma_be_round_trip(n, 8);
        assert(s[1] == (bit + 127) as u8);
        assert(s.subrange(2, 10) =~= be_bytes(n, 8));
    }
}

/// What is sent as a text frame is read back as one final text frame with the
/// same payload, whatever follows it.
pub proof fn sent_text_is_read_back(payload: Seq<u8>, rest: Seq<u8>)
    requires
        payload.len() <= MAX_PAYLOAD,
    ensures
        decoded(text_frame_bytes(payload) + rest) == DecodedModel::Whole(
            FrameModel { fin: true, opcode: 1, payload },
            text_frame_bytes(payload).len() as int,
        ),
{
    let l = length_bytes(payload.len(), 128);
    let m = client_mask();
    let body = masked(payload, m);
    let s = text_frame_bytes(payload) + rest;
    lemma_length_bytes(payload.len(), 128, 0x81, m + body + rest);
    assert(s =~= seq![0x81u8] + l + (m + body + rest));
    let at = 2 + extra_len(s[1]);
    assert(s.subrange(at, at + 4) =~= m);
    assert(s.subrange(at + 4, at + 4 + payload.len()) =~= body);
    masking_is_an_involution(payload, m);
}

/// A ping is answered with a frame that is read back as a final pong with the
/// payload of the ping.
pub proof fn pong_carries_the_ping(payload: Seq<u8>, rest: Seq<u8>)
    requires
        payload.len() <= MAX_PAYLOAD,
    ensures
        decoded(pong_bytes(payload) + rest) == DecodedModel::Whole(
            FrameModel { fin: true, opcode: 10, payload },
            pong_bytes(payload).len() as int,
        ),
{
    let l = length_bytes(payload.len(), 0);
    let s = pong_bytes(payload) + rest;
    lemma_length_bytes(payload.len(), 0, 0x8a, payload + rest);
    assert(s =~= seq![0x8au8] + l + (payload + rest));
    let at = 2 + extra_len(s[1]);
    assert(s.subrange(at, at + payload.len()) =~= payload);
}

/// A message that comes in two frames is the message that comes in one, and a
/// ping between them changes nothing.
pub proof fn fragments_make_one_message(first: Seq<u8>, second: Seq<u8>, ping: Seq<u8>)
    ensures
        ({
            let (_, one) = after_frame(None, FrameModel { fin: false, opcode: 1, payload: first });
            let (_, two) = after_frame(one, FrameModel { fin: true, opcode: 9, payload: ping });
            after_frame(two, FrameModel { fin: true, opcode: 0, payload: second })
        }) == after_frame(None, FrameModel { fin: true, opcode: 1, payload: first + second }),
{
}

/// More bytes never change what a run of bytes was found to start with, once
/// that is a frame or a refusal.
pub proof fn decoding_is_stable(s: Seq<u8>, more: Seq<u8>)
    requires
        !(decoded(s) is Incomplete),
    ensures
        decoded(s + more) == decoded(s),
{
    let t = s + more;
    assert(t[0] == s[0] && t[1] == s[1]);
    let e = extra_len(s[1]);
    assert(t.subrange(2, 2 + e) =~= s.subrange(2, 2 + e));
    if let DecodedModel::Whole(_, end) = decoded(s) {
        let at = 2 + e;
        let body = if is_masked(s[1]) {
            at + 4
        } else {
            at
        };
        assert(t.subrange(body, end) =~= s.subrange(body, end));
        if is_masked(s[1]) {
            assert(t.subrange(at, at + 4) =~= s.subrange(at, at + 4));
        }
    }
}

/// A message that is text is handed on as it is, and one that is not is refused.
pub proof fn messages_are_text(bytes: Seq<u8>)
    ensures
        valid_utf8(bytes) ==> finished(bytes) == ReceivedModel::Text(bytes),
        !valid_utf8(bytes) ==> finished(bytes) is Fail,
{
}

} // verus!
