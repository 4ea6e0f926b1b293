//! The app server that other programs share, reached over a local WebSocket.

use vstd::prelude::*;

use crate::frames::lossy_text;
use crate::hashes::base64;
use crate::json::Json;
use crate::json::JsonModel;
use crate::lines::split_lines;
use crate::paths::join_path;
use crate::text::chars_of;
use crate::text::concat2;
use crate::text::concat3;
use crate::text::concat4;
use crate::text::contains_text;
use crate::text::copy_of;
use crate::text::string_of;

verus! {

// ---------------------------------------------------------------------------
// The socket
// ---------------------------------------------------------------------------

/// The socket of the app server of a home.
pub open spec fn socket_of(codex_home: Seq<char>) -> Seq<char> {
    crate::paths::joined_path(
        crate::paths::joined_path(codex_home, "app-server-control"@),
        "app-server-control.sock"@,
    )
}

/// The socket of the app server of a home.
pub fn socket_path(codex_home: &str) -> (out: String)
    ensures
        out@ == socket_of(codex_home@),
{
    join_path(join_path(codex_home, "app-server-control").as_str(), "app-server-control.sock")
}

/// What is known of an app server.
#[derive(Debug)]
pub struct DaemonStatus {
    pub running: bool,
    pub socket_path: String,
    pub app_server_version: Option<String>,
}

/// Whether an app server runs: its socket is there, and it answers.
pub fn is_running(socket_exists: bool, answers: bool) -> (out: bool)
    ensures
        out == (socket_exists && answers),
{
    socket_exists && answers
}

/// What is known of the app server of a home.
pub fn status(codex_home: &str, socket_exists: bool, answers: bool) -> (out: DaemonStatus)
    ensures
        out.running == (socket_exists && answers),
        out.socket_path@ == socket_of(codex_home@),
        out.app_server_version is None,
{
    DaemonStatus {
        running: is_running(socket_exists, answers),
        socket_path: socket_path(codex_home),
        app_server_version: None,
    }
}

// ---------------------------------------------------------------------------
// The handshake
// ---------------------------------------------------------------------------

/// The bytes of a key: the time, the process, and a mark.
pub open spec fn key_bytes(nanos: u128, pid: u32) -> Seq<u8> {
    seq![
        nanos as u8,
        (nanos >> 8) as u8,
        (nanos >> 16) as u8,
        (nanos >> 24) as u8,
        (nanos >> 32) as u8,
        (nanos >> 40) as u8,
        (nanos >> 48) as u8,
        (nanos >> 56) as u8,
        pid as u8,
        (pid >> 8) as u8,
        (pid >> 16) as u8,
        (pid >> 24) as u8,
        0xcau8,
        0xfeu8,
        0xbau8,
        0xbeu8,
    ]
}

/// The key of a handshake.
pub fn ws_key(nanos: u128, pid: u32) -> (out: String)
    ensures
        out@ == crate::hashes::base64_of(key_bytes(nanos, pid)),
{
    let mut bytes: Vec<u8> = Vec::new();
    bytes.push(#[verifier::truncate] (nanos as u8));
    bytes.push(#[verifier::truncate] ((nanos >> 8) as u8));
    bytes.push(#[verifier::truncate] ((nanos >> 16) as u8));
    bytes.push(#[verifier::truncate] ((nanos >> 24) as u8));
    bytes.push(#[verifier::truncate] ((nanos >> 32) as u8));
    bytes.push(#[verifier::truncate] ((nanos >> 40) as u8));
    bytes.push(#[verifier::truncate] ((nanos >> 48) as u8));
    bytes.push(#[verifier::truncate] ((nanos >> 56) as u8));
    bytes.push(#[verifier::truncate] (pid as u8));
    bytes.push(#[verifier::truncate] ((pid >> 8) as u8));
    bytes.push(#[verifier::truncate] ((pid >> 16) as u8));
    bytes.push(#[verifier::truncate] ((pid >> 24) as u8));
    bytes.push(0xca);
    bytes.push(0xfe);
    bytes.push(0xba);
    bytes.push(0xbe);
    proof {
        assert(bytes@ =~= key_bytes(nanos, pid));
    }
    base64(bytes.as_slice())
}

/// The request that opens a WebSocket.
pub fn handshake_request(key: &str) -> (out: String)
    ensures
        out@
            == "GET / HTTP/1.1\r\nHost: localhost\r\nUpgrade: websocket\r\nConnection: Upgrade\r\nSec-WebSocket-Key: "@
            + key@ + "\r\nSec-WebSocket-Version: 13\r\n\r\n"@,
{
    concat3(
        "GET / HTTP/1.1\r\nHost: localhost\r\nUpgrade: websocket\r\nConnection: Upgrade\r\nSec-WebSocket-Key: ",
        key,
        "\r\nSec-WebSocket-Version: 13\r\n\r\n",
    )
}

/// Whether the head of a response is complete: it ends with an empty line.
pub open spec fn is_complete(response: Seq<u8>) -> bool {
    response.len() >= 4 && response.skip(response.len() - 4) == seq![13u8, 10u8, 13u8, 10u8]
}

/// Whether the head of a response is complete.
pub fn handshake_complete(response: &Vec<u8>) -> (out: bool)
    ensures
        out == is_complete(response@),
{
    let n: usize = response.len();
    let out = n >= 4 && response[n - 4] == 13 && response[n - 3] == 10 && response[n - 2] == 13
        && response[n - 1] == 10;
    proof {
        if n >= 4 {
            let tail = response@.skip(n - 4);
            assert(tail.len() == 4);
            assert(tail[0] == response@[n - 4] && tail[1] == response@[n - 3] && tail[2]
                == response@[n - 2] && tail[3] == response@[n - 1]);
            if out {
                assert(tail =~= seq![13u8, 10u8, 13u8, 10u8]);
            } else {
                assert(tail[0] != 13 || tail[1] != 10 || tail[2] != 13 || tail[3] != 10);
            }
        }
    }
    out
}

/// The first line of a text.
pub open spec fn first_line(text: Seq<char>) -> Seq<char> {
    if crate::lines::lines_of(text).len() == 0 {
        seq![]
    } else {
        crate::lines::lines_of(text)[0]
    }
}

/// What follows from the head of a response, as text: an error unless its first
/// line holds the code of a switch of protocols.
pub fn check_handshake(text: &str) -> (out: Result<(), String>)
    ensures
        match out {
            Ok(_) => crate::text::has_text(first_line(text@), "101"@),
            Err(message) => !crate::text::has_text(first_line(text@), "101"@) && message@
                == "daemon handshake rejected: "@ + first_line(text@),
        },
{
    let lines = split_lines(&chars_of(text));
    let ghost all = crate::lines::lines_of(text@);
    proof {
        assert(all.len() == lines@.len());
    }
    let mut none: Vec<char> = Vec::new();
    let line = if lines.len() > 0 {
        proof {
            assert(all[0] == lines@[0]@);
        }
        &lines[0]
    } else {
        proof {
            assert(none@ =~= seq![]);
        }
        &none
    };
    if contains_text(line, "101") {
        Ok(())
    } else {
        Err(concat2("daemon handshake rejected: ", string_of(line).as_str()))
    }
}

/// What follows from the head of a response.
pub fn handshake_result(response: &[u8]) -> (out: Result<(), String>)
    ensures
        ({
            let line = first_line(crate::frames::lossy_of(response@));
            match out {
                Ok(_) => crate::text::has_text(line, "101"@),
                Err(message) => !crate::text::has_text(line, "101"@) && message@
                    == "daemon handshake rejected: "@ + line,
            }
        }),
{
    check_handshake(lossy_text(response).as_str())
}

// ---------------------------------------------------------------------------
// Requests
// ---------------------------------------------------------------------------

/// A JSON object with two members.
pub open spec fn object2(a: (Seq<char>, JsonModel), b: (Seq<char>, JsonModel)) -> JsonModel {
    JsonModel::Object(seq![a, b])
}

/// A JSON object with three members.
pub open spec fn object3(
    a: (Seq<char>, JsonModel),
    b: (Seq<char>, JsonModel),
    c: (Seq<char>, JsonModel),
) -> JsonModel {
    JsonModel::Object(seq![a, b, c])
}

fn build2(ka: &str, a: Json, kb: &str, b: Json) -> (out: Json)
    ensures
        out@ == object2((ka@, a@), (kb@, b@)),
{
    let ghost first = a@;
    let ghost second = b@;
    let mut members: Vec<(String, Json)> = Vec::new();
    members.push((copy_of(ka), a));
    members.push((copy_of(kb), b));
    let out = Json::Object(members);
    proof {
        crate::json::lemma_container_models(out);
        assert(crate::json::member_models(members@) =~= seq![(ka@, first), (kb@, second)]);
    }
    out
}

fn build3(ka: &str, a: Json, kb: &str, b: Json, kc: &str, c: Json) -> (out: Json)
    ensures
        out@ == object3((ka@, a@), (kb@, b@), (kc@, c@)),
{
    let ghost first = a@;
    let ghost second = b@;
    let ghost third = c@;
    let mut members: Vec<(String, Json)> = Vec::new();
    members.push((copy_of(ka), a));
    members.push((copy_of(kb), b));
    members.push((copy_of(kc), c));
    let out = Json::Object(members);
    proof {
        crate::json::lemma_container_models(out);
        assert(crate::json::member_models(members@) =~= seq![
            (ka@, first),
            (kb@, second),
            (kc@, third),
        ]);
    }
    out
}

fn empty_object() -> (out: Json)
    ensures
        out@ == JsonModel::Object(seq![]),
{
    let members: Vec<(String, Json)> = Vec::new();
    let out = Json::Object(members);
    proof {
        crate::json::lemma_container_models(out);
        assert(crate::json::member_models(members@) =~= seq![]);
    }
    out
}

fn text(value: &str) -> (out: Json)
    ensures
        out@ == JsonModel::Text(value@),
{
    Json::Text(copy_of(value))
}

/// The first request of a client.
pub fn initialize_request(version: &str) -> (out: Json)
    ensures
        out@ == object3(
            ("id"@, JsonModel::Text("cx-init"@)),
            ("method"@, JsonModel::Text("initialize"@)),
            (
                "params"@,
                object2(
                    (
                        "clientInfo"@,
                        object2(
                            ("name"@, JsonModel::Text("cx"@)),
                            ("version"@, JsonModel::Text(version@)),
                        ),
                    ),
                    ("capabilities"@, JsonModel::Object(seq![])),
                ),
            ),
        ),
{
    let client = build2("name", text("cx"), "version", text(version));
    let params = build2("clientInfo", client, "capabilities", empty_object());
    build3("id", text("cx-init"), "method", text("initialize"), "params", params)
}

/// What a client says once it was accepted.
pub fn initialized_notice() -> (out: Json)
    ensures
        out@ == object2(
            ("method"@, JsonModel::Text("initialized"@)),
            ("params"@, JsonModel::Object(seq![])),
        ),
{
    build2("method", text("initialized"), "params", empty_object())
}

/// A request of a client.
pub fn rpc_request(method: &str, params: Json) -> (out: Json)
    ensures
        out@ == object3(
            ("id"@, JsonModel::Text("cx-req"@)),
            ("method"@, JsonModel::Text(method@)),
            ("params"@, params@),
        ),
{
    build3("id", text("cx-req"), "method", text(method), "params", params)
}

/// The parameters of the request that probes an app server.
pub fn probe_params() -> (out: Json)
    ensures
        out@ == JsonModel::Object(seq![("refreshToken"@, JsonModel::Bool(false))]),
{
    let mut members: Vec<(String, Json)> = Vec::new();
    members.push((copy_of("refreshToken"), Json::Bool(false)));
    let out = Json::Object(members);
    proof {
        crate::json::lemma_container_models(out);
        assert(crate::json::member_models(members@) =~= seq![
            ("refreshToken"@, JsonModel::Bool(false)),
        ]);
    }
    out
}

// ---------------------------------------------------------------------------
// Responses
// ---------------------------------------------------------------------------

/// A message of the app server, as it was read: members that are missing or null are
/// none, and of an error only its words count.
#[derive(Debug)]
pub struct RpcResponse {
    pub id: Option<Json>,
    pub result: Option<Json>,
    pub error: Option<String>,
}

/// What a message of the app server says.
#[derive(Debug)]
pub enum RpcReply {
    /// It answers no request.
    Notice,
    Failed(String),
    Done(Json),
    Empty,
}

/// What a message of the app server says, over mathematical values.
pub enum ReplyModel {
    Notice,
    Failed(Seq<char>),
    Done(JsonModel),
    Empty,
}

impl View for RpcReply {
    type V = ReplyModel;

    open spec fn view(&self) -> ReplyModel {
        match *self {
            RpcReply::Notice => ReplyModel::Notice,
            RpcReply::Failed(message) => ReplyModel::Failed(message@),
            RpcReply::Done(result) => ReplyModel::Done(result@),
            RpcReply::Empty => ReplyModel::Empty,
        }
    }
}

/// What a message says: without a name it answers nothing, and an error comes before a
/// result.
pub open spec fn reply_of(response: RpcResponse) -> ReplyModel {
    if response.id is None {
        ReplyModel::Notice
    } else {
        match (response.error, response.result) {
            (Some(message), _) => ReplyModel::Failed(message@),
            (None, Some(result)) => ReplyModel::Done(result@),
            (None, None) => ReplyModel::Empty,
        }
    }
}

/// What the message `text` says. Where it could not be read as one, `parsed` says why.
pub fn read_reply(text: &str, parsed: Result<RpcResponse, String>) -> (out: Result<
    RpcReply,
    String,
>)
    ensures
        match (parsed, out) {
            (Ok(response), Ok(reply)) => reply@ == reply_of(response),
            (Err(reason), Err(message)) => message@ == "parse daemon response: "@ + text@ + ": "@
                + reason@,
            _ => false,
        },
{
    match parsed {
        Err(reason) => Err(concat4("parse daemon response: ", text, ": ", reason.as_str())),
        Ok(response) => if response.id.is_none() {
            Ok(RpcReply::Notice)
        } else {
            match (response.error, response.result) {
                (Some(message), _) => Ok(RpcReply::Failed(message)),
                (None, Some(result)) => Ok(RpcReply::Done(result)),
                (None, None) => Ok(RpcReply::Empty),
            }
        },
    }
}

/// What becomes of a request: nothing yet for a notice, else its result or why it
/// failed.
pub fn request_result(method: &str, reply: RpcReply) -> (out: Option<Result<Json, String>>)
    ensures
        match (reply@, out) {
            (ReplyModel::Notice, None) => true,
            (ReplyModel::Failed(reason), Some(Err(message))) => message@ == "daemon error ("@
                + method@ + "): "@ + reason,
            (ReplyModel::Done(model), Some(Ok(result))) => result@ == model,
            (ReplyModel::Empty, Some(Err(message))) => message@
                == "daemon returned empty result"@,
            _ => false,
        },
{
    match reply {
        RpcReply::Notice => None,
        RpcReply::Failed(reason) => Some(
            Err(concat4("daemon error (", method, "): ", reason.as_str())),
        ),
        RpcReply::Done(result) => Some(Ok(result)),
        RpcReply::Empty => Some(Err(copy_of("daemon returned empty result"))),
    }
}

/// What becomes of the first request: nothing yet for a notice, else success or why
/// it failed.
pub fn initialize_result(reply: RpcReply) -> (out: Option<Result<(), String>>)
    ensures
        match (reply@, out) {
            (ReplyModel::Notice, None) => true,
            (ReplyModel::Failed(reason), Some(Err(message))) => message@
                == "daemon initialize failed: "@ + reason,
            (ReplyModel::Done(_), Some(Ok(_))) => true,
            (ReplyModel::Empty, Some(Ok(_))) => true,
            _ => false,
        },
{
    match reply {
        RpcReply::Notice => None,
        RpcReply::Failed(reason) => Some(
            Err(concat2("daemon initialize failed: ", reason.as_str())),
        ),
        RpcReply::Done(_) => Some(Ok(())),
        RpcReply::Empty => Some(Ok(())),
    }
}

// ---------------------------------------------------------------------------
// Laws
// ---------------------------------------------------------------------------

/// A message without a name never ends a request, whatever else it holds.
pub proof fn notices_end_no_request(response: RpcResponse)
    requires
        response.id is None,
    ensures
        reply_of(response) == ReplyModel::Notice,
{
}

/// An answer to a request has failed where it holds an error, is done where it holds
/// only a result, and is empty where it holds neither.
pub proof fn answers_tell_how_they_ended(response: RpcResponse)
    requires
        response.id is Some,
    ensures
        response.error matches Some(message) ==> reply_of(response) == ReplyModel::Failed(message@),
        response.error is None ==> (response.result matches Some(result) ==> reply_of(response)
            == ReplyModel::Done(result@)),
        response.error is None && response.result is None ==> reply_of(response)
            == ReplyModel::Empty,
{
}

/// The head of a response is read once its last four bytes are two line ends, and not
/// before.
pub proof fn heads_end_with_an_empty_line(head: Seq<u8>, response: Seq<u8>)
    ensures
        is_complete(head + seq![13u8, 10u8, 13u8, 10u8]),
        is_complete(response) ==> response == response.take(response.len() - 4) + seq![
            13u8,
            10u8,
            13u8,
            10u8,
        ],
        response.len() < 4 ==> !is_complete(response),
{
    let whole = head + seq![13u8, 10u8, 13u8, 10u8];
    assert(whole.skip(whole.len() - 4) =~= seq![13u8, 10u8, 13u8, 10u8]);
    if is_complete(response) {
        assert(response =~= response.take(response.len() - 4) + response.skip(response.len() - 4));
    }
}

/// The socket of a home lies below it.
pub proof fn sockets_lie_in_their_home(codex_home: Seq<char>)
    requires
        codex_home.len() > 0,
        codex_home.last() != '/',
    ensures
        socket_of(codex_home) == codex_home + "/app-server-control/app-server-control.sock"@,
{
    reveal_strlit("app-server-control");
    reveal_strlit("app-server-control.sock");
    reveal_strlit("/app-server-control/app-server-control.sock");
    let below = crate::paths::joined_path(codex_home, "app-server-control"@);
    assert(below =~= codex_home.push('/') + "app-server-control"@);
    assert(below.last() == 'l');
    assert(socket_of(codex_home) =~= codex_home
        + "/app-server-control/app-server-control.sock"@);
}

/// A key has sixteen bytes. Its first byte counts the moment, its ninth the process:
/// keys of two moments or of two processes that differ there differ.
pub proof fn keys_tell_moments_and_processes_apart(a: u128, b: u128, p: u32, q: u32)
    ensures
        key_bytes(a, p).len() == 16,
        key_bytes(a, p) == key_bytes(b, q) ==> a % 0x1_0000_0000_0000_0000 == b
            % 0x1_0000_0000_0000_0000 && p == q,
{
    let x = key_bytes(a, p);
    let y = key_bytes(b, q);
    if x == y {
        assert(x[0] == y[0] && x[1] == y[1] && x[2] == y[2] && x[3] == y[3]);
        assert(x[4] == y[4] && x[5] == y[5] && x[6] == y[6] && x[7] == y[7]);
        assert(x[8] == y[8] && x[9] == y[9] && x[10] == y[10] && x[11] == y[11]);
        assert(a % 0x1_0000_0000_0000_0000 == b % 0x1_0000_0000_0000_0000) by (bit_vector)
            requires
                a as u8 == b as u8,
                (a >> 8) as u8 == (b >> 8) as u8,
                (a >> 16) as u8 == (b >> 16) as u8,
                (a >> 24) as u8 == (b >> 24) as u8,
                (a >> 32) as u8 == (b >> 32) as u8,
                (a >> 40) as u8 == (b >> 40) as u8,
                (a >> 48) as u8 == (b >> 48) as u8,
                (a >> 56) as u8 == (b >> 56) as u8,
        ;
        assert(p == q) by (bit_vector)
            requires
                p as u8 == q as u8,
                (p >> 8) as u8 == (q >> 8) as u8,
                (p >> 16) as u8 == (q >> 16) as u8,
                (p >> 24) as u8 == (q >> 24) as u8,
        ;
    }
}

} // verus!
