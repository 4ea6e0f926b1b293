//! Routing of app-server messages by method and by the threads and turns that
//! they name.

use vstd::prelude::*;

use crate::json::Json;
use crate::json::JsonModel;
use crate::text::same;

verus! {

/// Where a request goes.
#[derive(Debug)]
pub enum BrokerRoute {
    Initialize,
    ThreadList,
    ThreadRead { thread_id: String },
    ThreadResume { thread_id: String },
    ThreadStart,
    ThreadUnsubscribe { thread_id: String },
    TurnStart { thread_id: String },
    TurnSteer { thread_id: String, turn_id: String },
    TurnInterrupt { thread_id: String, turn_id: String },
    WorkerByThread { thread_id: String },
    WorkerDefault,
}

/// Where a request goes, over mathematical values.
pub enum RouteModel {
    Initialize,
    ThreadList,
    ThreadRead(Seq<char>),
    ThreadResume(Seq<char>),
    ThreadStart,
    ThreadUnsubscribe(Seq<char>),
    TurnStart(Seq<char>),
    TurnSteer(Seq<char>, Seq<char>),
    TurnInterrupt(Seq<char>, Seq<char>),
    WorkerByThread(Seq<char>),
    WorkerDefault,
}

impl View for BrokerRoute {
    type V = RouteModel;

    open spec fn view(&self) -> RouteModel {
        match self {
            BrokerRoute::Initialize => RouteModel::Initialize,
            BrokerRoute::ThreadList => RouteModel::ThreadList,
            BrokerRoute::ThreadRead { thread_id } => RouteModel::ThreadRead(thread_id@),
            BrokerRoute::ThreadResume { thread_id } => RouteModel::ThreadResume(thread_id@),
            BrokerRoute::ThreadStart => RouteModel::ThreadStart,
            BrokerRoute::ThreadUnsubscribe { thread_id } => RouteModel::ThreadUnsubscribe(
                thread_id@,
            ),
            BrokerRoute::TurnStart { thread_id } => RouteModel::TurnStart(thread_id@),
            BrokerRoute::TurnSteer { thread_id, turn_id } => RouteModel::TurnSteer(
                thread_id@,
                turn_id@,
            ),
            BrokerRoute::TurnInterrupt { thread_id, turn_id } => RouteModel::TurnInterrupt(
                thread_id@,
                turn_id@,
            ),
            BrokerRoute::WorkerByThread { thread_id } => RouteModel::WorkerByThread(thread_id@),
            BrokerRoute::WorkerDefault => RouteModel::WorkerDefault,
        }
    }
}

/// The text of the member `key` of optional parameters.
pub open spec fn param_text(params: Option<JsonModel>, key: Seq<char>) -> Option<Seq<char>> {
    match params {
        Some(value) => value.member_text(key),
        None => None,
    }
}

/// The text of the member `inner` of the member `outer` of optional parameters.
pub open spec fn nested_text(
    params: Option<JsonModel>,
    outer: Seq<char>,
    inner: Seq<char>,
) -> Option<Seq<char>> {
    match params {
        Some(value) => param_text(value.member(outer), inner),
        None => None,
    }
}

fn get_param(params: Option<&Json>, key: &str) -> (out: Option<String>)
    ensures
        crate::text::opt_text(out) == param_text(crate::json::opt_ref_model(params), key@),
{
    match params {
        Some(value) => value.get_text(key),
        None => None,
    }
}

fn get_nested(params: Option<&Json>, outer: &str, inner: &str) -> (out: Option<String>)
    ensures
        crate::text::opt_text(out) == nested_text(
            crate::json::opt_ref_model(params),
            outer@,
            inner@,
        ),
{
    match params {
        Some(value) => get_param(value.get(outer), inner),
        None => None,
    }
}

/// Where a request goes: by its method, and for methods that concern a thread by
/// the thread. A request that does not name its thread goes to the default worker;
/// one that names its thread but not its turn goes to the worker of the thread.
pub open spec fn route_of(method: Seq<char>, params: Option<JsonModel>) -> RouteModel {
    let thread = param_text(params, "threadId"@);
    let turn = if method == "turn/steer"@ {
        param_text(params, "expectedTurnId"@)
    } else {
        param_text(params, "turnId"@)
    };
    if method == "initialize"@ {
        RouteModel::Initialize
    } else if method == "thread/list"@ {
        RouteModel::ThreadList
    } else if method == "thread/start"@ {
        RouteModel::ThreadStart
    } else {
        match thread {
            None => RouteModel::WorkerDefault,
            Some(id) => if method == "thread/read"@ {
                RouteModel::ThreadRead(id)
            } else if method == "thread/resume"@ {
                RouteModel::ThreadResume(id)
            } else if method == "thread/unsubscribe"@ {
                RouteModel::ThreadUnsubscribe(id)
            } else if method == "turn/start"@ {
                RouteModel::TurnStart(id)
            } else if method == "turn/steer"@ && turn is Some {
                RouteModel::TurnSteer(id, turn->0)
            } else if method == "turn/interrupt"@ && turn is Some {
                RouteModel::TurnInterrupt(id, turn->0)
            } else {
                RouteModel::WorkerByThread(id)
            },
        }
    }
}

/// Where a request goes.
pub fn route_request(method: &str, params: Option<&Json>) -> (out: BrokerRoute)
    ensures
        out@ == route_of(method@, crate::json::opt_ref_model(params)),
{
    if same(method, "initialize") {
        return BrokerRoute::Initialize;
    }
    if same(method, "thread/list") {
        return BrokerRoute::ThreadList;
    }
    if same(method, "thread/start") {
        return BrokerRoute::ThreadStart;
    }
    let thread_id = match get_param(params, "threadId") {
        Some(id) => id,
        None => {
            return BrokerRoute::WorkerDefault;
        },
    };
    if same(method, "thread/read") {
        return BrokerRoute::ThreadRead { thread_id };
    }
    if same(method, "thread/resume") {
        return BrokerRoute::ThreadResume { thread_id };
    }
    if same(method, "thread/unsubscribe") {
        return BrokerRoute::ThreadUnsubscribe { thread_id };
    }
    if same(method, "turn/start") {
        return BrokerRoute::TurnStart { thread_id };
    }
    if same(method, "turn/steer") {
        proof {
            reveal_strlit("turn/steer");
            reveal_strlit("turn/interrupt");
        }
        return match get_param(params, "expectedTurnId") {
            Some(turn_id) => BrokerRoute::TurnSteer { thread_id, turn_id },
            None => BrokerRoute::WorkerByThread { thread_id },
        };
    }
    if same(method, "turn/interrupt") {
        return match get_param(params, "turnId") {
            Some(turn_id) => BrokerRoute::TurnInterrupt { thread_id, turn_id },
            None => BrokerRoute::WorkerByThread { thread_id },
        };
    }
    BrokerRoute::WorkerByThread { thread_id }
}

/// The first of two texts that is there.
pub open spec fn either(a: Option<Seq<char>>, b: Option<Seq<char>>) -> Option<Seq<char>> {
    match a {
        Some(_) => a,
        None => b,
    }
}

/// The thread that a message is about: the one its parameters name, else the one
/// in its result.
pub open spec fn thread_of(message: JsonModel) -> Option<Seq<char>> {
    either(
        param_text(message.member("params"@), "threadId"@),
        nested_text(message.member("result"@), "thread"@, "id"@),
    )
}

/// The thread that a message is about.
pub fn message_thread_id(message: &Json) -> (out: Option<String>)
    ensures
        crate::text::opt_text(out) == thread_of(message@),
{
    match get_param(message.get("params"), "threadId") {
        Some(id) => Some(id),
        None => get_nested(message.get("result"), "thread", "id"),
    }
}

/// The turn that a message is about: the one its parameters name, else the one
/// they hold, else the one in its result.
pub open spec fn turn_of(message: JsonModel) -> Option<Seq<char>> {
    either(
        either(
            param_text(message.member("params"@), "turnId"@),
            nested_text(message.member("params"@), "turn"@, "id"@),
        ),
        nested_text(message.member("result"@), "turn"@, "id"@),
    )
}

/// The turn that a message is about.
pub fn message_turn_id(message: &Json) -> (out: Option<String>)
    ensures
        crate::text::opt_text(out) == turn_of(message@),
{
    if let Some(id) = get_param(message.get("params"), "turnId") {
        return Some(id);
    }
    if let Some(id) = get_nested(message.get("params"), "turn", "id") {
        return Some(id);
    }
    get_nested(message.get("result"), "turn", "id")
}

/// A request that names no thread never goes to the worker of a thread.
pub proof fn unnamed_threads_reach_no_thread_worker(method: Seq<char>, params: Option<JsonModel>)
    requires
        param_text(params, "threadId"@) is None,
    ensures
        route_of(method, params) is WorkerDefault || route_of(method, params) is Initialize
            || route_of(method, params) is ThreadList || route_of(method, params) is ThreadStart,
{
}

/// A request goes by its method: what is about one thread goes to that thread, and
/// what is about one turn names the turn too.
pub proof fn requests_go_by_their_method(params: JsonModel, thread: Seq<char>, turn: Seq<char>)
    requires
        params.member_text("threadId"@) == Some(thread),
    ensures
        route_of("initialize"@, Some(params)) == RouteModel::Initialize,
        route_of("thread/list"@, Some(params)) == RouteModel::ThreadList,
        route_of("thread/start"@, Some(params)) == RouteModel::ThreadStart,
        route_of("thread/read"@, Some(params)) == RouteModel::ThreadRead(thread),
        route_of("thread/resume"@, Some(params)) == RouteModel::ThreadResume(thread),
        route_of("thread/unsubscribe"@, Some(params)) == RouteModel::ThreadUnsubscribe(thread),
        route_of("turn/start"@, Some(params)) == RouteModel::TurnStart(thread),
        params.member_text("expectedTurnId"@) == Some(turn) ==> route_of(
            "turn/steer"@,
            Some(params),
        ) == RouteModel::TurnSteer(thread, turn),
        params.member_text("expectedTurnId"@) is None ==> route_of("turn/steer"@, Some(params))
            == RouteModel::WorkerByThread(thread),
        params.member_text("turnId"@) == Some(turn) ==> route_of("turn/interrupt"@, Some(params))
            == RouteModel::TurnInterrupt(thread, turn),
        params.member_text("turnId"@) is None ==> route_of("turn/interrupt"@, Some(params))
            == RouteModel::WorkerByThread(thread),
{
    reveal_strlit("initialize");
    reveal_strlit("thread/list");
    reveal_strlit("thread/start");
    reveal_strlit("thread/read");
    reveal_strlit("thread/resume");
    reveal_strlit("thread/unsubscribe");
    reveal_strlit("turn/start");
    reveal_strlit("turn/steer");
    reveal_strlit("turn/interrupt");
    let methods = seq![
        "initialize"@,
        "thread/list"@,
        "thread/start"@,
        "thread/read"@,
        "thread/resume"@,
        "thread/unsubscribe"@,
        "turn/start"@,
        "turn/steer"@,
        "turn/interrupt"@,
    ];
    assert("thread/list"@.len() == 11);
    assert("thread/read"@.len() == 11);
    assert("thread/list"@[7] != "thread/read"@[7]);
    assert("thread/start"@.len() == 12);
    assert("thread/resume"@.len() == 13);
    assert("thread/unsubscribe"@.len() == 18);
    assert("turn/start"@.len() == 10);
    assert("turn/steer"@.len() == 10);
    assert("turn/start"@[7] != "turn/steer"@[7]);
    assert("turn/interrupt"@.len() == 14);
    assert("initialize"@.len() == 10);
    assert("initialize"@[0] != "turn/start"@[0]);
    assert("initialize"@[0] != "turn/steer"@[0]);
}

/// Any other request goes to the worker of the thread that it names, and without a
/// thread to the default worker.
pub proof fn other_requests_follow_their_thread(method: Seq<char>, params: Option<JsonModel>)
    requires
        method != "initialize"@,
        method != "thread/list"@,
        method != "thread/start"@,
    ensures
        params is None ==> route_of(method, params) == RouteModel::WorkerDefault,
        params matches Some(given) ==> (given.member_text("threadId"@) is None ==> route_of(
            method,
            params,
        ) == RouteModel::WorkerDefault),
        params matches Some(given) ==> (given.member_text("threadId"@) is Some && method
            != "thread/read"@ && method != "thread/resume"@ && method != "thread/unsubscribe"@
            && method != "turn/start"@ && method != "turn/steer"@ && method != "turn/interrupt"@
            ==> route_of(method, params) == RouteModel::WorkerByThread(
            given.member_text("threadId"@)->0,
        )),
{
}

/// A message is about the thread that its parameters name, else the one in its
/// result. It is about the turn that its parameters name, else the one that they hold,
/// else the one in its result.
pub proof fn messages_name_their_thread_and_turn(
    message: JsonModel,
    params: JsonModel,
    result: JsonModel,
    inner: JsonModel,
)
    ensures
        message.member("params"@) == Some(params) && params.member_text("threadId"@) is Some
            ==> thread_of(message) == params.member_text("threadId"@),
        (message.member("params"@) is None || message.member("params"@)->0.member_text(
            "threadId"@,
        ) is None) && message.member("result"@) == Some(result) && result.member("thread"@) == Some(
            inner,
        ) ==> thread_of(message) == inner.member_text("id"@),
        message.member("params"@) is None && message.member("result"@) is None ==> thread_of(
            message,
        ) is None && turn_of(message) is None,
        message.member("params"@) == Some(params) && params.member_text("turnId"@) is Some
            ==> turn_of(message) == params.member_text("turnId"@),
        message.member("params"@) == Some(params) && params.member_text("turnId"@) is None
            && params.member("turn"@) == Some(inner) && inner.member_text("id"@) is Some ==> turn_of(
            message,
        ) == inner.member_text("id"@),
        message.member("params"@) is None && message.member("result"@) == Some(result)
            && result.member("turn"@) == Some(inner) ==> turn_of(message) == inner.member_text(
            "id"@,
        ),
{
}

} // verus!
