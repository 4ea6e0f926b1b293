//! What the desktop proxy changes: a list of threads is asked for from all
//! providers unless the request names some.

use vstd::prelude::*;
use vstd::utf8::*;

use crate::frames::utf8_text;
use crate::json::parse_json;
use crate::json::render_json;
use crate::json::Json;
use crate::json::JsonModel;
use crate::text::same;

verus! {

/// Whether one of the arguments asks for the app server.
pub open spec fn asks_for_app_server(args: Seq<Seq<char>>) -> bool {
    args.contains("app-server"@)
}

/// Whether one of the arguments asks for the app server.
pub fn is_app_server_command(args: &Vec<String>) -> (out: bool)
    ensures
        out == asks_for_app_server(crate::text::texts(args@)),
{
    let ghost all = crate::text::texts(args@);
    let mut i: usize = 0;
    while i < args.len()
        invariant
            i <= args.len(),
            all == crate::text::texts(args@),
            forall|j: int| 0 <= j < i ==> #[trigger] all[j] != "app-server"@,
        decreases args.len() - i,
    {
        if same(args[i].as_str(), "app-server") {
            proof {
                assert(all[i as int] == "app-server"@);
            }
            return true;
        }
        i += 1;
    }
    false
}

/// Whether parameters ask for the threads of all providers.
pub open spec fn wants_all_providers(params: JsonModel) -> bool {
    match params.member("modelProviders"@) {
        None => true,
        Some(JsonModel::Null) => true,
        Some(JsonModel::Array(items)) => items.len() == 0,
        Some(_) => false,
    }
}

/// The request as it is passed on, if it changes.
pub open spec fn rewritten(request: JsonModel) -> Option<JsonModel> {
    if request.member_text("method"@) != Some("thread/list"@) {
        None
    } else {
        match request.member("params"@) {
            Some(params) => if params is Object && wants_all_providers(params) {
                Some(
                    request.with_member(
                        "params"@,
                        params.with_member("modelProviders"@, JsonModel::Array(seq![])),
                    ),
                )
            } else {
                None
            },
            None => None,
        }
    }
}

fn requests_all_providers(params: &Json) -> (out: bool)
    ensures
        out == wants_all_providers(params@),
{
    match params.get("modelProviders") {
        None => true,
        Some(value) => {
            proof {
                crate::json::lemma_container_models(*value);
            }
            match value {
                Json::Null => true,
                Json::Array(items) => items.len() == 0,
                _ => false,
            }
        },
    }
}

/// The request as it is passed on, if it changes.
pub fn rewrite_request(request: &Json) -> (out: Option<Json>)
    ensures
        crate::json::opt_model(out) == rewritten(request@),
{
    if !request.member_is("method", "thread/list") {
        return None;
    }
    match request.get("params") {
        None => None,
        Some(params) => {
            let is_object = match params {
                Json::Object(_) => true,
                _ => false,
            };
            if !is_object || !requests_all_providers(params) {
                return None;
            }
            let none = Json::Array(Vec::new());
            proof {
                crate::json::lemma_container_models(none);
                assert(none@->Array_0 =~= seq![]);
            }
            let changed = params.with_member("modelProviders", none);
            Some(request.with_member("params", changed))
        },
    }
}

/// Whether a line ends with a line feed.
pub open spec fn ends_line(line: Seq<u8>) -> bool {
    line.len() > 0 && line.last() == 0x0a
}

/// The line as it is passed on, if it changes.
pub open spec fn rewritten_line(line: Seq<u8>) -> Option<Seq<u8>> {
    let body = if ends_line(line) {
        line.drop_last()
    } else {
        line
    };
    if !valid_utf8(body) {
        None
    } else {
        match crate::json::json_parsed(decode_utf8(body)) {
            Err(_) => None,
            Ok(request) => match rewritten(request) {
                None => None,
                Some(changed) => {
                    let text = encode_utf8(
                        crate::json::json_text(crate::json::json_value(changed)),
                    );
                    Some(
                        if ends_line(line) {
                            text.push(0x0a)
                        } else {
                            text
                        },
                    )
                },
            },
        }
    }
}

/// The views of optional bytes.
pub open spec fn opt_bytes(out: Option<Vec<u8>>) -> Option<Seq<u8>> {
    match out {
        Some(bytes) => Some(bytes@),
        None => None,
    }
}

/// The line as it is passed on, if it changes.
pub fn rewrite_request_line(line: &[u8]) -> (out: Option<Vec<u8>>)
    ensures
        opt_bytes(out) == rewritten_line(line@),
{
    let had_newline = line.len() > 0 && line[line.len() - 1] == 0x0a;
    let end: usize = if had_newline {
        line.len() - 1
    } else {
        line.len()
    };
    let mut body: Vec<u8> = Vec::new();
    let mut i: usize = 0;
    while i < end
        invariant
            i <= end <= line.len(),
            body@ == line@.take(i as int),
        decreases end - i,
    {
        body.push(line[i]);
        proof {
            assert(line@.take(i + 1) =~= line@.take(i as int).push(line@[i as int]));
        }
        i += 1;
    }
    let ghost bytes = body@;
    proof {
        if had_newline {
            assert(bytes =~= line@.drop_last());
        } else {
            assert(bytes =~= line@);
        }
    }
    match utf8_text(body) {
        Err(_) => None,
        Ok(text) => {
            proof {
                encode_utf8_decode_utf8(text@);
            }
            match parse_json(text.as_str()) {
                Err(_) => None,
                Ok(request) => match rewrite_request(&request) {
                    None => None,
                    Some(changed) => {
                        let written = render_json(&changed);
                        let mut out: Vec<u8> = Vec::new();
                        out.extend_from_slice(written.as_str().as_bytes());
                        proof {
                            assert(out@ =~= encode_utf8(written@));
                        }
                        if had_newline {
                            out.push(0x0a);
                        }
                        Some(out)
                    },
                },
            }
        },
    }
}

/// A request that is passed on changed asks for the threads of all providers, and
/// is not changed again into anything else.
pub proof fn rewriting_settles(request: JsonModel)
    requires
        rewritten(request) is Some,
    ensures
        rewritten(request)->0.member("params"@) matches Some(params) && wants_all_providers(params),
        rewritten(request)->0.member_text("method"@) == Some("thread/list"@),
{
    reveal_strlit("params");
    reveal_strlit("method");
    reveal_strlit("modelProviders");
    assert("params"@[0] == 'p');
    assert("method"@[0] == 'm');
    let params = request.member("params"@)->0;
    let none = JsonModel::Array(seq![]);
    let changed = params.with_member("modelProviders"@, none);
    crate::json::lemma_put_lookup(params->Object_0, "modelProviders"@, none);
    crate::json::lemma_put_lookup(request->Object_0, "params"@, changed);
    crate::json::lemma_put_others(request->Object_0, "params"@, changed, "method"@);
}

/// A request for threads that names no providers asks for those of all of them; of it
/// nothing else is changed, and no other request is.
pub proof fn threads_of_all_providers_are_listed(request: JsonModel, key: Seq<char>)
    ensures
        ({
            let params = request.member("params"@);
            let asked = match params {
                Some(JsonModel::Object(members)) => match crate::json::lookup(
                    members,
                    "modelProviders"@,
                ) {
                    None => true,
                    Some(JsonModel::Null) => true,
                    Some(JsonModel::Array(items)) => items.len() == 0,
                    Some(_) => false,
                },
                _ => false,
            };
            &&& rewritten(request) is Some <==> request.member_text("method"@) == Some(
                "thread/list"@,
            ) && asked
            &&& rewritten(request) matches Some(changed) ==> {
                &&& key != "params"@ ==> changed.member(key) == request.member(key)
                &&& changed.member("params"@) is Some
                &&& changed.member("params"@)->0.member("modelProviders"@) == Some(
                    JsonModel::Array(seq![]),
                )
                &&& key != "modelProviders"@ ==> changed.member("params"@)->0.member(key)
                    == params->0.member(key)
            }
        }),
{
    match request.member("params"@) {
        Some(params) => {
            if rewritten(request) is Some {
                let none = JsonModel::Array(seq![]);
                let changed = params.with_member("modelProviders"@, none);
                crate::json::lemma_put_lookup(params->Object_0, "modelProviders"@, none);
                crate::json::lemma_put_lookup(request->Object_0, "params"@, changed);
                if key != "modelProviders"@ {
                    crate::json::lemma_put_others(
                        params->Object_0,
                        "modelProviders"@,
                        none,
                        key,
                    );
                }
                if key != "params"@ {
                    crate::json::lemma_put_others(request->Object_0, "params"@, changed, key);
                }
            }
        },
        None => {},
    }
}

/// A line is changed only where its request is, and keeps its end.
pub proof fn lines_keep_their_end(line: Seq<u8>)
    ensures
        rewritten_line(line) matches Some(changed) ==> {
            let body = if ends_line(line) {
                line.drop_last()
            } else {
                line
            };
            let text = if ends_line(line) {
                changed.drop_last()
            } else {
                changed
            };
            &&& ends_line(line) ==> changed.len() > 0 && changed.last() == 0x0a
            &&& valid_utf8(body)
            &&& crate::json::json_parsed(decode_utf8(body)) matches Ok(request) && rewritten(
                request,
            ) is Some && text == encode_utf8(
                crate::json::json_text(crate::json::json_value(rewritten(request)->0)),
            )
        },
{
    match rewritten_line(line) {
        Some(changed) => {
            let body = if ends_line(line) {
                line.drop_last()
            } else {
                line
            };
            let request = crate::json::json_parsed(decode_utf8(body))->Ok_0;
            let text = encode_utf8(
                crate::json::json_text(crate::json::json_value(rewritten(request)->0)),
            );
            assert(text.push(0x0a).drop_last() =~= text);
        },
        None => {},
    }
}

/// A start is one of the app server where one of its words says so.
pub proof fn app_servers_are_asked_for_by_name(args: Seq<Seq<char>>, rest: Seq<Seq<char>>)
    ensures
        asks_for_app_server(args + seq!["app-server"@] + rest),
        !args.contains("app-server"@) ==> !asks_for_app_server(args),
{
    let all = args + seq!["app-server"@] + rest;
    assert(all[args.len() as int] == "app-server"@);
}

} // verus!
