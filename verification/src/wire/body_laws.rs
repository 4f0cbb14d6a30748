//! What an upstream is asked: every part of a request is found in the body that is sent;
//! and what a Chat Completions body is read as.

use vstd::prelude::*;

use crate::canonical::{
    MessageView, ReasoningEffort, RequestView, ToolCallView, ToolChoiceView, ToolDefView,
};
use crate::error::ErrorView;
use crate::json::Json;

verus! {

/// The names that the members of a body have, but for that of the token limit.
pub open spec fn is_body_name(k: Seq<char>) -> bool {
    ||| k == "model"@
    ||| k == "messages"@
    ||| k == "tools"@
    ||| k == "tool_choice"@
    ||| k == "temperature"@
    ||| k == "top_p"@
    ||| k == "reasoning_effort"@
    ||| k == "parallel_tool_calls"@
    ||| k == "stream"@
    ||| k == "stream_options"@
}

proof fn lemma_body_names()
    ensures
        "model"@.len() == 5,
        "messages"@.len() == 8,
        "tools"@.len() == 5,
        "tool_choice"@.len() == 11,
        "temperature"@.len() == 11,
        "top_p"@.len() == 5,
        "reasoning_effort"@.len() == 16,
        "parallel_tool_calls"@.len() == 19,
        "stream"@.len() == 6,
        "stream_options"@.len() == 14,
        "model"@ != "tools"@,
        "model"@ != "top_p"@,
        "tools"@ != "top_p"@,
        "tool_choice"@ != "temperature"@,
{
    reveal_strlit("model");
    reveal_strlit("messages");
    reveal_strlit("tools");
    reveal_strlit("tool_choice");
    reveal_strlit("temperature");
    reveal_strlit("top_p");
    reveal_strlit("reasoning_effort");
    reveal_strlit("parallel_tool_calls");
    reveal_strlit("stream");
    reveal_strlit("stream_options");
    assert("model"@[0] == 'm' && "tools"@[0] == 't' && "top_p"@[0] == 't');
    assert("tools"@[2] == 'o' && "top_p"@[2] == 'p');
    assert("tool_choice"@[1] == 'o' && "temperature"@[1] == 'e');
}

/// The body asks for the given model, with the settings of the request: each under its name
/// where the request has it, and left out where it has not. It has no other members. A
/// token limit under the name of another member is left out of this.
pub proof fn bodies_carry_the_settings(
    req: RequestView,
    model: Seq<char>,
    field: Seq<char>,
    other: Seq<char>,
)
    requires
        !is_body_name(field),
    ensures
        ({
            let body = crate::wire::chat::request_body(req, model, field);
            &&& body is Obj
            &&& body.get("model"@) == Some(Json::Str(model))
            &&& body.get("temperature"@) == req.temperature
            &&& body.get("top_p"@) == req.top_p
            &&& req.max_output_tokens is None ==> body.get(field) is None
            &&& req.max_output_tokens matches Some(n) ==> body.get(field) == Some(
                Json::num(n as u64),
            )
            &&& req.parallel_tool_calls is None ==> body.get("parallel_tool_calls"@) is None
            &&& req.parallel_tool_calls matches Some(b) ==> body.get("parallel_tool_calls"@)
                == Some(Json::Bool(b))
            &&& !is_body_name(other) && other != field ==> body.get(other) is None
        }),
{
    lemma_body_names();
}

/// A streamed answer is asked for with its usage at the end; and no other answer is
/// streamed.
pub proof fn bodies_ask_for_streams(req: RequestView, model: Seq<char>, field: Seq<char>)
    requires
        !is_body_name(field),
    ensures
        ({
            let body = crate::wire::chat::request_body(req, model, field);
            if req.stream {
                &&& body.get("stream"@) == Some(Json::Bool(true))
                &&& body.get2("stream_options"@, "include_usage"@) == Some(Json::Bool(true))
            } else {
                &&& body.get("stream"@) is None
                &&& body.get("stream_options"@) is None
            }
        }),
{
    lemma_body_names();
}

/// The effort is asked for by its name.
pub proof fn bodies_ask_for_effort(req: RequestView, model: Seq<char>, field: Seq<char>)
    requires
        !is_body_name(field),
    ensures
        ({
            let effort = crate::wire::chat::request_body(req, model, field).get(
                "reasoning_effort"@,
            );
            match req.reasoning_effort {
                None => effort is None,
                Some(ReasoningEffort::Minimal) => effort == Some(Json::Str("minimal"@)),
                Some(ReasoningEffort::Low) => effort == Some(Json::Str("low"@)),
                Some(ReasoningEffort::Medium) => effort == Some(Json::Str("medium"@)),
                Some(ReasoningEffort::High) => effort == Some(Json::Str("high"@)),
                Some(ReasoningEffort::XHigh) => effort == Some(Json::Str("xhigh"@)),
            }
        }),
{
    lemma_body_names();
}

/// Whether a document offers a tool: a function of its name, with its description, and with
/// its schema where nothing is to be repaired in it.
pub open spec fn offers(j: Json, t: ToolDefView) -> bool {
    &&& j.get("type"@) == Some(Json::Str("function"@))
    &&& j.get2("function"@, "name"@) == Some(Json::Str(t.name))
    &&& match t.description {
        Some(d) => j.get2("function"@, "description"@) == Some(Json::Str(d)),
        None => j.get2("function"@, "description"@) == Some(Json::Null),
    }
    &&& j.get2("function"@, "parameters"@) == Some(crate::wire::schema::tool_schema(t.parameters))
}

/// The tools of a request are offered in their order, with the choice of the request: as the
/// model likes, none, any, or a function by its name. Without tools neither is in the body.
pub proof fn bodies_offer_the_tools(req: RequestView, model: Seq<char>, field: Seq<char>)
    requires
        !is_body_name(field),
    ensures
        ({
            let body = crate::wire::chat::request_body(req, model, field);
            if req.tools.len() == 0 {
                &&& body.get("tools"@) is None
                &&& body.get("tool_choice"@) is None
            } else {
                &&& body.get("tools"@) matches Some(Json::Arr(docs)) && docs.len()
                    == req.tools.len() && forall|i: int|
                    0 <= i < docs.len() ==> offers(#[trigger] docs[i], req.tools[i])
                &&& match req.tool_choice {
                    ToolChoiceView::Auto => body.get("tool_choice"@) == Some(Json::Str("auto"@)),
                    ToolChoiceView::Never => body.get("tool_choice"@) == Some(Json::Str("none"@)),
                    ToolChoiceView::Required => body.get("tool_choice"@) == Some(
                        Json::Str("required"@),
                    ),
                    ToolChoiceView::Function(name) => {
                        &&& body.get2("tool_choice"@, "type"@) == Some(Json::Str("function"@))
                        &&& body.get("tool_choice"@)->0.get2("function"@, "name"@) == Some(
                            Json::Str(name),
                        )
                    },
                }
            }
        }),
{
    lemma_body_names();
    reveal_strlit("type");
    reveal_strlit("function");
    reveal_strlit("name");
    reveal_strlit("description");
    reveal_strlit("parameters");
    assert("type"@.len() == 4 && "function"@.len() == 8 && "name"@.len() == 4);
    assert("description"@.len() == 11 && "parameters"@.len() == 10);
}

/// The tool choice that is written into a body is read back as it is.
pub proof fn choices_are_read_back(c: ToolChoiceView)
    ensures
        crate::wire::chat::parsed_choice(Some(crate::wire::chat::choice_json(c))) == c,
        crate::wire::chat::choice_json(ToolChoiceView::Auto) == Json::Str("auto"@),
{
    reveal_strlit("auto");
    reveal_strlit("none");
    reveal_strlit("required");
    reveal_strlit("type");
    reveal_strlit("function");
    assert("auto"@.len() == 4 && "none"@.len() == 4 && "required"@.len() == 8);
    assert("auto"@[0] == 'a' && "none"@[0] == 'n');
    assert("type"@.len() == 4 && "function"@.len() == 8);
}

/// Whether a document makes a call.
pub open spec fn makes_call(j: Json, c: ToolCallView) -> bool {
    &&& j.get("id"@) == Some(Json::Str(c.call_id))
    &&& j.get("type"@) == Some(Json::Str("function"@))
    &&& j.get2("function"@, "name"@) == Some(Json::Str(c.name))
    &&& j.get2("function"@, "arguments"@) == Some(Json::Str(c.arguments))
}

/// Whether a document tells a turn: who speaks, and what is said; of an assistant's turn
/// also the reasoning and the calls, where there are any; and of a tool's the call that it
/// answers.
pub open spec fn tells(j: Json, m: MessageView) -> bool {
    match m {
        MessageView::User(text) => {
            &&& j.get("role"@) == Some(Json::Str("user"@))
            &&& j.get("content"@) == Some(Json::Str(text))
        },
        MessageView::Assistant { text, reasoning_content, tool_calls } => {
            &&& j.get("role"@) == Some(Json::Str("assistant"@))
            &&& text is None ==> j.get("content"@) == Some(Json::Null)
            &&& text matches Some(t) ==> j.get("content"@) == Some(Json::Str(t))
            &&& reasoning_content is None ==> j.get("reasoning_content"@) is None
            &&& reasoning_content matches Some(r) ==> j.get("reasoning_content"@) == Some(
                Json::Str(r),
            )
            &&& tool_calls.len() == 0 ==> j.get("tool_calls"@) is None
            &&& tool_calls.len() > 0 ==> (j.get("tool_calls"@) matches Some(Json::Arr(docs))
                && docs.len() == tool_calls.len() && forall|i: int|
                0 <= i < docs.len() ==> makes_call(#[trigger] docs[i], tool_calls[i]))
        },
        MessageView::Tool { call_id, output } => {
            &&& j.get("role"@) == Some(Json::Str("tool"@))
            &&& j.get("tool_call_id"@) == Some(Json::Str(call_id))
            &&& j.get("content"@) == Some(Json::Str(output))
        },
    }
}

proof fn lemma_tells(m: MessageView)
    ensures
        tells(crate::wire::chat::message_json(m), m),
{
    reveal_strlit("role");
    reveal_strlit("content");
    reveal_strlit("reasoning_content");
    reveal_strlit("tool_calls");
    reveal_strlit("tool_call_id");
    reveal_strlit("id");
    reveal_strlit("type");
    reveal_strlit("function");
    reveal_strlit("name");
    reveal_strlit("arguments");
    assert("role"@.len() == 4 && "content"@.len() == 7 && "reasoning_content"@.len() == 17);
    assert("tool_calls"@.len() == 10 && "tool_call_id"@.len() == 12);
    assert("id"@.len() == 2 && "type"@.len() == 4 && "function"@.len() == 8);
    assert("name"@.len() == 4 && "arguments"@.len() == 9);
}

/// The messages of a body are the system prompt, where there is one, and then the turns of
/// the conversation, in their order, in which every tool result has its parent.
pub proof fn bodies_tell_the_conversation(req: RequestView, model: Seq<char>, field: Seq<char>)
    requires
        !is_body_name(field),
    ensures
        ({
            let turns = crate::wire::chat::with_parents(req.messages);
            let k: int = if req.system is Some {
                1
            } else {
                0
            };
            &&& crate::wire::chat::request_body(req, model, field).get("messages"@) matches Some(
                Json::Arr(docs),
            ) && docs.len() == k + turns.len() && (req.system matches Some(sys) ==> docs[0].get(
                "role"@,
            ) == Some(Json::Str("system"@)) && docs[0].get("content"@) == Some(Json::Str(sys)))
                && forall|i: int| 0 <= i < turns.len() ==> tells(#[trigger] docs[k + i], turns[i])
        }),
{
    lemma_body_names();
    reveal_strlit("role");
    reveal_strlit("content");
    assert("role"@.len() == 4 && "content"@.len() == 7);
    let turns = crate::wire::chat::with_parents(req.messages);
    let docs = crate::wire::chat::body_messages(req);
    let k: int = if req.system is Some {
        1
    } else {
        0
    };
    assert forall|i: int| 0 <= i < turns.len() implies tells(#[trigger] docs[k + i], turns[i]) by {
        assert(docs[k + i] == crate::wire::chat::message_json(turns[i]));
        lemma_tells(turns[i]);
    }
}

/// The conversation is sent on turn by turn. Only before the result of a call that no
/// earlier turn made, a turn of the assistant is put in, which makes that one call and says
/// nothing.
pub proof fn parents_are_put_in_where_missing(msgs: Seq<MessageView>, m: MessageView)
    ensures
        crate::wire::chat::with_parents(Seq::empty()) == Seq::<MessageView>::empty(),
        ({
            let before = crate::wire::chat::with_parents(msgs);
            let after = crate::wire::chat::with_parents(msgs.push(m));
            match m {
                MessageView::Tool { call_id, .. } => {
                    let known = exists|i: int, j: int|
                        #![trigger before[i]->tool_calls[j]]
                        0 <= i < before.len() && before[i] is Assistant && 0 <= j
                            < before[i]->tool_calls.len() && before[i]->tool_calls[j].call_id
                            == call_id;
                    if known {
                        after == before.push(m)
                    } else {
                        &&& after.len() == before.len() + 2
                        &&& after.take(before.len() as int) == before
                        &&& after.last() == m
                        &&& after[before.len() as int] is Assistant
                        &&& after[before.len() as int]->Assistant_text is None
                        &&& after[before.len() as int]->reasoning_content == Some(
                            Seq::<char>::empty(),
                        )
                        &&& after[before.len() as int]->tool_calls.len() == 1
                        &&& after[before.len() as int]->tool_calls[0].call_id == call_id
                        &&& after[before.len() as int]->tool_calls[0].name == "_"@
                        &&& after[before.len() as int]->tool_calls[0].arguments == "{}"@
                    }
                },
                _ => after == before.push(m),
            }
        }),
{
    assert(msgs.push(m).drop_last() =~= msgs);
    let before = crate::wire::chat::with_parents(msgs);
    let after = crate::wire::chat::with_parents(msgs.push(m));
    if let MessageView::Tool { call_id, .. } = m {
        if crate::wire::chat::has_parent(before, call_id) {
            let i = choose|i: int|
                0 <= i < before.len() && crate::wire::chat::carries_call(
                    #[trigger] before[i],
                    call_id,
                );
            let calls = before[i]->tool_calls;
            let j = choose|j: int|
                0 <= j < calls.len() && (#[trigger] calls[j]).call_id == call_id;
            assert(before[i]->tool_calls[j].call_id == call_id);
        } else {
            assert(after.take(before.len() as int) =~= before);
            assert forall|i: int, j: int|
                0 <= i < before.len() && before[i] is Assistant && 0 <= j
                    < before[i]->tool_calls.len() implies (
            #[trigger] before[i]->tool_calls[j]).call_id != call_id by {
                if before[i]->tool_calls[j].call_id == call_id {
                    assert(crate::wire::chat::carries_call(before[i], call_id));
                }
            }
        }
    }
}

/// What a schema is forwarded as: an array item by item, and an object member by member, but
/// for its type. A type that is `null` becomes an object's where there are properties, an
/// array's where there are items, and is left out otherwise; and at the root a type that is
/// missing or `null` is an object's.
pub proof fn schemas_are_mended(j: Json, root: bool, k: Seq<char>)
    ensures
        ({
            let out = crate::wire::schema::repaired(j, root);
            match j {
                Json::Obj(m) => {
                    let null_type = j.get("type"@) == Some(Json::Null);
                    &&& out is Obj
                    &&& k != "type"@ ==> (out.get(k) is Some <==> j.get(k) is Some)
                    &&& k != "type"@ && j.get(k) is Some ==> out.get(k) == Some(
                        crate::wire::schema::repaired(j.get(k)->0, false),
                    )
                    &&& j.get("type"@) is Some && !null_type ==> out.get("type"@) == Some(
                        crate::wire::schema::repaired(j.get("type"@)->0, false),
                    )
                    &&& root && (null_type || j.get("type"@) is None) ==> out.get("type"@) == Some(
                        Json::Str("object"@),
                    )
                    &&& !root && j.get("type"@) is None ==> out.get("type"@) is None
                    &&& !root && null_type ==> out.get("type"@) == if j.get("properties"@) is Some {
                        Some(Json::Str("object"@))
                    } else if j.get("items"@) is Some {
                        Some(Json::Str("array"@))
                    } else {
                        None
                    }
                },
                Json::Arr(a) => out matches Json::Arr(b) && b.len() == a.len() && forall|i: int|
                    0 <= i < a.len() ==> #[trigger] b[i] == crate::wire::schema::repaired(
                        a[i],
                        false,
                    ),
                _ => out == j,
            }
        }),
{
    reveal_with_fuel(crate::wire::schema::repaired, 2);
    reveal_with_fuel(crate::wire::schema::repaired_items, 2);
}

/// The parameters of a tool are forwarded as a schema: mended where they are an object, and
/// as those of a function without parameters otherwise.
pub proof fn parameters_are_forwarded(params: Json)
    ensures
        params is Obj ==> crate::wire::schema::tool_schema(params) == crate::wire::schema::repaired(
            params,
            true,
        ),
        !(params is Obj) ==> crate::wire::schema::tool_schema(params).get("type"@) == Some(
            Json::Str("object"@),
        ) && crate::wire::schema::tool_schema(params).get("properties"@) == Some(Json::obj()),
{
    reveal_strlit("type");
    reveal_strlit("properties");
    assert("type"@.len() == 4 && "properties"@.len() == 10);
}

// ---------------------------------------------------------------------------
// Requests in the Chat Completions dialect
// ---------------------------------------------------------------------------

/// Whether a message is the system's or the developer's.
pub open spec fn is_systems(m: Json) -> bool {
    m.get("role"@) == Some(Json::Str("system"@)) || m.get("role"@) == Some(Json::Str("developer"@))
}

/// Whether `m` is the turn that a message tells.
pub open spec fn turn_read(j: Json, m: MessageView) -> bool {
    if j.get("role"@) == Some(Json::Str("tool"@)) {
        &&& m is Tool
        &&& m->call_id == j.str_or_empty("tool_call_id"@)
        &&& m->output == j.str_or_empty("content"@)
    } else if j.get("role"@) == Some(Json::Str("assistant"@)) {
        &&& m is Assistant
        &&& m->reasoning_content == j.get_str("reasoning_content"@)
        &&& j.str_or_empty("content"@).len() == 0 ==> m->Assistant_text is None
        &&& j.str_or_empty("content"@).len() > 0 ==> m->Assistant_text == Some(
            j.str_or_empty("content"@),
        )
        &&& calls_read(
            match j.get("tool_calls"@) {
                Some(Json::Arr(a)) => a,
                _ => Seq::empty(),
            },
            m->tool_calls,
        )
    } else {
        m == MessageView::User(j.str_or_empty("content"@))
    }
}

/// The entries that name a function, in their order.
pub open spec fn named_calls_in(items: Seq<Json>) -> Seq<Json> {
    items.filter(|t: Json| t.get2("function"@, "name"@) matches Some(Json::Str(_)))
}

/// Whether the calls are those of the entries that name a function, in their order.
pub open spec fn calls_read(items: Seq<Json>, calls: Seq<ToolCallView>) -> bool {
    let all = named_calls_in(items);
    &&& calls.len() == all.len()
    &&& forall|i: int|
        0 <= i < calls.len() ==> {
            &&& (#[trigger] calls[i]).call_id == all[i].str_or_empty("id"@)
            &&& all[i].get2("function"@, "name"@) == Some(Json::Str(calls[i].name))
            &&& calls[i].arguments == (match all[i].get("function"@) {
                Some(f) => f.str_or_empty("arguments"@),
                None => Seq::empty(),
            })
        }
}

proof fn lemma_calls_read(items: Seq<Json>)
    ensures
        calls_read(items, items.filter_map(|tc: Json| crate::wire::chat::parsed_call(tc))),
    decreases items.len(),
{
    reveal(Seq::filter);
    let f = |tc: Json| crate::wire::chat::parsed_call(tc);
    let got = items.filter_map(f);
    let all = named_calls_in(items);
    if items.len() > 0 {
        let init = items.drop_last();
        let t = items.last();
        lemma_calls_read(init);
        let n = items.len() - 1;
        items.lemma_filter_map_take_succ(f, n);
        assert(items.take(n) =~= init);
        assert(items.take(n + 1) =~= items);
        let before = named_calls_in(init);
        let old_got = init.filter_map(f);
        if t.get2("function"@, "name"@) matches Some(Json::Str(_)) {
            assert(all =~= before.push(t));
        } else {
            assert(all =~= before);
        }
        assert forall|i: int| 0 <= i < got.len() implies {
            &&& (#[trigger] got[i]).call_id == all[i].str_or_empty("id"@)
            &&& all[i].get2("function"@, "name"@) == Some(Json::Str(got[i].name))
            &&& got[i].arguments == (match all[i].get("function"@) {
                Some(f) => f.str_or_empty("arguments"@),
                None => Seq::empty(),
            })
        } by {
            if i < before.len() {
                assert(all[i] == before[i]);
                assert(got[i] == old_got[i]);
            }
        }
    } else {
        assert(items.take(0) =~= items);
        assert(got =~= Seq::empty());
    }
}

proof fn lemma_turn_read(j: Json)
    ensures
        turn_read(j, crate::wire::chat::parsed_turn(j)),
{
    reveal_strlit("user");
    reveal_strlit("tool");
    reveal_strlit("assistant");
    assert("user"@.len() == 4 && "tool"@.len() == 4 && "assistant"@.len() == 9);
    assert("user"@[0] == 'u' && "tool"@[0] == 't');
    lemma_calls_read(crate::wire::items_of(j.get("tool_calls"@)));
}

/// The messages that are not the system's, in their order.
pub open spec fn turns_in(msgs: Seq<Json>) -> Seq<Json> {
    msgs.filter(|m: Json| !is_systems(m))
}

proof fn lemma_turns_read(msgs: Seq<Json>)
    ensures
        ({
            let got = crate::wire::chat::parsed_turns(msgs);
            let all = turns_in(msgs);
            &&& got.len() == all.len()
            &&& forall|i: int| 0 <= i < got.len() ==> turn_read(all[i], #[trigger] got[i])
        }),
    decreases msgs.len(),
{
    reveal(Seq::filter);
    reveal_strlit("user");
    reveal_strlit("system");
    reveal_strlit("developer");
    assert("user"@.len() == 4 && "system"@.len() == 6 && "developer"@.len() == 9);
    let f = |m: Json|
        if crate::wire::chat::is_system_role(crate::wire::chat::role_of(m)) {
            None
        } else {
            Some(crate::wire::chat::parsed_turn(m))
        };
    let got = crate::wire::chat::parsed_turns(msgs);
    let all = turns_in(msgs);
    if msgs.len() > 0 {
        let init = msgs.drop_last();
        let m = msgs.last();
        lemma_turns_read(init);
        let n = msgs.len() - 1;
        msgs.lemma_filter_map_take_succ(f, n);
        assert(msgs.take(n) =~= init);
        assert(msgs.take(n + 1) =~= msgs);
        let before = turns_in(init);
        let old_got = crate::wire::chat::parsed_turns(init);
        if is_systems(m) {
            assert(all =~= before);
        } else {
            assert(all =~= before.push(m));
            lemma_turn_read(m);
        }
        assert forall|i: int| 0 <= i < got.len() implies turn_read(all[i], #[trigger] got[i]) by {
            if i < before.len() {
                assert(all[i] == before[i]);
                assert(got[i] == old_got[i]);
            }
        }
    } else {
        assert(msgs.take(0) =~= msgs);
        assert(got =~= Seq::empty());
    }
}

/// Whether `system` is what the last message of the system or the developer says, where
/// there is one.
pub open spec fn system_read(msgs: Seq<Json>, system: Option<Seq<char>>) -> bool {
    match system {
        None => forall|i: int| 0 <= i < msgs.len() ==> !is_systems(#[trigger] msgs[i]),
        Some(sys) => exists|i: int|
            0 <= i < msgs.len() && is_systems(#[trigger] msgs[i]) && sys
                == msgs[i].str_or_empty("content"@) && forall|j: int|
                i < j < msgs.len() ==> !is_systems(#[trigger] msgs[j]),
    }
}

proof fn lemma_system_read(msgs: Seq<Json>)
    ensures
        system_read(msgs, crate::wire::chat::parsed_system(msgs)),
    decreases msgs.len(),
{
    reveal_strlit("user");
    reveal_strlit("system");
    reveal_strlit("developer");
    assert("user"@.len() == 4 && "system"@.len() == 6 && "developer"@.len() == 9);
    if msgs.len() > 0 {
        let init = msgs.drop_last();
        let n = msgs.len() - 1;
        lemma_system_read(init);
        assert(msgs[n] == msgs.last());
        if !is_systems(msgs[n]) {
            match crate::wire::chat::parsed_system(init) {
                None => {
                    assert forall|i: int| 0 <= i < msgs.len() implies !is_systems(
                        #[trigger] msgs[i],
                    ) by {
                        if i < n {
                            assert(msgs[i] == init[i]);
                        }
                    }
                },
                Some(sys) => {
                    let i = choose|i: int|
                        0 <= i < init.len() && is_systems(#[trigger] init[i]) && sys
                            == init[i].str_or_empty("content"@) && forall|j: int|
                            i < j < init.len() ==> !is_systems(#[trigger] init[j]);
                    assert(msgs[i] == init[i]);
                    assert forall|j: int| i < j < msgs.len() implies !is_systems(
                        #[trigger] msgs[j],
                    ) by {
                        if j < n {
                            assert(msgs[j] == init[j]);
                        }
                    }
                },
            }
        }
    }
}

/// A Chat Completions body is refused where it is no object or names no model, and is read
/// otherwise: the request has its model; the text of the last message of the system as its
/// system prompt; and all other messages as its turns, in their order.
pub proof fn chat_bodies_are_read(body: Json)
    ensures
        !(body is Obj) ==> crate::wire::chat::parsed_request(body) == Err::<RequestView, ErrorView>(
            ErrorView::BadRequest("body must be a JSON object"@),
        ),
        body is Obj && body.get_str("model"@) is None ==> crate::wire::chat::parsed_request(body)
            == Err::<RequestView, ErrorView>(ErrorView::BadRequest("missing `model`"@)),
        body.get_str("model"@) is Some ==> {
            let msgs = match body.get("messages"@) {
                Some(Json::Arr(a)) => a,
                _ => Seq::empty(),
            };
            let turns = turns_in(msgs);
            &&& crate::wire::chat::parsed_request(body) matches Ok(req) && {
                &&& body.get("model"@) == Some(Json::Str(req.model))
                &&& req.messages.len() == turns.len()
                &&& forall|i: int|
                    0 <= i < turns.len() ==> turn_read(turns[i], #[trigger] req.messages[i])
                &&& system_read(msgs, req.system)
            }
        },
{
    let msgs = match body.get("messages"@) {
        Some(Json::Arr(a)) => a,
        _ => Seq::empty(),
    };
    assert(crate::wire::items_of(body.get("messages"@)) == msgs);
    lemma_turns_read(msgs);
    lemma_system_read(msgs);
}

/// The settings and the tool choice of a Chat Completions body are those of the request.
pub proof fn chat_settings_are_read(body: Json, req: RequestView, name: Seq<char>)
    requires
        crate::wire::chat::parsed_request(body) == Ok::<RequestView, ErrorView>(req),
    ensures
        crate::wire::reading_laws::number_read(body, "temperature"@, req.temperature),
        req.top_p is None,
        crate::wire::reading_laws::count_read(body, "max_tokens"@, req.max_output_tokens),
        req.reasoning_effort is None,
        crate::wire::reading_laws::flag_read(body, "stream"@, req.stream),
        req.parallel_tool_calls == body.get_bool("parallel_tool_calls"@),
        body.get("tool_choice"@) is None ==> req.tool_choice is Auto,
        body.get("tool_choice"@) == Some(Json::Str("auto"@)) ==> req.tool_choice is Auto,
        body.get("tool_choice"@) == Some(Json::Str("none"@)) <==> req.tool_choice is Never,
        body.get("tool_choice"@) == Some(Json::Str("required"@)) <==> req.tool_choice is Required,
        req.tool_choice == ToolChoiceView::Function(name) <==> (body.get(
            "tool_choice"@,
        ) matches Some(c) && c.get2("function"@, "name"@) == Some(Json::Str(name))),
{
    reveal_strlit("auto");
    reveal_strlit("none");
    reveal_strlit("required");
    assert("auto"@.len() == 4 && "none"@.len() == 4 && "required"@.len() == 8);
    assert("auto"@[0] == 'a' && "none"@[0] == 'n');
}

/// The functions with a name among the entries of `tools`, in their order.
pub open spec fn chat_tools_in(items: Seq<Json>) -> Seq<Json> {
    items.filter(
        |t: Json|
            t.get("type"@) == Some(Json::Str("function"@)) && (t.get2(
                "function"@,
                "name"@,
            ) matches Some(Json::Str(_))),
    )
}

/// Whether the tools are those of the functions with a name, in their order.
pub open spec fn chat_tools_read(items: Seq<Json>, tools: Seq<ToolDefView>) -> bool {
    let all = chat_tools_in(items);
    &&& tools.len() == all.len()
    &&& forall|i: int|
        0 <= i < tools.len() ==> crate::wire::reading_laws::tool_read(
            all[i].get("function"@)->0,
            "parameters"@,
            #[trigger] tools[i],
        )
}

proof fn lemma_chat_tools(items: Seq<Json>)
    ensures
        chat_tools_read(items, items.filter_map(|t: Json| crate::wire::chat::parsed_tool(t))),
    decreases items.len(),
{
    reveal(Seq::filter);
    let f = |t: Json| crate::wire::chat::parsed_tool(t);
    let got = items.filter_map(f);
    let all = chat_tools_in(items);
    if items.len() > 0 {
        let init = items.drop_last();
        let t = items.last();
        lemma_chat_tools(init);
        let n = items.len() - 1;
        items.lemma_filter_map_take_succ(f, n);
        assert(items.take(n) =~= init);
        assert(items.take(n + 1) =~= items);
        let before = chat_tools_in(init);
        let old_got = init.filter_map(f);
        if f(t) is Some {
            assert(all =~= before.push(t));
        } else {
            assert(all =~= before);
        }
        assert forall|i: int| 0 <= i < got.len() implies crate::wire::reading_laws::tool_read(
            all[i].get("function"@)->0,
            "parameters"@,
            #[trigger] got[i],
        ) by {
            if i < before.len() {
                assert(all[i] == before[i]);
                assert(got[i] == old_got[i]);
            }
        }
    } else {
        assert(items.take(0) =~= items);
        assert(got =~= Seq::empty());
    }
}

/// The tools of a Chat Completions body are those of the request: its functions with a
/// name, in their order, each with its description and its schema.
pub proof fn chat_tools_are_read(body: Json, req: RequestView)
    requires
        crate::wire::chat::parsed_request(body) == Ok::<RequestView, ErrorView>(req),
    ensures
        chat_tools_read(
            match body.get("tools"@) {
                Some(Json::Arr(a)) => a,
                _ => Seq::empty(),
            },
            req.tools,
        ),
{
    lemma_chat_tools(crate::wire::items_of(body.get("tools"@)));
}

} // verus!
