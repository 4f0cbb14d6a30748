//! The OpenAI Chat Completions wire format.

use vstd::prelude::*;
use vstd::string::*;

use crate::canonical::{
    CanonicalEvent, CanonicalRequest, EventView, Message, MessageView, RequestView, ToolCall,
    ToolCallView, ToolChoice, ToolChoiceView, ToolDef, ToolDefView,
};
use crate::config::Provider;
use crate::error::{BridgeError, ErrorView};
use crate::json::{Json, JsonValue};
use crate::text::{clone_opt, low16, low32, str_eq};
use crate::wire::schema::sanitize_parameters;
use crate::wire::{flag_member, number_member, string_member, u32_member};

verus! {

// ---------------------------------------------------------------------------
// Tool messages and their parents
// ---------------------------------------------------------------------------

/// Whether a message is an assistant turn that makes the call `id`.
pub open spec fn carries_call(m: MessageView, id: Seq<char>) -> bool {
    match m {
        MessageView::Assistant { tool_calls, .. } => exists|j: int|
            0 <= j < tool_calls.len() && (#[trigger] tool_calls[j]).call_id == id,
        _ => false,
    }
}

/// Whether some message of `msgs` makes the call `id`.
pub open spec fn has_parent(msgs: Seq<MessageView>, id: Seq<char>) -> bool {
    exists|i: int| 0 <= i < msgs.len() && carries_call(#[trigger] msgs[i], id)
}

/// The assistant turn that is put in for a call whose own turn is missing.
pub open spec fn stub_parent(id: Seq<char>) -> MessageView {
    MessageView::Assistant {
        text: None,
        reasoning_content: Some(Seq::empty()),
        tool_calls: seq![ToolCallView { call_id: id, name: "_"@, arguments: "{}"@ }],
    }
}

/// The messages, with a stub put in before each tool result that no earlier
/// assistant turn asked for.
pub open spec fn with_parents(msgs: Seq<MessageView>) -> Seq<MessageView>
    decreases msgs.len(),
{
    if msgs.len() == 0 {
        Seq::empty()
    } else {
        let done = with_parents(msgs.drop_last());
        match msgs.last() {
            MessageView::Tool { call_id, .. } => if has_parent(done, call_id) {
                done.push(msgs.last())
            } else {
                done.push(stub_parent(call_id)).push(msgs.last())
            },
            _ => done.push(msgs.last()),
        }
    }
}

/// Whether every tool result follows an assistant turn that asked for it.
pub open spec fn all_paired(msgs: Seq<MessageView>) -> bool {
    forall|k: int|
        #![trigger msgs[k]]
        0 <= k < msgs.len() ==> (msgs[k] matches MessageView::Tool { call_id, .. } ==> has_parent(
            msgs.take(k),
            call_id,
        ))
}

/// Whether `a` is `b` with some messages left out.
pub open spec fn is_subsequence(a: Seq<MessageView>, b: Seq<MessageView>) -> bool
    decreases b.len(),
{
    if a.len() == 0 {
        true
    } else if b.len() == 0 {
        false
    } else {
        (a.last() == b.last() && is_subsequence(a.drop_last(), b.drop_last())) || is_subsequence(
            a,
            b.drop_last(),
        )
    }
}

proof fn lemma_has_parent_push(msgs: Seq<MessageView>, m: MessageView, id: Seq<char>)
    ensures
        has_parent(msgs.push(m), id) == (has_parent(msgs, id) || carries_call(m, id)),
{
    let t = msgs.push(m);
    if has_parent(msgs, id) {
        let i = choose|i: int| 0 <= i < msgs.len() && carries_call(#[trigger] msgs[i], id);
        assert(carries_call(t[i], id));
    }
    if carries_call(m, id) {
        assert(carries_call(t[msgs.len() as int], id));
    }
    if has_parent(t, id) {
        let i = choose|i: int| 0 <= i < t.len() && carries_call(#[trigger] t[i], id);
        if i < msgs.len() {
            assert(carries_call(msgs[i], id));
        }
    }
}

proof fn lemma_paired_push(msgs: Seq<MessageView>, m: MessageView)
    requires
        all_paired(msgs),
        m matches MessageView::Tool { call_id, .. } ==> has_parent(msgs, call_id),
    ensures
        all_paired(msgs.push(m)),
{
    let t = msgs.push(m);
    assert forall|k: int| #![trigger t[k]] 0 <= k < t.len() implies (t[k] matches MessageView::Tool {
        call_id,
        ..
    } ==> has_parent(t.take(k), call_id)) by {
        assert(t.take(k) =~= msgs.take(k));
        if k < msgs.len() {
            assert(t[k] == msgs[k]);
        } else {
            assert(msgs.take(k) =~= msgs);
        }
    }
}

/// Strict upstreams take a tool result only after the assistant turn that asked
/// for it. After `with_parents` every tool result has such a turn before it,
/// whatever the messages were.
pub proof fn tool_results_have_parents(msgs: Seq<MessageView>)
    ensures
        all_paired(with_parents(msgs)),
    decreases msgs.len(),
{
    if msgs.len() > 0 {
        tool_results_have_parents(msgs.drop_last());
        let done = with_parents(msgs.drop_last());
        match msgs.last() {
            MessageView::Tool { call_id, .. } => {
                if has_parent(done, call_id) {
                    lemma_paired_push(done, msgs.last());
                } else {
                    let stub = stub_parent(call_id);
                    assert(stub->tool_calls[0].call_id == call_id);
                    lemma_paired_push(done, stub);
                    lemma_has_parent_push(done, stub, call_id);
                    lemma_paired_push(done.push(stub), msgs.last());
                }
            },
            _ => {
                lemma_paired_push(done, msgs.last());
            },
        }
    }
}

/// No message is lost or reordered.
pub proof fn messages_are_kept_in_order(msgs: Seq<MessageView>)
    ensures
        is_subsequence(msgs, with_parents(msgs)),
    decreases msgs.len(),
{
    if msgs.len() > 0 {
        messages_are_kept_in_order(msgs.drop_last());
        let out = with_parents(msgs);
        let done = with_parents(msgs.drop_last());
        assert(out.last() == msgs.last());
        match msgs.last() {
            MessageView::Tool { call_id, .. } => {
                if !has_parent(done, call_id) {
                    let stub = stub_parent(call_id);
                    assert(out.drop_last() =~= done.push(stub));
                    assert(done.push(stub).drop_last() =~= done);
                    assert(is_subsequence(msgs.drop_last(), done.push(stub)));
                } else {
                    assert(out.drop_last() =~= done);
                }
            },
            _ => {
                assert(out.drop_last() =~= done);
            },
        }
    }
}

/// Messages whose tool results all have their parents are left as they are.
pub proof fn paired_messages_are_left_alone(msgs: Seq<MessageView>)
    requires
        all_paired(msgs),
    ensures
        with_parents(msgs) == msgs,
    decreases msgs.len(),
{
    if msgs.len() > 0 {
        let init = msgs.drop_last();
        assert forall|k: int| #![trigger init[k]] 0 <= k < init.len() implies (
        init[k] matches MessageView::Tool { call_id, .. } ==> has_parent(init.take(k), call_id)) by {
            assert(init[k] == msgs[k]);
            assert(init.take(k) =~= msgs.take(k));
        }
        paired_messages_are_left_alone(init);
        let n = msgs.len() - 1;
        assert(msgs[n] == msgs.last());
        assert(msgs.take(n) =~= init);
        assert(init.push(msgs.last()) =~= msgs);
    } else {
        assert(msgs =~= Seq::empty());
    }
}

/// Putting the parents in twice is putting them in once.
pub proof fn parents_are_put_in_once(msgs: Seq<MessageView>)
    ensures
        with_parents(with_parents(msgs)) == with_parents(msgs),
{
    tool_results_have_parents(msgs);
    paired_messages_are_left_alone(with_parents(msgs));
}

/// Whether some assistant turn among `msgs` makes the call `call_id`. Looking at all
/// of them, and not only at the last, lets the second of two parallel results
/// find its parent.
pub fn find_matching_tool_call(msgs: &Vec<Message>, call_id: &str) -> (r: bool)
    ensures
        r == has_parent(crate::text::seq_view(msgs@), call_id@),
{
    let ghost view = crate::text::seq_view(msgs@);
    let mut i: usize = msgs.len();
    while i > 0
        invariant
            i <= msgs@.len(),
            view == crate::text::seq_view(msgs@),
            forall|k: int| i <= k < msgs@.len() ==> !carries_call(#[trigger] view[k], call_id@),
        decreases i,
    {
        match &msgs[i - 1] {
            Message::Assistant { tool_calls, .. } => {
                let ghost calls = crate::text::seq_view(tool_calls@);
                let mut j: usize = 0;
                while j < tool_calls.len()
                    invariant
                        j <= tool_calls@.len(),
                        0 < i <= msgs@.len(),
                        view == crate::text::seq_view(msgs@),
                        calls == crate::text::seq_view(tool_calls@),
                        view[i - 1] matches MessageView::Assistant { tool_calls: c, .. } && c == calls,
                        forall|k: int| 0 <= k < j ==> (#[trigger] calls[k]).call_id != call_id@,
                    decreases tool_calls@.len() - j,
                {
                    if str_eq(tool_calls[j].call_id.as_str(), call_id) {
                        assert(calls[j as int].call_id == call_id@);
                        assert(carries_call(view[i - 1], call_id@));
                        return true;
                    }
                    j = j + 1;
                }
            },
            _ => {},
        }
        i = i - 1;
    }
    false
}

/// Ensure every `tool` message has a preceding `assistant` carrying a matching
/// `tool_calls` entry. Some clients send a tool's result without repeating the
/// call that produced it.
pub fn normalize_tool_parents(msgs: &Vec<Message>) -> (r: Vec<Message>)
    ensures
        crate::text::seq_view(r@) == with_parents(crate::text::seq_view(msgs@)),
{
    broadcast use crate::text::group_views;

    let ghost view = crate::text::seq_view(msgs@);
    let mut out: Vec<Message> = Vec::new();
    let mut i: usize = 0;
    assert(view.take(0) =~= Seq::empty());
    while i < msgs.len()
        invariant
            i <= msgs@.len(),
            view == crate::text::seq_view(msgs@),
            crate::text::seq_view(out@) == with_parents(view.take(i as int)),
        decreases msgs@.len() - i,
    {
        broadcast use crate::text::group_views;

        assert(view.take(i as int + 1).drop_last() =~= view.take(i as int));
        match &msgs[i] {
            Message::Tool { call_id, .. } => {
                if !find_matching_tool_call(&out, call_id.as_str()) {
                    let mut calls: Vec<ToolCall> = Vec::new();
                    calls.push(
                        ToolCall {
                            call_id: call_id.clone(),
                            name: "_".to_owned(),
                            arguments: "{}".to_owned(),
                        },
                    );
                    let stub = Message::Assistant {
                        text: None,
                        reasoning_content: Some(String::new()),
                        tool_calls: calls,
                    };
                    assert(crate::text::seq_view(calls@) =~= stub_parent(call_id@)->tool_calls);
                    assert(stub@ == stub_parent(call_id@));
                    out.push(stub);
                }
            },
            _ => {},
        }
        let m = msgs[i].clone();
        out.push(m);
        i = i + 1;
    }
    assert(view.take(i as int) =~= view);
    out
}

// ---------------------------------------------------------------------------
// Outbound: canonical request -> Chat Completions body
// ---------------------------------------------------------------------------

/// The document of a tool call.
pub open spec fn tool_call_json(tc: ToolCallView) -> Json {
    Json::obj().with("id"@, Json::Str(tc.call_id)).with("type"@, Json::Str("function"@)).with(
        "function"@,
        Json::obj().with("name"@, Json::Str(tc.name)).with("arguments"@, Json::Str(tc.arguments)),
    )
}

/// The document of a message.
pub open spec fn message_json(m: MessageView) -> Json {
    match m {
        MessageView::User(text) => Json::obj().with("role"@, Json::Str("user"@)).with(
            "content"@,
            Json::Str(text),
        ),
        MessageView::Assistant { text, reasoning_content, tool_calls } => Json::obj().with(
            "role"@,
            Json::Str("assistant"@),
        ).with("content"@, Json::opt_str(text)).with_opt(
            "reasoning_content"@,
            match reasoning_content {
                Some(rc) => Some(Json::Str(rc)),
                None => None,
            },
        ).with_opt(
            "tool_calls"@,
            if tool_calls.len() > 0 {
                Some(Json::Arr(tool_calls.map_values(|tc: ToolCallView| tool_call_json(tc))))
            } else {
                None
            },
        ),
        MessageView::Tool { call_id, output } => Json::obj().with("role"@, Json::Str("tool"@)).with(
            "tool_call_id"@,
            Json::Str(call_id),
        ).with("content"@, Json::Str(output)),
    }
}

/// The document of a tool definition; its schema is repaired on the way.
pub open spec fn tool_json(t: ToolDefView) -> Json {
    Json::obj().with("type"@, Json::Str("function"@)).with(
        "function"@,
        Json::obj().with("name"@, Json::Str(t.name)).with(
            "description"@,
            Json::opt_str(t.description),
        ).with("parameters"@, crate::wire::schema::tool_schema(t.parameters)),
    )
}

/// The document of a tool choice.
pub open spec fn choice_json(tc: ToolChoiceView) -> Json {
    match tc {
        ToolChoiceView::Auto => Json::Str("auto"@),
        ToolChoiceView::Never => Json::Str("none"@),
        ToolChoiceView::Required => Json::Str("required"@),
        ToolChoiceView::Function(name) => Json::obj().with("type"@, Json::Str("function"@)).with(
            "function"@,
            Json::obj().with("name"@, Json::Str(name)),
        ),
    }
}

/// The messages of the body: the system prompt first, then the conversation, in
/// which every tool result has its parent.
pub open spec fn body_messages(req: RequestView) -> Seq<Json> {
    (match req.system {
        Some(sys) => seq![
            Json::obj().with("role"@, Json::Str("system"@)).with("content"@, Json::Str(sys)),
        ],
        None => Seq::empty(),
    }) + with_parents(req.messages).map_values(|m: MessageView| message_json(m))
}

/// The Chat Completions body of a request. A field that the request leaves open is
/// left out of it.
pub open spec fn request_body(req: RequestView, model: Seq<char>, max_tokens_field: Seq<char>) -> Json {
    Json::obj().with("model"@, Json::Str(model)).with("messages"@, Json::Arr(body_messages(req))).with_opt(
        "tools"@,
        if req.tools.len() > 0 {
            Some(Json::Arr(req.tools.map_values(|t: ToolDefView| tool_json(t))))
        } else {
            None
        },
    ).with_opt(
        "tool_choice"@,
        if req.tools.len() > 0 {
            Some(choice_json(req.tool_choice))
        } else {
            None
        },
    ).with_opt("temperature"@, req.temperature).with_opt("top_p"@, req.top_p).with_opt(
        max_tokens_field,
        match req.max_output_tokens {
            Some(n) => Some(Json::num(n as u64)),
            None => None,
        },
    ).with_opt(
        "reasoning_effort"@,
        match req.reasoning_effort {
            Some(e) => Some(Json::Str(crate::canonical::effort_name(e))),
            None => None,
        },
    ).with_opt(
        "parallel_tool_calls"@,
        match req.parallel_tool_calls {
            Some(p) => Some(Json::Bool(p)),
            None => None,
        },
    ).with_opt(
        "stream"@,
        if req.stream {
            Some(Json::Bool(true))
        } else {
            None
        },
    ).with_opt(
        "stream_options"@,
        if req.stream {
            Some(Json::obj().with("include_usage"@, Json::Bool(true)))
        } else {
            None
        },
    )
}

fn call_to_json(tc: &ToolCall) -> (r: JsonValue)
    ensures
        r@ == tool_call_json(tc@),
{
    let function = JsonValue::obj().with("name", JsonValue::str(tc.name.as_str())).with(
        "arguments",
        JsonValue::str(tc.arguments.as_str()),
    );
    JsonValue::obj().with("id", JsonValue::str(tc.call_id.as_str())).with(
        "type",
        JsonValue::str("function"),
    ).with("function", function)
}

fn message_to_json(m: &Message) -> (r: JsonValue)
    ensures
        r@ == message_json(m@),
{
    broadcast use crate::json::group_values;

    match m {
        Message::User(text) => JsonValue::obj().with("role", JsonValue::str("user")).with(
            "content",
            JsonValue::str(text.as_str()),
        ),
        Message::Assistant { text, reasoning_content, tool_calls } => {
            let content = match text {
                Some(t) => JsonValue::str(t.as_str()),
                None => JsonValue::Null,
            };
            let rc = match reasoning_content {
                Some(t) => Some(JsonValue::str(t.as_str())),
                None => None,
            };
            let ghost view = crate::text::seq_view(tool_calls@);
            let mut calls: Vec<JsonValue> = Vec::new();
            let mut i: usize = 0;
            while i < tool_calls.len()
                invariant
                    i <= tool_calls@.len(),
                    calls@.len() == i,
                    view == crate::text::seq_view(tool_calls@),
                    forall|j: int| 0 <= j < i ==> (#[trigger] calls@[j])@ == tool_call_json(view[j]),
                decreases tool_calls@.len() - i,
            {
                let c = call_to_json(&tool_calls[i]);
                calls.push(c);
                i = i + 1;
            }
            assert(crate::json::values_view(calls@) =~= view.map_values(
                |tc: ToolCallView| tool_call_json(tc),
            ));
            let calls = if tool_calls.len() > 0 {
                Some(JsonValue::Array(calls))
            } else {
                None
            };
            JsonValue::obj().with("role", JsonValue::str("assistant")).with(
                "content",
                content,
            ).with_opt("reasoning_content", rc).with_opt("tool_calls", calls)
        },
        Message::Tool { call_id, output } => JsonValue::obj().with(
            "role",
            JsonValue::str("tool"),
        ).with("tool_call_id", JsonValue::str(call_id.as_str())).with(
            "content",
            JsonValue::str(output.as_str()),
        ),
    }
}

fn opt_string_to_json(s: &Option<String>) -> (r: JsonValue)
    ensures
        r@ == Json::opt_str(crate::text::opt_view(*s)),
{
    match s {
        Some(s) => JsonValue::str(s.as_str()),
        None => JsonValue::Null,
    }
}

fn tool_to_json(t: &ToolDef) -> (r: JsonValue)
    ensures
        r@ == tool_json(t@),
{
    let function = JsonValue::obj().with("name", JsonValue::str(t.name.as_str())).with(
        "description",
        opt_string_to_json(&t.description),
    ).with("parameters", sanitize_parameters(&t.parameters));
    JsonValue::obj().with("type", JsonValue::str("function")).with("function", function)
}

pub fn tool_choice_json(tc: &ToolChoice) -> (r: JsonValue)
    ensures
        r@ == choice_json(tc@),
{
    match tc {
        ToolChoice::Auto => JsonValue::str("auto"),
        ToolChoice::Never => JsonValue::str("none"),
        ToolChoice::Required => JsonValue::str("required"),
        ToolChoice::Function(name) => JsonValue::obj().with(
            "type",
            JsonValue::str("function"),
        ).with("function", JsonValue::obj().with("name", JsonValue::str(name.as_str()))),
    }
}

fn messages_to_json(req: &CanonicalRequest) -> (r: Vec<JsonValue>)
    ensures
        crate::json::values_view(r@) == body_messages(req@),
{
    broadcast use crate::json::group_values;

    let msgs = normalize_tool_parents(&req.messages);
    let mut out: Vec<JsonValue> = Vec::new();
    match &req.system {
        Some(sys) => {
            out.push(
                JsonValue::obj().with("role", JsonValue::str("system")).with(
                    "content",
                    JsonValue::str(sys.as_str()),
                ),
            );
        },
        None => {},
    }
    let ghost head = crate::json::values_view(out@);
    assert(body_messages(req@) =~= head + with_parents(req@.messages).map_values(
        |m: MessageView| message_json(m),
    ));
    let ghost view = crate::text::seq_view(msgs@);
    let ghost all = view.map_values(|m: MessageView| message_json(m));
    let mut i: usize = 0;
    assert(all.take(0) =~= Seq::empty());
    assert(head + Seq::<Json>::empty() =~= head);
    while i < msgs.len()
        invariant
            i <= msgs@.len(),
            view == crate::text::seq_view(msgs@),
            all == view.map_values(|m: MessageView| message_json(m)),
            crate::json::values_view(out@) == head + all.take(i as int),
        decreases msgs@.len() - i,
    {
        broadcast use crate::json::group_values;

        let j = message_to_json(&msgs[i]);
        out.push(j);
        assert(all.take(i as int + 1) =~= all.take(i as int).push(j@));
        assert(head + all.take(i as int).push(j@) =~= (head + all.take(i as int)).push(j@));
        i = i + 1;
    }
    assert(all.take(i as int) =~= all);
    out
}

fn tools_to_json(tools: &Vec<ToolDef>) -> (r: Vec<JsonValue>)
    ensures
        crate::json::values_view(r@) == crate::text::seq_view(tools@).map_values(
            |t: ToolDefView| tool_json(t),
        ),
{
    let ghost view = crate::text::seq_view(tools@);
    let mut out: Vec<JsonValue> = Vec::new();
    let mut i: usize = 0;
    while i < tools.len()
        invariant
            i <= tools@.len(),
            out@.len() == i,
            view == crate::text::seq_view(tools@),
            forall|j: int| 0 <= j < i ==> (#[trigger] out@[j])@ == tool_json(view[j]),
        decreases tools@.len() - i,
    {
        let t = tool_to_json(&tools[i]);
        out.push(t);
        i = i + 1;
    }
    assert(crate::json::values_view(out@) =~= view.map_values(|t: ToolDefView| tool_json(t)));
    out
}

/// The Chat Completions body for a request.
pub fn build_request(req: &CanonicalRequest, upstream_model: &str, provider: &Provider) -> (r:
    JsonValue)
    ensures
        r@ == request_body(req@, upstream_model@, provider@.max_tokens_field),
{
    let messages = messages_to_json(req);
    let tools = tools_to_json(&req.tools);
    let (tools, choice) = if req.tools.len() > 0 {
        (Some(JsonValue::Array(tools)), Some(tool_choice_json(&req.tool_choice)))
    } else {
        (None, None)
    };
    let temperature = clone_opt(&req.temperature);
    let top_p = clone_opt(&req.top_p);
    let max_tokens = match req.max_output_tokens {
        Some(n) => Some(JsonValue::num(n as u64)),
        None => None,
    };
    let effort = match req.reasoning_effort {
        Some(e) => Some(JsonValue::str(e.as_str())),
        None => None,
    };
    let parallel = match req.parallel_tool_calls {
        Some(p) => Some(JsonValue::Bool(p)),
        None => None,
    };
    let (stream, options) = if req.stream {
        (
            Some(JsonValue::Bool(true)),
            Some(JsonValue::obj().with("include_usage", JsonValue::Bool(true))),
        )
    } else {
        (None, None)
    };
    JsonValue::obj().with("model", JsonValue::str(upstream_model)).with(
        "messages",
        JsonValue::Array(messages),
    ).with_opt("tools", tools).with_opt("tool_choice", choice).with_opt(
        "temperature",
        temperature,
    ).with_opt("top_p", top_p).with_opt(provider.max_tokens_field.as_str(), max_tokens).with_opt(
        "reasoning_effort",
        effort,
    ).with_opt("parallel_tool_calls", parallel).with_opt("stream", stream).with_opt(
        "stream_options",
        options,
    )
}

// ---------------------------------------------------------------------------
// Inbound: Chat Completions body -> canonical request
// ---------------------------------------------------------------------------

/// The role of a message; one that names none is the user's.
pub open spec fn role_of(m: Json) -> Seq<char> {
    match m.get_str("role"@) {
        Some(r) => r,
        None => "user"@,
    }
}

pub open spec fn is_system_role(role: Seq<char>) -> bool {
    role == "system"@ || role == "developer"@
}

/// The tool call that an entry of `tool_calls` makes, if it names a function.
pub open spec fn parsed_call(tc: Json) -> Option<ToolCallView> {
    match tc.get("function"@) {
        Some(f) => match f.get_str("name"@) {
            Some(name) => Some(
                ToolCallView {
                    call_id: tc.str_or_empty("id"@),
                    name,
                    arguments: f.str_or_empty("arguments"@),
                },
            ),
            None => None,
        },
        None => None,
    }
}

/// The turn that a message stands for. An assistant's empty content is no text.
pub open spec fn parsed_turn(m: Json) -> MessageView {
    if role_of(m) == "tool"@ {
        MessageView::Tool {
            call_id: m.str_or_empty("tool_call_id"@),
            output: m.str_or_empty("content"@),
        }
    } else if role_of(m) == "assistant"@ {
        MessageView::Assistant {
            text: match m.get_str("content"@) {
                Some(s) => if s.len() > 0 {
                    Some(s)
                } else {
                    None
                },
                None => None,
            },
            reasoning_content: m.get_str("reasoning_content"@),
            tool_calls: crate::wire::items_of(m.get("tool_calls"@)).filter_map(|tc: Json| parsed_call(tc)),
        }
    } else {
        MessageView::User(m.str_or_empty("content"@))
    }
}

/// The conversation: every message but the system's.
pub open spec fn parsed_turns(msgs: Seq<Json>) -> Seq<MessageView> {
    msgs.filter_map(
        |m: Json|
            if is_system_role(role_of(m)) {
                None
            } else {
                Some(parsed_turn(m))
            },
    )
}

/// The system prompt: the content of the last message with a system role.
pub open spec fn parsed_system(msgs: Seq<Json>) -> Option<Seq<char>>
    decreases msgs.len(),
{
    if msgs.len() == 0 {
        None
    } else if is_system_role(role_of(msgs.last())) {
        Some(msgs.last().str_or_empty("content"@))
    } else {
        parsed_system(msgs.drop_last())
    }
}

/// The tool that an entry of `tools` defines, if it is of type `function` and names one.
pub open spec fn parsed_tool(t: Json) -> Option<ToolDefView> {
    match t.get("function"@) {
        Some(f) if t.get_str("type"@) == Some("function"@) => match f.get_str("name"@) {
            Some(name) => Some(
                ToolDefView {
                    name,
                    description: f.get_str("description"@),
                    parameters: match f.get("parameters"@) {
                        Some(p) => p,
                        None => Json::Null,
                    },
                },
            ),
            None => None,
        },
        _ => None,
    }
}

/// The tool choice that a `tool_choice` member expresses.
pub open spec fn parsed_choice(v: Option<Json>) -> ToolChoiceView {
    match v {
        Some(Json::Str(s)) => if s == "none"@ {
            ToolChoiceView::Never
        } else if s == "required"@ {
            ToolChoiceView::Required
        } else {
            ToolChoiceView::Auto
        },
        Some(j) => match j.get2("function"@, "name"@) {
            Some(Json::Str(name)) => ToolChoiceView::Function(name),
            _ => ToolChoiceView::Auto,
        },
        None => ToolChoiceView::Auto,
    }
}

/// The request that a Chat Completions body makes.
pub open spec fn parsed_request(body: Json) -> Result<RequestView, ErrorView> {
    if !(body is Obj) {
        Err(ErrorView::BadRequest("body must be a JSON object"@))
    } else {
        match body.get_str("model"@) {
            None => Err(ErrorView::BadRequest("missing `model`"@)),
            Some(model) => {
                let msgs = crate::wire::items_of(body.get("messages"@));
                Ok(
                    RequestView {
                        model,
                        system: parsed_system(msgs),
                        messages: parsed_turns(msgs),
                        tools: crate::wire::items_of(body.get("tools"@)).filter_map(|t: Json| parsed_tool(t)),
                        tool_choice: parsed_choice(body.get("tool_choice"@)),
                        temperature: crate::wire::number_under(body, "temperature"@),
                        top_p: None,
                        max_output_tokens: crate::wire::u32_under(body, "max_tokens"@),
                        reasoning_effort: None,
                        parallel_tool_calls: body.get_bool("parallel_tool_calls"@),
                        stream: crate::wire::flag_under(body, "stream"@),
                    },
                )
            },
        }
    }
}

fn parse_chat_tool_call(tc: &JsonValue) -> (r: Option<ToolCall>)
    ensures
        crate::text::opt_view(r) == parsed_call(tc@),
{
    match tc.get("function") {
        Some(f) => match f.get_str("name") {
            Some(name) => Some(
                ToolCall {
                    call_id: tc.str_or_empty("id"),
                    name: name.to_owned(),
                    arguments: f.str_or_empty("arguments"),
                },
            ),
            None => None,
        },
        None => None,
    }
}

/// Parse assistant-message `tool_calls` into canonical tool calls.
pub fn parse_chat_tool_calls(v: Option<&JsonValue>) -> (r: Vec<ToolCall>)
    ensures
        crate::text::seq_view(r@) == crate::wire::items_of(crate::text::opt_view(v)).filter_map(
            |tc: Json| parsed_call(tc),
        ),
{
    broadcast use crate::text::group_views;

    let mut out: Vec<ToolCall> = Vec::new();
    let arr = match v {
        Some(JsonValue::Array(a)) => a,
        _ => {
            return out;
        },
    };
    let ghost items = crate::json::values_view(arr@);
    let ghost f = |tc: Json| parsed_call(tc);
    let mut i: usize = 0;
    assert(items.take(0) =~= Seq::empty());
    while i < arr.len()
        invariant
            i <= arr@.len(),
            items == crate::json::values_view(arr@),
            f == (|tc: Json| parsed_call(tc)),
            crate::text::seq_view(out@) == items.take(i as int).filter_map(f),
        decreases arr@.len() - i,
    {
        broadcast use crate::text::group_views;

        proof {
            items.lemma_filter_map_take_succ(f, i as int);
        }
        match parse_chat_tool_call(&arr[i]) {
            Some(tc) => {
                out.push(tc);
            },
            None => {},
        }
        i = i + 1;
    }
    assert(items.take(i as int) =~= items);
    out
}

fn parse_chat_tool(t: &JsonValue) -> (r: Option<ToolDef>)
    ensures
        crate::text::opt_view(r) == parsed_tool(t@),
{
    match t.get_str("type") {
        Some(kind) if str_eq(kind, "function") => {},
        _ => {
            return None;
        },
    }
    match t.get("function") {
        Some(f) => match f.get_str("name") {
            Some(name) => {
                let parameters = match f.get("parameters") {
                    Some(p) => p.copy(),
                    None => JsonValue::Null,
                };
                Some(
                    ToolDef {
                        name: name.to_owned(),
                        description: string_member(f, "description"),
                        parameters,
                    },
                )
            },
            None => None,
        },
        None => None,
    }
}

/// Parse Chat Completions `tools` into canonical tool definitions. Only entries of type
/// `function` are kept. The schemas are carried through as they are; `build_request`
/// repairs them.
pub fn parse_chat_tools(v: Option<&JsonValue>) -> (r: Vec<ToolDef>)
    ensures
        crate::text::seq_view(r@) == crate::wire::items_of(crate::text::opt_view(v)).filter_map(
            |t: Json| parsed_tool(t),
        ),
{
    broadcast use crate::text::group_views;

    let mut out: Vec<ToolDef> = Vec::new();
    let arr = match v {
        Some(JsonValue::Array(a)) => a,
        _ => {
            return out;
        },
    };
    let ghost items = crate::json::values_view(arr@);
    let ghost f = |t: Json| parsed_tool(t);
    let mut i: usize = 0;
    assert(items.take(0) =~= Seq::empty());
    while i < arr.len()
        invariant
            i <= arr@.len(),
            items == crate::json::values_view(arr@),
            f == (|t: Json| parsed_tool(t)),
            crate::text::seq_view(out@) == items.take(i as int).filter_map(f),
        decreases arr@.len() - i,
    {
        broadcast use crate::text::group_views;

        proof {
            items.lemma_filter_map_take_succ(f, i as int);
        }
        match parse_chat_tool(&arr[i]) {
            Some(t) => {
                out.push(t);
            },
            None => {},
        }
        i = i + 1;
    }
    assert(items.take(i as int) =~= items);
    out
}

/// Parse a Chat Completions `tool_choice`.
pub fn parse_chat_tool_choice(v: Option<&JsonValue>) -> (r: ToolChoice)
    ensures
        r@ == parsed_choice(crate::text::opt_view(v)),
{
    match v {
        Some(JsonValue::String(s)) => {
            if str_eq(s.as_str(), "none") {
                ToolChoice::Never
            } else if str_eq(s.as_str(), "required") {
                ToolChoice::Required
            } else {
                ToolChoice::Auto
            }
        },
        Some(j) => match j.get2("function", "name") {
            Some(n) => match n.as_str() {
                Some(name) => ToolChoice::Function(name.to_owned()),
                None => ToolChoice::Auto,
            },
            None => ToolChoice::Auto,
        },
        None => ToolChoice::Auto,
    }
}

fn parse_chat_turn(m: &JsonValue, role: &str) -> (r: Message)
    requires
        role@ == role_of(m@),
    ensures
        r@ == parsed_turn(m@),
{
    if str_eq(role, "tool") {
        Message::Tool {
            call_id: m.str_or_empty("tool_call_id"),
            output: m.str_or_empty("content"),
        }
    } else if str_eq(role, "assistant") {
        let text = match m.get_str("content") {
            Some(s) => if s.is_empty() {
                None
            } else {
                Some(s.to_owned())
            },
            None => None,
        };
        Message::Assistant {
            text,
            reasoning_content: string_member(m, "reasoning_content"),
            tool_calls: parse_chat_tool_calls(m.get("tool_calls")),
        }
    } else {
        Message::User(m.str_or_empty("content"))
    }
}

/// The conversation and the system prompt in a list of messages.
fn parse_chat_messages(v: Option<&JsonValue>) -> (r: (Vec<Message>, Option<String>))
    ensures
        crate::text::seq_view(r.0@) == parsed_turns(crate::wire::items_of(crate::text::opt_view(v))),
        crate::text::opt_view(r.1) == parsed_system(crate::wire::items_of(crate::text::opt_view(v))),
{
    broadcast use crate::text::group_views;

    let mut out: Vec<Message> = Vec::new();
    let mut system: Option<String> = None;
    let arr = match v {
        Some(JsonValue::Array(a)) => a,
        _ => {
            return (out, system);
        },
    };
    let ghost items = crate::json::values_view(arr@);
    let ghost f = |m: Json|
        if is_system_role(role_of(m)) {
            None
        } else {
            Some(parsed_turn(m))
        };
    let mut i: usize = 0;
    assert(items.take(0) =~= Seq::empty());
    while i < arr.len()
        invariant
            i <= arr@.len(),
            items == crate::json::values_view(arr@),
            f == (|m: Json|
                if is_system_role(role_of(m)) {
                    None
                } else {
                    Some(parsed_turn(m))
                }),
            crate::text::seq_view(out@) == items.take(i as int).filter_map(f),
            crate::text::opt_view(system) == parsed_system(items.take(i as int)),
        decreases arr@.len() - i,
    {
        broadcast use crate::text::group_views;

        proof {
            items.lemma_filter_map_take_succ(f, i as int);
            assert(items.take(i as int + 1).drop_last() =~= items.take(i as int));
            assert(items.take(i as int + 1).last() == items[i as int]);
        }
        let m = &arr[i];
        let role = match m.get_str("role") {
            Some(r) => r,
            None => "user",
        };
        if str_eq(role, "system") || str_eq(role, "developer") {
            system = Some(m.str_or_empty("content"));
        } else {
            let turn = parse_chat_turn(m, role);
            out.push(turn);
        }
        i = i + 1;
    }
    assert(items.take(i as int) =~= items);
    (out, system)
}

/// Parse a Chat Completions request body into the canonical request.
pub fn parse_request(body: &JsonValue) -> (r: Result<CanonicalRequest, BridgeError>)
    ensures
        crate::text::res_view(r) == parsed_request(body@),
{
    if body.as_object().is_none() {
        return Err(BridgeError::bad_request("body must be a JSON object"));
    }
    let model = match body.get_str("model") {
        Some(m) => m.to_owned(),
        None => {
            return Err(BridgeError::bad_request("missing `model`"));
        },
    };
    let (messages, system) = parse_chat_messages(body.get("messages"));
    Ok(
        CanonicalRequest {
            model,
            system,
            messages,
            tools: parse_chat_tools(body.get("tools")),
            tool_choice: parse_chat_tool_choice(body.get("tool_choice")),
            temperature: number_member(body, "temperature"),
            top_p: None,
            max_output_tokens: u32_member(body, "max_tokens"),
            reasoning_effort: None,
            parallel_tool_calls: body.get_bool("parallel_tool_calls"),
            stream: flag_member(body, "stream"),
        },
    )
}

// ---------------------------------------------------------------------------
// Upstream answers: Chat Completions -> canonical events
// ---------------------------------------------------------------------------

/// `s` with `x` put in at its place in ascending order.
pub open spec fn add_ascending(s: Seq<u32>, x: u32) -> Seq<u32>
    decreases s.len(),
{
    if s.len() == 0 || s.last() < x {
        s.push(x)
    } else {
        add_ascending(s.drop_last(), x).push(s.last())
    }
}

/// Strictly ascending.
pub open spec fn strictly_ascending(s: Seq<u32>) -> bool {
    forall|i: int, j: int| 0 <= i < j < s.len() ==> s[i] < s[j]
}

/// The state of a `ChatStreamParser`.
pub struct ParserView {
    pub response_id: Seq<char>,
    pub model: Seq<char>,
    pub created: bool,
    /// The indices of the tool calls seen so far, in ascending order.
    pub started: Seq<u32>,
}

/// The `usage` object of an answer as an event.
pub open spec fn parsed_usage(u: Json) -> EventView {
    let count = |v: Option<u64>|
        match v {
            Some(n) => (n % 0x1_0000_0000) as u32,
            None => 0u32,
        };
    let in_details = match u.get("prompt_tokens_details"@) {
        Some(d) => d.get_u64("cached_tokens"@),
        None => None,
    };
    EventView::Usage {
        input_tokens: count(u.get_u64("prompt_tokens"@)),
        output_tokens: count(u.get_u64("completion_tokens"@)),
        total_tokens: count(u.get_u64("total_tokens"@)),
        cached_input_tokens: count(
            if in_details is Some {
                in_details
            } else {
                u.get_u64("prompt_cache_hit_tokens"@)
            },
        ),
        reasoning_tokens: count(
            match u.get("completion_tokens_details"@) {
                Some(d) => d.get_u64("reasoning_tokens"@),
                None => None,
            },
        ),
    }
}

/// The usage event of an answer, where it carries one.
pub open spec fn usage_events(j: Json) -> Seq<EventView> {
    match j.get("usage"@) {
        Some(u) => if u is Null {
            Seq::empty()
        } else {
            seq![parsed_usage(u)]
        },
        None => Seq::empty(),
    }
}

/// The reasoning and the text that a message or a piece of one carries.
pub open spec fn text_events(d: Json) -> Seq<EventView> {
    let rc = match d.get("reasoning_content"@) {
        Some(v) => v.as_str(),
        None => d.get_str("reasoning"@),
    };
    (match rc {
        Some(t) => if t.len() > 0 {
            seq![EventView::ReasoningDelta { text: t }]
        } else {
            Seq::empty()
        },
        None => Seq::empty(),
    }) + (match d.get_str("content"@) {
        Some(t) => if t.len() > 0 {
            seq![EventView::TextDelta { text: t }]
        } else {
            Seq::empty()
        },
        None => Seq::empty(),
    })
}

/// The string under `key` in the call's `function`, or the empty string.
pub open spec fn function_str(tc: Json, key: Seq<char>) -> Seq<char> {
    match tc.get("function"@) {
        Some(f) => f.str_or_empty(key),
        None => Seq::empty(),
    }
}

/// The index of a tool-call fragment.
pub open spec fn fragment_index(tc: Json) -> u32 {
    match tc.get_u64("index"@) {
        Some(n) => (n % 0x1_0000_0000) as u32,
        None => 0,
    }
}

/// The events of one tool-call fragment: its start, where the call is new, and its
/// piece of the arguments, where it has one.
pub open spec fn fragment_events(started: Seq<u32>, tc: Json) -> Seq<EventView> {
    let index = fragment_index(tc);
    let args = function_str(tc, "arguments"@);
    (if started.contains(index) {
        Seq::empty()
    } else {
        seq![
            EventView::ToolCallStart {
                index,
                call_id: tc.str_or_empty("id"@),
                name: function_str(tc, "name"@),
            },
        ]
    }) + (if args.len() > 0 {
        seq![EventView::ToolCallArgsDelta { index, delta: args }]
    } else {
        Seq::empty()
    })
}

/// The tool calls known after a fragment.
pub open spec fn started_after(started: Seq<u32>, tc: Json) -> Seq<u32> {
    if started.contains(fragment_index(tc)) {
        started
    } else {
        add_ascending(started, fragment_index(tc))
    }
}

/// The tool calls known after a list of fragments.
pub open spec fn all_started(started: Seq<u32>, tcs: Seq<Json>) -> Seq<u32>
    decreases tcs.len(),
{
    if tcs.len() == 0 {
        started
    } else {
        started_after(all_started(started, tcs.drop_last()), tcs.last())
    }
}

/// The events of a list of fragments.
pub open spec fn all_fragment_events(started: Seq<u32>, tcs: Seq<Json>) -> Seq<EventView>
    decreases tcs.len(),
{
    if tcs.len() == 0 {
        Seq::empty()
    } else {
        all_fragment_events(started, tcs.drop_last()) + fragment_events(
            all_started(started, tcs.drop_last()),
            tcs.last(),
        )
    }
}

/// The first choice of an answer.
pub open spec fn first_choice(j: Json) -> Option<Json> {
    match j.get_array("choices"@) {
        Some(a) => if a.len() > 0 {
            Some(a[0])
        } else {
            None
        },
        None => None,
    }
}

/// The tool-call fragments of a chunk.
pub open spec fn fragments_of(chunk: Json) -> Seq<Json> {
    match first_choice(chunk) {
        Some(c) => match c.get("delta"@) {
            Some(d) => crate::wire::items_of(d.get("tool_calls"@)),
            None => Seq::empty(),
        },
        None => Seq::empty(),
    }
}

/// The reasoning and the text that a chunk carries.
pub open spec fn said_in(chunk: Json) -> Seq<EventView> {
    match first_choice(chunk) {
        Some(c) => match c.get("delta"@) {
            Some(d) => text_events(d),
            None => Seq::empty(),
        },
        None => Seq::empty(),
    }
}

/// Whether a chunk ends its choice.
pub open spec fn finishes(chunk: Json) -> bool {
    match first_choice(chunk) {
        Some(c) => c.get_str("finish_reason"@) is Some,
        None => false,
    }
}

/// The error that a chunk reports in place of an answer.
pub open spec fn chunk_error(chunk: Json) -> Option<EventView> {
    match chunk.get("error"@) {
        Some(e) => if e is Null {
            None
        } else {
            Some(
                EventView::Error {
                    message: match e.get_str("message"@) {
                        Some(m) => m,
                        None => "upstream error"@,
                    },
                    status: match e.get_u64("code"@) {
                        Some(n) => (n % 0x1_0000) as u16,
                        None => 502,
                    },
                },
            )
        },
        None => None,
    }
}

impl ParserView {
    /// The state after a chunk.
    pub open spec fn after(self, chunk: Json) -> ParserView {
        if chunk_error(chunk) is Some {
            self
        } else {
            ParserView {
                model: if self.created {
                    self.model
                } else {
                    chunk.str_or_empty("model"@)
                },
                created: true,
                started: all_started(self.started, fragments_of(chunk)),
                ..self
            }
        }
    }

    /// The creation of the answer, where it is not created yet.
    pub open spec fn opening(self, chunk: Json) -> Seq<EventView> {
        if self.created {
            Seq::empty()
        } else {
            seq![
                EventView::Created {
                    response_id: self.response_id,
                    model: chunk.str_or_empty("model"@),
                },
            ]
        }
    }

    /// The end of every tool call, where the choice ends.
    pub open spec fn endings(self, chunk: Json) -> Seq<EventView> {
        if finishes(chunk) {
            self.after(chunk).started.map_values(|i: u32| EventView::ToolCallDone { index: i })
        } else {
            Seq::empty()
        }
    }

    /// The events of a chunk: an error alone; or else the creation of the answer, once,
    /// the pieces of the first choice, the end of every tool call where the choice
    /// ends, and the usage.
    pub open spec fn events(self, chunk: Json) -> Seq<EventView> {
        match chunk_error(chunk) {
            Some(e) => seq![e],
            None => self.opening(chunk) + said_in(chunk) + all_fragment_events(
                self.started,
                fragments_of(chunk),
            ) + self.endings(chunk) + usage_events(chunk),
        }
    }
}

proof fn lemma_add_ascending(s: Seq<u32>, x: u32)
    requires
        strictly_ascending(s),
        !s.contains(x),
    ensures
        strictly_ascending(add_ascending(s, x)),
        add_ascending(s, x).len() == s.len() + 1,
        forall|y: u32| #[trigger] add_ascending(s, x).contains(y) <==> s.contains(y) || y == x,
    decreases s.len(),
{
    let t = add_ascending(s, x);
    if s.len() == 0 || s.last() < x {
        assert forall|y: u32| #[trigger] t.contains(y) <==> s.contains(y) || y == x by {
            if s.contains(y) {
                let i = choose|i: int| 0 <= i < s.len() && s[i] == y;
                assert(t[i] == y);
            }
            assert(t[s.len() as int] == x);
        }
        if s.len() > 0 {
            assert(s.last() == s[s.len() - 1]);
        }
    } else {
        let init = s.drop_last();
        assert(s.last() == s[s.len() - 1]);
        assert(s.contains(s.last()));
        assert(!init.contains(x)) by {
            if init.contains(x) {
                let i = choose|i: int| 0 <= i < init.len() && init[i] == x;
                assert(s[i] == x);
            }
        }
        lemma_add_ascending(init, x);
        let u = add_ascending(init, x);
        assert forall|y: u32| #[trigger] t.contains(y) <==> s.contains(y) || y == x by {
            if s.contains(y) {
                let i = choose|i: int| 0 <= i < s.len() && s[i] == y;
                if i < init.len() {
                    assert(init[i] == y);
                    assert(u.contains(y));
                    let k = choose|k: int| 0 <= k < u.len() && u[k] == y;
                    assert(t[k] == y);
                } else {
                    assert(t[u.len() as int] == y);
                }
            }
            if y == x {
                assert(u.contains(x));
                let k = choose|k: int| 0 <= k < u.len() && u[k] == x;
                assert(t[k] == x);
            }
            if t.contains(y) {
                let k = choose|k: int| 0 <= k < t.len() && t[k] == y;
                if k < u.len() {
                    assert(u[k] == y);
                    assert(u.contains(y));
                    if init.contains(y) {
                        let i = choose|i: int| 0 <= i < init.len() && init[i] == y;
                        assert(s[i] == y);
                    }
                } else {
                    assert(s[s.len() - 1] == y);
                }
            }
        }
        assert forall|i: int, j: int| 0 <= i < j < t.len() implies t[i] < t[j] by {
            if j == u.len() {
                assert(u.contains(u[i]));
                if init.contains(u[i]) {
                    let k = choose|k: int| 0 <= k < init.len() && init[k] == u[i];
                    assert(s[k] < s[s.len() - 1]);
                }
            }
        }
    }
}

/// The tool calls of a stream stay in ascending order, each listed once, and none is
/// forgotten.
pub proof fn tool_calls_stay_ascending(p: ParserView, chunk: Json)
    requires
        strictly_ascending(p.started),
    ensures
        strictly_ascending(p.after(chunk).started),
        forall|x: u32| p.started.contains(x) ==> #[trigger] p.after(chunk).started.contains(x),
{
    lemma_all_started_ascending(p.started, fragments_of(chunk));
}

proof fn lemma_all_started_ascending(started: Seq<u32>, tcs: Seq<Json>)
    requires
        strictly_ascending(started),
    ensures
        strictly_ascending(all_started(started, tcs)),
        forall|x: u32| started.contains(x) ==> #[trigger] all_started(started, tcs).contains(x),
    decreases tcs.len(),
{
    if tcs.len() > 0 {
        lemma_all_started_ascending(started, tcs.drop_last());
        let before = all_started(started, tcs.drop_last());
        let index = fragment_index(tcs.last());
        if !before.contains(index) {
            lemma_add_ascending(before, index);
        }
    }
}

/// Whether the event `ev` starts the tool call `index`.
pub open spec fn starts(ev: EventView, index: u32) -> bool {
    ev matches EventView::ToolCallStart { index: i, .. } && i == index
}

/// A piece of a tool call's arguments never comes before the call's start: the call
/// was known before the chunk, or its start comes earlier among the chunk's events.
pub proof fn arguments_follow_their_start(started: Seq<u32>, tcs: Seq<Json>, k: int)
    requires
        strictly_ascending(started),
        0 <= k < all_fragment_events(started, tcs).len(),
        all_fragment_events(started, tcs)[k] is ToolCallArgsDelta,
    ensures
        ({
            let index = all_fragment_events(started, tcs)[k]->ToolCallArgsDelta_index;
            ||| started.contains(index)
            ||| exists|i: int|
                0 <= i < k && starts(#[trigger] all_fragment_events(started, tcs)[i], index)
        }),
    decreases tcs.len(),
{
    let all = all_fragment_events(started, tcs);
    if tcs.len() > 0 {
        let init = tcs.drop_last();
        let before = all_fragment_events(started, init);
        let known = all_started(started, init);
        let last = fragment_events(known, tcs.last());
        let index = all[k]->ToolCallArgsDelta_index;
        if k < before.len() {
            arguments_follow_their_start(started, init, k);
            if !started.contains(index) {
                let i = choose|i: int| 0 <= i < k && starts(#[trigger] before[i], index);
                assert(starts(all[i], index));
            }
        } else if known.contains(index) {
            lemma_known_was_started(started, init, index);
            if !started.contains(index) {
                let i = choose|i: int| 0 <= i < before.len() && starts(#[trigger] before[i], index);
                assert(starts(all[i], index));
            }
        } else {
            assert(all[k] == last[k - before.len()]);
            assert(starts(last[0], index));
            assert(all[before.len() as int] == last[0]);
        }
    }
}

pub proof fn lemma_known_was_started(started: Seq<u32>, tcs: Seq<Json>, index: u32)
    requires
        strictly_ascending(started),
        all_started(started, tcs).contains(index),
    ensures
        ({
            ||| started.contains(index)
            ||| exists|i: int|
                0 <= i < all_fragment_events(started, tcs).len() && starts(
                    #[trigger] all_fragment_events(started, tcs)[i],
                    index,
                )
        }),
    decreases tcs.len(),
{
    if tcs.len() > 0 {
        let init = tcs.drop_last();
        let before = all_fragment_events(started, init);
        let known = all_started(started, init);
        let last = fragment_events(known, tcs.last());
        let all = all_fragment_events(started, tcs);
        lemma_all_started_ascending(started, init);
        if known.contains(index) {
            lemma_known_was_started(started, init, index);
            if !started.contains(index) {
                let i = choose|i: int| 0 <= i < before.len() && starts(#[trigger] before[i], index);
                assert(starts(all[i], index));
            }
        } else {
            lemma_add_ascending(known, fragment_index(tcs.last()));
            assert(starts(last[0], index));
            assert(all[before.len() as int] == last[0]);
        }
    }
}

/// A call that is known stays known.
pub proof fn lemma_started_stay(started: Seq<u32>, tcs: Seq<Json>, index: u32)
    requires
        strictly_ascending(started),
        started.contains(index),
    ensures
        all_started(started, tcs).contains(index),
    decreases tcs.len(),
{
    if tcs.len() > 0 {
        let init = tcs.drop_last();
        lemma_started_stay(started, init, index);
        let known = all_started(started, init);
        let last = fragment_index(tcs.last());
        lemma_all_started_ascending(started, init);
        if !known.contains(last) {
            lemma_add_ascending(known, last);
        }
    }
}

/// Whether two events start a tool call under the same index.
pub open spec fn same_start(a: EventView, b: EventView) -> bool {
    a is ToolCallStart && b is ToolCallStart && a->ToolCallStart_index == b->ToolCallStart_index
}

/// Whether no two events start a tool call under the same index.
pub open spec fn distinct_starts(evs: Seq<EventView>) -> bool {
    forall|i: int, j: int|
        0 <= i < j < evs.len() ==> !same_start(#[trigger] evs[i], #[trigger] evs[j])
}

/// Whether every call that the events start is among `known`.
pub open spec fn starts_within(evs: Seq<EventView>, known: Seq<u32>) -> bool {
    forall|i: int|
        0 <= i < evs.len() && (#[trigger] evs[i]) is ToolCallStart ==> known.contains(
            evs[i]->ToolCallStart_index,
        )
}

/// Whether no call that the events start is among `known`.
pub open spec fn starts_outside(evs: Seq<EventView>, known: Seq<u32>) -> bool {
    forall|i: int|
        0 <= i < evs.len() && (#[trigger] evs[i]) is ToolCallStart ==> !known.contains(
            evs[i]->ToolCallStart_index,
        )
}

proof fn lemma_fragment_starts(started: Seq<u32>, tcs: Seq<Json>)
    requires
        strictly_ascending(started),
    ensures
        distinct_starts(all_fragment_events(started, tcs)),
        starts_within(all_fragment_events(started, tcs), all_started(started, tcs)),
        starts_outside(all_fragment_events(started, tcs), started),
    decreases tcs.len(),
{
    if tcs.len() > 0 {
        let init = tcs.drop_last();
        let a = all_fragment_events(started, init);
        let known = all_started(started, init);
        let index = fragment_index(tcs.last());
        let b = fragment_events(known, tcs.last());
        let all = all_fragment_events(started, tcs);
        lemma_fragment_starts(started, init);
        lemma_all_started_ascending(started, init);
        if !known.contains(index) {
            lemma_add_ascending(known, index);
        }
        assert forall|i: int| 0 <= i < all.len() && (#[trigger] all[i]) is ToolCallStart implies (
        all_started(started, tcs).contains(all[i]->ToolCallStart_index) && !started.contains(
            all[i]->ToolCallStart_index,
        )) by {
            if i < a.len() {
                assert(a[i] is ToolCallStart);
            } else {
                assert(b[i - a.len()] is ToolCallStart);
            }
        }
        assert forall|i: int, j: int| 0 <= i < j < all.len() implies !same_start(
            #[trigger] all[i],
            #[trigger] all[j],
        ) by {
            if j < a.len() {
                assert(!same_start(a[i], a[j]));
            } else if i < a.len() {
                if a[i] is ToolCallStart {
                    assert(known.contains(a[i]->ToolCallStart_index));
                }
                assert(all[j] == b[j - a.len()]);
            } else {
                assert(all[i] == b[i - a.len()]);
                assert(all[j] == b[j - a.len()]);
            }
        }
    }
}

/// A stream starts no tool call twice: the calls that a chunk starts are all different,
/// none of them was known before, and all of them are known afterwards.
pub proof fn calls_start_once(p: ParserView, chunk: Json)
    requires
        strictly_ascending(p.started),
    ensures
        distinct_starts(p.events(chunk)),
        starts_outside(p.events(chunk), p.started),
        starts_within(p.events(chunk), p.after(chunk).started),
{
    let evs = p.events(chunk);
    if chunk_error(chunk) is None {
        let created = p.opening(chunk);
        let texts = said_in(chunk);
        let head = created + texts;
        let calls = all_fragment_events(p.started, fragments_of(chunk));
        let known = p.after(chunk).started;
        let dones = p.endings(chunk);
        let tail = dones + usage_events(chunk);
        lemma_fragment_starts(p.started, fragments_of(chunk));
        assert(evs =~= head + calls + tail);
        assert forall|i: int| 0 <= i < evs.len() && (#[trigger] evs[i]) is ToolCallStart implies (
        head.len() <= i < head.len() + calls.len()) by {
            if i < head.len() {
                assert(evs[i] == head[i]);
                if i < created.len() {
                    assert(head[i] == created[i]);
                } else {
                    assert(head[i] == texts[i - created.len()]);
                }
            } else if i >= head.len() + calls.len() {
                let k = i - head.len() - calls.len();
                assert(evs[i] == tail[k]);
                if k < dones.len() {
                    assert(tail[k] == dones[k]);
                } else {
                    assert(tail[k] == usage_events(chunk)[k - dones.len()]);
                }
            }
        }
        assert forall|i: int| head.len() <= i < head.len() + calls.len() implies #[trigger] evs[i]
            == calls[i - head.len()] by {}
        assert forall|i: int, j: int| 0 <= i < j < evs.len() implies !same_start(
            #[trigger] evs[i],
            #[trigger] evs[j],
        ) by {
            if evs[i] is ToolCallStart && evs[j] is ToolCallStart {
                assert(!same_start(calls[i - head.len()], calls[j - head.len()]));
            }
        }
    }
}

/// Whatever the parser is given, it ends no answer by itself; it reports an error alone or
/// not at all.
pub proof fn chunks_end_only_in_errors(p: ParserView, chunk: Json)
    ensures
        match chunk_error(chunk) {
            Some(e) => e is Error && p.events(chunk) == seq![e],
            None => forall|i: int|
                0 <= i < p.events(chunk).len() ==> !((#[trigger] p.events(chunk)[i]) is Error)
                    && !(p.events(chunk)[i] is Completed),
        },
{
    if chunk_error(chunk) is None {
        let evs = p.events(chunk);
        let created = p.opening(chunk);
        let texts = said_in(chunk);
        let calls = all_fragment_events(p.started, fragments_of(chunk));
        let dones = p.endings(chunk);
        let usage = usage_events(chunk);
        lemma_fragments_end_nothing(p.started, fragments_of(chunk));
        let n1 = created.len() as int;
        let n2 = n1 + texts.len();
        let n3 = n2 + calls.len();
        let n4 = n3 + dones.len();
        assert(evs =~= created + texts + calls + dones + usage);
        assert forall|i: int| 0 <= i < evs.len() implies !((#[trigger] evs[i]) is Error) && !(
        evs[i] is Completed) by {
            if i < n1 {
                assert(evs[i] == created[i]);
            } else if i < n2 {
                assert(evs[i] == texts[i - n1]);
            } else if i < n3 {
                assert(evs[i] == calls[i - n2]);
            } else if i < n4 {
                assert(evs[i] == dones[i - n3]);
            } else {
                assert(evs[i] == usage[i - n4]);
            }
        }
    }
}

proof fn lemma_fragments_end_nothing(started: Seq<u32>, tcs: Seq<Json>)
    ensures
        forall|i: int|
            0 <= i < all_fragment_events(started, tcs).len() ==> !((
            #[trigger] all_fragment_events(started, tcs)[i]) is Error) && !(all_fragment_events(
                started,
                tcs,
            )[i] is Completed),
    decreases tcs.len(),
{
    if tcs.len() > 0 {
        let init = tcs.drop_last();
        lemma_fragments_end_nothing(started, init);
        let a = all_fragment_events(started, init);
        let b = fragment_events(all_started(started, init), tcs.last());
        let all = all_fragment_events(started, tcs);
        assert forall|i: int| 0 <= i < all.len() implies !((#[trigger] all[i]) is Error) && !(
        all[i] is Completed) by {
            if i < a.len() {
                assert(all[i] == a[i]);
            } else {
                assert(all[i] == b[i - a.len()]);
            }
        }
    }
}

/// Translate a `usage` object into a usage event. Prefix-cache hits are read from
/// `prompt_tokens_details.cached_tokens`, or else from `prompt_cache_hit_tokens`.
pub fn usage_event(u: &JsonValue) -> (r: CanonicalEvent)
    ensures
        r@ == parsed_usage(u@),
{
    let in_details = match u.get("prompt_tokens_details") {
        Some(d) => d.get_u64("cached_tokens"),
        None => None,
    };
    let cached = match in_details {
        Some(n) => Some(n),
        None => u.get_u64("prompt_cache_hit_tokens"),
    };
    let reasoning = match u.get("completion_tokens_details") {
        Some(d) => d.get_u64("reasoning_tokens"),
        None => None,
    };
    CanonicalEvent::Usage {
        input_tokens: count(u.get_u64("prompt_tokens")),
        output_tokens: count(u.get_u64("completion_tokens")),
        total_tokens: count(u.get_u64("total_tokens")),
        cached_input_tokens: count(cached),
        reasoning_tokens: count(reasoning),
    }
}

fn count(v: Option<u64>) -> (r: u32)
    ensures
        r == (match v {
            Some(n) => (n % 0x1_0000_0000) as u32,
            None => 0u32,
        }),
{
    match v {
        Some(n) => low32(n),
        None => 0,
    }
}

fn push_usage(j: &JsonValue, events: &mut Vec<CanonicalEvent>)
    ensures
        crate::text::seq_view(final(events)@) == crate::text::seq_view(old(events)@) + usage_events(
            j@,
        ),
{
    broadcast use crate::text::group_views;

    let ghost before = crate::text::seq_view(events@);
    match j.get("usage") {
        Some(u) => {
            if !u.is_null() {
                let ev = usage_event(u);
                events.push(ev);
                assert(before + seq![ev@] =~= before.push(ev@));
            } else {
                assert(before + Seq::<EventView>::empty() =~= before);
            }
        },
        None => {
            assert(before + Seq::<EventView>::empty() =~= before);
        },
    }
}

fn push_texts(d: &JsonValue, events: &mut Vec<CanonicalEvent>)
    ensures
        crate::text::seq_view(final(events)@) == crate::text::seq_view(old(events)@) + text_events(
            d@,
        ),
{
    broadcast use crate::text::group_views;

    let ghost before = crate::text::seq_view(events@);
    let rc = match d.get("reasoning_content") {
        Some(v) => v.as_str(),
        None => d.get_str("reasoning"),
    };
    match rc {
        Some(t) => {
            if !t.is_empty() {
                events.push(CanonicalEvent::ReasoningDelta { text: t.to_owned() });
            }
        },
        None => {},
    }
    match d.get_str("content") {
        Some(t) => {
            if !t.is_empty() {
                events.push(CanonicalEvent::TextDelta { text: t.to_owned() });
            }
        },
        None => {},
    }
    assert(crate::text::seq_view(events@) =~= before + text_events(d@));
}

fn function_string(tc: &JsonValue, key: &str) -> (r: String)
    ensures
        r@ == function_str(tc@, key@),
{
    match tc.get("function") {
        Some(f) => f.str_or_empty(key),
        None => String::new(),
    }
}

/// Stateful translator: upstream Chat Completions stream chunks to canonical events.
pub struct ChatStreamParser {
    response_id: String,
    model: String,
    created: bool,
    started_tools: Vec<u32>,
}

impl View for ChatStreamParser {
    type V = ParserView;

    closed spec fn view(&self) -> ParserView {
        ParserView {
            response_id: self.response_id@,
            model: self.model@,
            created: self.created,
            started: self.started_tools@,
        }
    }
}

impl ChatStreamParser {
    pub fn new(response_id: String) -> (r: Self)
        ensures
            r@ == (ParserView {
                response_id: response_id@,
                model: Seq::empty(),
                created: false,
                started: Seq::empty(),
            }),
    {
        ChatStreamParser {
            response_id,
            model: String::new(),
            created: false,
            started_tools: Vec::new(),
        }
    }

    fn is_started(&self, index: u32) -> (r: bool)
        ensures
            r == self.started_tools@.contains(index),
    {
        let mut i: usize = 0;
        while i < self.started_tools.len()
            invariant
                i <= self.started_tools@.len(),
                forall|j: int| 0 <= j < i ==> self.started_tools@[j] != index,
            decreases self.started_tools@.len() - i,
        {
            if self.started_tools[i] == index {
                return true;
            }
            i = i + 1;
        }
        false
    }

    fn start_tool(&mut self, index: u32)
        ensures
            final(self).started_tools@ == add_ascending(old(self).started_tools@, index),
            final(self).response_id == old(self).response_id,
            final(self).model == old(self).model,
            final(self).created == old(self).created,
    {
        let ghost s = self.started_tools@;
        let mut i: usize = self.started_tools.len();
        assert(s.take(i as int) =~= s);
        assert(s.skip(i as int) =~= Seq::empty());
        assert(add_ascending(s, index) =~= add_ascending(s.take(i as int), index) + s.skip(
            i as int,
        ));
        while i > 0 && self.started_tools[i - 1] >= index
            invariant
                i <= s.len(),
                self.started_tools@ == s,
                add_ascending(s, index) == add_ascending(s.take(i as int), index) + s.skip(i as int),
            decreases i,
        {
            proof {
                let t = s.take(i as int);
                assert(t.drop_last() =~= s.take(i - 1));
                assert(t.last() == s[i - 1]);
                let a = add_ascending(s.take(i - 1), index);
                assert(a.push(s[i - 1]) + s.skip(i as int) =~= a + s.skip(i - 1));
            }
            i = i - 1;
        }
        self.started_tools.insert(i, index);
        proof {
            let t = s.take(i as int);
            if i > 0 {
                assert(t.last() == s[i - 1]);
            }
            assert(s.insert(i as int, index) =~= t.push(index) + s.skip(i as int));
        }
    }

    fn on_fragment(&mut self, tc: &JsonValue, events: &mut Vec<CanonicalEvent>)
        ensures
            final(self)@ == (ParserView {
                started: started_after(old(self)@.started, tc@),
                ..old(self)@
            }),
            crate::text::seq_view(final(events)@) == crate::text::seq_view(old(events)@)
                + fragment_events(old(self)@.started, tc@),
    {
        broadcast use crate::text::group_views;

        let ghost before = crate::text::seq_view(events@);
        let index = count(tc.get_u64("index"));
        if !self.is_started(index) {
            let call_id = tc.str_or_empty("id");
            let name = function_string(tc, "name");
            self.start_tool(index);
            events.push(CanonicalEvent::ToolCallStart { index, call_id, name });
        }
        let args = function_string(tc, "arguments");
        if !args.as_str().is_empty() {
            events.push(CanonicalEvent::ToolCallArgsDelta { index, delta: args });
        }
        assert(crate::text::seq_view(events@) =~= before + fragment_events(
            old(self)@.started,
            tc@,
        ));
    }

    fn on_fragments(&mut self, v: Option<&JsonValue>, events: &mut Vec<CanonicalEvent>)
        ensures
            final(self)@ == (ParserView {
                started: all_started(
                    old(self)@.started,
                    crate::wire::items_of(crate::text::opt_view(v)),
                ),
                ..old(self)@
            }),
            crate::text::seq_view(final(events)@) == crate::text::seq_view(old(events)@)
                + all_fragment_events(old(self)@.started, crate::wire::items_of(crate::text::opt_view(v))),
    {
        let ghost before = crate::text::seq_view(events@);
        let ghost start = self@;
        assert(before + Seq::<EventView>::empty() =~= before);
        let arr = match v {
            Some(JsonValue::Array(a)) => a,
            _ => {
                return ;
            },
        };
        let ghost items = crate::json::values_view(arr@);
        let mut i: usize = 0;
        assert(items.take(0) =~= Seq::empty());
        while i < arr.len()
            invariant
                i <= arr@.len(),
                items == crate::json::values_view(arr@),
                self@ == (ParserView {
                    started: all_started(start.started, items.take(i as int)),
                    ..start
                }),
                crate::text::seq_view(events@) == before + all_fragment_events(
                    start.started,
                    items.take(i as int),
                ),
            decreases arr@.len() - i,
        {
            let ghost done = items.take(i as int);
            assert(items.take(i as int + 1).drop_last() =~= done);
            assert(items.take(i as int + 1).last() == items[i as int]);
            self.on_fragment(&arr[i], events);
            assert(crate::text::seq_view(events@) =~= before + all_fragment_events(
                start.started,
                items.take(i as int + 1),
            ));
            i = i + 1;
        }
        assert(items.take(i as int) =~= items);
    }

    fn push_done(&self, events: &mut Vec<CanonicalEvent>)
        ensures
            crate::text::seq_view(final(events)@) == crate::text::seq_view(old(events)@)
                + self@.started.map_values(|i: u32| EventView::ToolCallDone { index: i }),
    {
        broadcast use crate::text::group_views;

        let ghost before = crate::text::seq_view(events@);
        let ghost all = self@.started.map_values(|i: u32| EventView::ToolCallDone { index: i });
        let mut i: usize = 0;
        assert(before + all.take(0) =~= before);
        while i < self.started_tools.len()
            invariant
                i <= self.started_tools@.len(),
                all == self@.started.map_values(|i: u32| EventView::ToolCallDone { index: i }),
                crate::text::seq_view(events@) == before + all.take(i as int),
            decreases self.started_tools@.len() - i,
        {
            broadcast use crate::text::group_views;

            events.push(CanonicalEvent::ToolCallDone { index: self.started_tools[i] });
            assert(crate::text::seq_view(events@) =~= before + all.take(i as int + 1));
            i = i + 1;
        }
        assert(all.take(i as int) =~= all);
    }

    pub fn on_chunk(&mut self, chunk: &JsonValue) -> (r: Vec<CanonicalEvent>)
        ensures
            final(self)@ == old(self)@.after(chunk@),
            crate::text::seq_view(r@) == old(self)@.events(chunk@),
    {
        broadcast use crate::text::group_views;

        let mut events: Vec<CanonicalEvent> = Vec::new();
        match chunk.get("error") {
            Some(err) => {
                if !err.is_null() {
                    let message = match err.get_str("message") {
                        Some(m) => m.to_owned(),
                        None => "upstream error".to_owned(),
                    };
                    let status = match err.get_u64("code") {
                        Some(n) => low16(n),
                        None => 502,
                    };
                    events.push(CanonicalEvent::Error { message, status });
                    assert(crate::text::seq_view(events@) =~= self@.events(chunk@));
                    return events;
                }
            },
            None => {},
        }
        let ghost start = self@;
        if !self.created {
            self.model = chunk.str_or_empty("model");
            events.push(
                CanonicalEvent::Created {
                    response_id: self.response_id.clone(),
                    model: self.model.clone(),
                },
            );
            self.created = true;
        }
        let ghost e1 = crate::text::seq_view(events@);
        let choice = match chunk.get_array("choices") {
            Some(a) => if a.len() > 0 {
                Some(&a[0])
            } else {
                None
            },
            None => None,
        };
        assert(crate::text::opt_view(choice) == first_choice(chunk@));
        match choice {
            Some(choice) => {
                match choice.get("delta") {
                    Some(delta) => {
                        push_texts(delta, &mut events);
                        self.on_fragments(delta.get("tool_calls"), &mut events);
                    },
                    None => {},
                }
                if choice.get_str("finish_reason").is_some() {
                    self.push_done(&mut events);
                }
            },
            None => {},
        }
        push_usage(chunk, &mut events);
        assert(crate::text::seq_view(events@) =~= start.events(chunk@));
        events
    }
}

/// The events of one call of a whole message.
pub open spec fn whole_call_events(index: u32, tc: Json) -> Seq<EventView> {
    let args = function_str(tc, "arguments"@);
    seq![
        EventView::ToolCallStart {
            index,
            call_id: tc.str_or_empty("id"@),
            name: function_str(tc, "name"@),
        },
    ] + (if args.len() > 0 {
        seq![EventView::ToolCallArgsDelta { index, delta: args }]
    } else {
        Seq::empty()
    }) + seq![EventView::ToolCallDone { index }]
}

/// The events of the calls of a whole message, numbered from zero.
pub open spec fn whole_calls_events(tcs: Seq<Json>) -> Seq<EventView>
    decreases tcs.len(),
{
    if tcs.len() == 0 {
        Seq::empty()
    } else {
        whole_calls_events(tcs.drop_last()) + whole_call_events(
            ((tcs.len() - 1) % 0x1_0000_0000) as u32,
            tcs.last(),
        )
    }
}

/// The events of a whole (non-streaming) answer.
pub open spec fn completion_events(resp: Json, response_id: Seq<char>) -> Seq<EventView> {
    let message = match first_choice(resp) {
        Some(c) => c.get("message"@),
        None => None,
    };
    seq![EventView::Created { response_id, model: resp.str_or_empty("model"@) }] + (match message {
        Some(m) => text_events(m) + whole_calls_events(crate::wire::items_of(m.get("tool_calls"@))),
        None => Seq::empty(),
    }) + usage_events(resp) + seq![EventView::Completed]
}

fn push_whole_call(index: u32, tc: &JsonValue, events: &mut Vec<CanonicalEvent>)
    ensures
        crate::text::seq_view(final(events)@) == crate::text::seq_view(old(events)@)
            + whole_call_events(index, tc@),
{
    broadcast use crate::text::group_views;

    let ghost before = crate::text::seq_view(events@);
    let call_id = tc.str_or_empty("id");
    let name = function_string(tc, "name");
    let args = function_string(tc, "arguments");
    events.push(CanonicalEvent::ToolCallStart { index, call_id, name });
    if !args.as_str().is_empty() {
        events.push(CanonicalEvent::ToolCallArgsDelta { index, delta: args });
    }
    events.push(CanonicalEvent::ToolCallDone { index });
    assert(crate::text::seq_view(events@) =~= before + whole_call_events(index, tc@));
}

fn push_whole_calls(v: Option<&JsonValue>, events: &mut Vec<CanonicalEvent>)
    ensures
        crate::text::seq_view(final(events)@) == crate::text::seq_view(old(events)@)
            + whole_calls_events(crate::wire::items_of(crate::text::opt_view(v))),
{
    let ghost before = crate::text::seq_view(events@);
    assert(before + Seq::<EventView>::empty() =~= before);
    let arr = match v {
        Some(JsonValue::Array(a)) => a,
        _ => {
            return ;
        },
    };
    let ghost items = crate::json::values_view(arr@);
    let mut i: usize = 0;
    assert(items.take(0) =~= Seq::empty());
    while i < arr.len()
        invariant
            i <= arr@.len(),
            items == crate::json::values_view(arr@),
            crate::text::seq_view(events@) == before + whole_calls_events(items.take(i as int)),
        decreases arr@.len() - i,
    {
        assert(items.take(i as int + 1).drop_last() =~= items.take(i as int));
        assert(items.take(i as int + 1).last() == items[i as int]);
        push_whole_call(low32(i as u64), &arr[i], events);
        assert(crate::text::seq_view(events@) =~= before + whole_calls_events(
            items.take(i as int + 1),
        ));
        i = i + 1;
    }
    assert(items.take(i as int) =~= items);
}

/// Translate a full (non-streaming) Chat Completions response into canonical events.
pub fn completion_to_events(resp: &JsonValue, response_id: &str) -> (r: Vec<CanonicalEvent>)
    ensures
        crate::text::seq_view(r@) == completion_events(resp@, response_id@),
{
    broadcast use crate::text::group_views;

    let mut events: Vec<CanonicalEvent> = Vec::new();
    events.push(
        CanonicalEvent::Created {
            response_id: response_id.to_owned(),
            model: resp.str_or_empty("model"),
        },
    );
    let message = match resp.get_array("choices") {
        Some(a) => if a.len() > 0 {
            a[0].get("message")
        } else {
            None
        },
        None => None,
    };
    match message {
        Some(m) => {
            push_texts(m, &mut events);
            push_whole_calls(m.get("tool_calls"), &mut events);
        },
        None => {},
    }
    push_usage(resp, &mut events);
    events.push(CanonicalEvent::Completed);
    assert(crate::text::seq_view(events@) =~= completion_events(resp@, response_id@));
    events
}

} // verus!
