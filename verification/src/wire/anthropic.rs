//! The Anthropic Messages API wire format.
//!
//! Lets an Anthropic-Messages client drive the bridge: `/v1/messages` requests are
//! parsed into the canonical request, and the canonical event stream is serialized
//! back into Anthropic Messages SSE (`message_start`, `content_block_*`,
//! `message_delta`, `message_stop`).

use vstd::prelude::*;
use vstd::string::*;

use crate::canonical::{
    CanonicalEvent, CanonicalRequest, EventView, Message, MessageView, ReasoningEffort,
    RequestView, ToolCall, ToolCallView, ToolChoice, ToolChoiceView, ToolDef, ToolDefView,
};
use crate::error::{BridgeError, ErrorView};
use crate::json::{Json, JsonValue};
use crate::text::str_eq;
use crate::wire::slots::Slots;
use crate::wire::{
    flag_member, frame, join_texts, number_member, string_member, u32_member, usage_or_zero,
    CanonicalEmitter, FrameView, SseFrame, UsageCounts,
};

verus! {

// ---------------------------------------------------------------------------
// Inbound: Anthropic Messages body -> canonical request
// ---------------------------------------------------------------------------

/// The texts of the system blocks, on lines of their own.
pub open spec fn system_lines(blocks: Seq<Json>) -> Seq<char>
    decreases blocks.len(),
{
    if blocks.len() == 0 {
        Seq::empty()
    } else {
        let before = system_lines(blocks.drop_last());
        match blocks.last().get_str("text"@) {
            Some(t) => if before.len() > 0 {
                before + "\n"@ + t
            } else {
                t
            },
            None => before,
        }
    }
}

/// The system prompt that a `system` member gives.
pub open spec fn parsed_system(v: Option<Json>) -> Option<Seq<char>> {
    match v {
        Some(Json::Str(s)) => Some(s),
        Some(Json::Arr(blocks)) => if system_lines(blocks).len() > 0 {
            Some(system_lines(blocks))
        } else {
            None
        },
        _ => None,
    }
}

/// The text of a content value: a string, the texts of its blocks, or else its JSON text.
pub open spec fn block_text_of(content: Option<Json>) -> Seq<char> {
    match content {
        Some(Json::Str(s)) => s,
        Some(Json::Arr(blocks)) => crate::wire::joined_texts(blocks),
        Some(other) => crate::json::json_text(other),
        None => Seq::empty(),
    }
}

pub open spec fn has_type(b: Json, kind: Seq<char>) -> bool {
    b.get_str("type"@) == Some(kind)
}

/// The tool result that a user's block reports.
pub open spec fn parsed_result(b: Json) -> Option<MessageView> {
    if has_type(b, "tool_result"@) {
        Some(
            MessageView::Tool {
                call_id: b.str_or_empty("tool_use_id"@),
                output: block_text_of(b.get("content"@)),
            },
        )
    } else {
        None
    }
}

/// What the text blocks among a user's blocks say.
pub open spec fn user_text(blocks: Seq<Json>) -> Seq<char>
    decreases blocks.len(),
{
    if blocks.len() == 0 {
        Seq::empty()
    } else if has_type(blocks.last(), "text"@) {
        user_text(blocks.drop_last()) + blocks.last().str_or_empty("text"@)
    } else {
        user_text(blocks.drop_last())
    }
}

/// What the text blocks among an assistant's blocks say, if there are any.
pub open spec fn assistant_text(blocks: Seq<Json>) -> Option<Seq<char>>
    decreases blocks.len(),
{
    if blocks.len() == 0 {
        None
    } else if has_type(blocks.last(), "text"@) {
        let t = blocks.last().str_or_empty("text"@);
        match assistant_text(blocks.drop_last()) {
            Some(before) => Some(before + t),
            None => Some(t),
        }
    } else {
        assistant_text(blocks.drop_last())
    }
}

/// The last thinking block among an assistant's blocks that says something.
pub open spec fn assistant_thinking(blocks: Seq<Json>) -> Option<Seq<char>>
    decreases blocks.len(),
{
    if blocks.len() == 0 {
        None
    } else if has_type(blocks.last(), "thinking"@) && blocks.last().str_or_empty(
        "thinking"@,
    ).len() > 0 {
        Some(blocks.last().str_or_empty("thinking"@))
    } else {
        assistant_thinking(blocks.drop_last())
    }
}

/// The tool call that an assistant's block makes.
pub open spec fn parsed_use(b: Json) -> Option<ToolCallView> {
    if has_type(b, "tool_use"@) {
        Some(
            ToolCallView {
                call_id: b.str_or_empty("id"@),
                name: b.str_or_empty("name"@),
                arguments: match b.get("input"@) {
                    Some(v) => crate::json::json_text(v),
                    None => "{}"@,
                },
            },
        )
    } else {
        None
    }
}

/// An assistant turn. One that holds only reasoning gets an empty text, since an
/// upstream wants a text or a call.
pub open spec fn assistant_turn(
    text: Option<Seq<char>>,
    reasoning_content: Option<Seq<char>>,
    tool_calls: Seq<ToolCallView>,
) -> MessageView {
    MessageView::Assistant {
        text: if text is None && tool_calls.len() == 0 && reasoning_content is Some {
            Some(Seq::empty())
        } else {
            text
        },
        reasoning_content,
        tool_calls,
    }
}

/// The turns that a message stands for: the tool results in a user's message, and
/// then what the user says; or the assistant's turn. Other roles are passed over.
pub open spec fn parsed_turns(role: Seq<char>, content: Option<Json>) -> Seq<MessageView> {
    if role == "user"@ {
        match content {
            Some(Json::Str(s)) => seq![MessageView::User(s)],
            Some(Json::Arr(blocks)) => blocks.filter_map(|b: Json| parsed_result(b)) + (
            if user_text(blocks).len() > 0 {
                seq![MessageView::User(user_text(blocks))]
            } else {
                Seq::empty()
            }),
            _ => Seq::empty(),
        }
    } else if role == "assistant"@ {
        match content {
            Some(Json::Str(s)) => seq![assistant_turn(Some(s), None, Seq::empty())],
            Some(Json::Arr(blocks)) => seq![
                assistant_turn(
                    assistant_text(blocks),
                    assistant_thinking(blocks),
                    blocks.filter_map(|b: Json| parsed_use(b)),
                ),
            ],
            _ => seq![assistant_turn(None, None, Seq::empty())],
        }
    } else {
        Seq::empty()
    }
}

/// The turns of a list of messages.
pub open spec fn all_turns(msgs: Seq<Json>) -> Seq<MessageView>
    decreases msgs.len(),
{
    if msgs.len() == 0 {
        Seq::empty()
    } else {
        all_turns(msgs.drop_last()) + parsed_turns(
            crate::wire::chat::role_of(msgs.last()),
            msgs.last().get("content"@),
        )
    }
}

/// The tool that an entry of `tools` defines, if it has a name.
pub open spec fn parsed_tool(t: Json) -> Option<ToolDefView> {
    match t.get_str("name"@) {
        Some(name) => Some(
            ToolDefView {
                name,
                description: t.get_str("description"@),
                parameters: match t.get("input_schema"@) {
                    Some(p) => p,
                    None => Json::Null,
                },
            },
        ),
        None => None,
    }
}

/// The tool choice that a `tool_choice` member expresses.
pub open spec fn parsed_choice(v: Option<Json>) -> ToolChoiceView {
    match v {
        None => ToolChoiceView::Auto,
        Some(j) => if has_type(j, "any"@) {
            ToolChoiceView::Required
        } else if has_type(j, "none"@) {
            ToolChoiceView::Never
        } else if has_type(j, "tool"@) {
            match j.get_str("name"@) {
                Some(name) => ToolChoiceView::Function(name),
                None => ToolChoiceView::Auto,
            }
        } else {
            ToolChoiceView::Auto
        },
    }
}

/// A body that enables thinking asks for high effort.
pub open spec fn parsed_effort(body: Json) -> Option<ReasoningEffort> {
    match body.get("thinking"@) {
        Some(t) => if has_type(t, "enabled"@) {
            Some(ReasoningEffort::High)
        } else {
            None
        },
        None => None,
    }
}

/// The request that a Messages body makes.
pub open spec fn parsed_request(body: Json) -> Result<RequestView, ErrorView> {
    if !(body is Obj) {
        Err(ErrorView::BadRequest("body must be a JSON object"@))
    } else {
        match body.get_str("model"@) {
            None => Err(ErrorView::BadRequest("missing `model`"@)),
            Some(model) => Ok(
                RequestView {
                    model,
                    system: parsed_system(body.get("system"@)),
                    messages: all_turns(crate::wire::items_of(body.get("messages"@))),
                    tools: crate::wire::items_of(body.get("tools"@)).filter_map(
                        |t: Json| parsed_tool(t),
                    ),
                    tool_choice: parsed_choice(body.get("tool_choice"@)),
                    temperature: crate::wire::number_under(body, "temperature"@),
                    top_p: crate::wire::number_under(body, "top_p"@),
                    max_output_tokens: crate::wire::u32_under(body, "max_tokens"@),
                    reasoning_effort: parsed_effort(body),
                    parallel_tool_calls: None,
                    stream: crate::wire::flag_under(body, "stream"@),
                },
            ),
        }
    }
}

fn is_type(b: &JsonValue, kind: &str) -> (r: bool)
    ensures
        r == has_type(b@, kind@),
{
    match b.get_str("type") {
        Some(k) => str_eq(k, kind),
        None => false,
    }
}

pub fn parse_system(v: Option<&JsonValue>) -> (r: Option<String>)
    ensures
        crate::text::opt_view(r) == parsed_system(crate::text::opt_view(v)),
{
    match v {
        Some(JsonValue::String(s)) => Some(s.clone()),
        Some(JsonValue::Array(arr)) => {
            let ghost view = crate::json::values_view(arr@);
            let mut out = String::new();
            let mut i: usize = 0;
            assert(view.take(0) =~= Seq::empty());
            while i < arr.len()
                invariant
                    i <= arr@.len(),
                    view == crate::json::values_view(arr@),
                    out@ == system_lines(view.take(i as int)),
                decreases arr@.len() - i,
            {
                assert(view.take(i as int + 1).drop_last() =~= view.take(i as int));
                assert(view.take(i as int + 1).last() == view[i as int]);
                match arr[i].get_str("text") {
                    Some(t) => {
                        if !out.as_str().is_empty() {
                            out.append("\n");
                        } else {
                            assert(out@ + t@ =~= t@);
                        }
                        out.append(t);
                    },
                    None => {},
                }
                i = i + 1;
            }
            assert(view.take(i as int) =~= view);
            if out.as_str().is_empty() {
                None
            } else {
                Some(out)
            }
        },
        _ => None,
    }
}

/// Extract text from a tool result's content (string, or array of blocks).
pub fn block_text(content: Option<&JsonValue>) -> (r: String)
    ensures
        r@ == block_text_of(crate::text::opt_view(content)),
{
    match content {
        Some(JsonValue::String(s)) => s.clone(),
        Some(JsonValue::Array(blocks)) => join_texts(blocks),
        Some(other) => other.to_text(),
        None => String::new(),
    }
}

fn parse_user_blocks(blocks: &Vec<JsonValue>, messages: &mut Vec<Message>)
    ensures
        crate::text::seq_view(final(messages)@) == crate::text::seq_view(old(messages)@)
            + parsed_turns("user"@, Some(Json::Arr(crate::json::values_view(blocks@)))),
{
    broadcast use crate::text::group_views;

    let ghost before = crate::text::seq_view(messages@);
    let ghost view = crate::json::values_view(blocks@);
    let ghost f = |b: Json| parsed_result(b);
    let mut text = String::new();
    let mut i: usize = 0;
    assert(view.take(0) =~= Seq::empty());
    assert(before + Seq::<MessageView>::empty() =~= before);
    while i < blocks.len()
        invariant
            i <= blocks@.len(),
            view == crate::json::values_view(blocks@),
            f == (|b: Json| parsed_result(b)),
            text@ == user_text(view.take(i as int)),
            crate::text::seq_view(messages@) == before + view.take(i as int).filter_map(f),
        decreases blocks@.len() - i,
    {
        broadcast use crate::text::group_views;

        let ghost done = view.take(i as int).filter_map(f);
        proof {
            view.lemma_filter_map_take_succ(f, i as int);
            assert(view.take(i as int + 1).drop_last() =~= view.take(i as int));
            assert(view.take(i as int + 1).last() == view[i as int]);
            reveal_strlit("text");
            reveal_strlit("tool_result");
            assert("text"@.len() == 4);
            assert("tool_result"@.len() == 11);
        }
        let b = &blocks[i];
        if is_type(b, "text") {
            let t = b.str_or_empty("text");
            text.append(t.as_str());
            assert(done + Seq::<MessageView>::empty() =~= done);
        } else if is_type(b, "tool_result") {
            let m = Message::Tool {
                call_id: b.str_or_empty("tool_use_id"),
                output: block_text(b.get("content")),
            };
            messages.push(m);
            assert((before + done).push(m@) =~= before + (done + seq![m@]));
        } else {
            assert(done + Seq::<MessageView>::empty() =~= done);
        }
        i = i + 1;
    }
    assert(view.take(i as int) =~= view);
    let ghost results = view.filter_map(f);
    if !text.as_str().is_empty() {
        messages.push(Message::User(text));
        assert((before + results).push(MessageView::User(text@)) =~= before + (results + seq![
            MessageView::User(text@),
        ]));
    } else {
        assert(results + Seq::<MessageView>::empty() =~= results);
    }
}

fn parse_use(b: &JsonValue) -> (r: ToolCall)
    requires
        has_type(b@, "tool_use"@),
    ensures
        parsed_use(b@) == Some(r@),
{
    let arguments = match b.get("input") {
        Some(v) => v.to_text(),
        None => "{}".to_owned(),
    };
    ToolCall { call_id: b.str_or_empty("id"), name: b.str_or_empty("name"), arguments }
}

fn finish_assistant(
    text: Option<String>,
    reasoning_content: Option<String>,
    tool_calls: Vec<ToolCall>,
) -> (r: Message)
    ensures
        r@ == assistant_turn(
            crate::text::opt_view(text),
            crate::text::opt_view(reasoning_content),
            crate::text::seq_view(tool_calls@),
        ),
{
    let text = if text.is_none() && tool_calls.len() == 0 && reasoning_content.is_some() {
        Some(String::new())
    } else {
        text
    };
    Message::Assistant { text, reasoning_content, tool_calls }
}

fn parse_assistant_blocks(blocks: &Vec<JsonValue>) -> (r: Message)
    ensures
        seq![r@] == parsed_turns("assistant"@, Some(Json::Arr(crate::json::values_view(blocks@)))),
{
    broadcast use crate::text::group_views;

    let ghost view = crate::json::values_view(blocks@);
    let ghost f = |b: Json| parsed_use(b);
    let mut text: Option<String> = None;
    let mut reasoning_content: Option<String> = None;
    let mut tool_calls: Vec<ToolCall> = Vec::new();
    let mut i: usize = 0;
    proof {
        assert(view.take(0) =~= Seq::empty());
        reveal_strlit("user");
        reveal_strlit("assistant");
        assert("user"@.len() == 4);
        assert("assistant"@.len() == 9);
    }
    while i < blocks.len()
        invariant
            i <= blocks@.len(),
            view == crate::json::values_view(blocks@),
            f == (|b: Json| parsed_use(b)),
            crate::text::opt_view(text) == assistant_text(view.take(i as int)),
            crate::text::opt_view(reasoning_content) == assistant_thinking(view.take(i as int)),
            crate::text::seq_view(tool_calls@) == view.take(i as int).filter_map(f),
        decreases blocks@.len() - i,
    {
        broadcast use crate::text::group_views;

        let ghost done = view.take(i as int).filter_map(f);
        proof {
            view.lemma_filter_map_take_succ(f, i as int);
            assert(view.take(i as int + 1).drop_last() =~= view.take(i as int));
            assert(view.take(i as int + 1).last() == view[i as int]);
            reveal_strlit("text");
            reveal_strlit("thinking");
            reveal_strlit("tool_use");
            assert("text"@.len() == 4);
            assert("thinking"@[1] == 'h');
            assert("tool_use"@[1] == 'o');
            assert("thinking"@.len() == 8);
            assert("tool_use"@.len() == 8);
            assert(done + Seq::<ToolCallView>::empty() =~= done);
        }
        let b = &blocks[i];
        if is_type(b, "text") {
            let t = b.str_or_empty("text");
            text = match text {
                Some(s) => {
                    let mut s = s;
                    s.append(t.as_str());
                    Some(s)
                },
                None => Some(t),
            };
        } else if is_type(b, "thinking") {
            let t = b.str_or_empty("thinking");
            if !t.as_str().is_empty() {
                reasoning_content = Some(t);
            }
        } else if is_type(b, "tool_use") {
            let c = parse_use(b);
            tool_calls.push(c);
            assert(done.push(c@) =~= done + seq![c@]);
        }
        i = i + 1;
    }
    assert(view.take(i as int) =~= view);
    finish_assistant(text, reasoning_content, tool_calls)
}

/// Adds the turns that a message stands for.
pub fn parse_message(role: &str, content: Option<&JsonValue>, messages: &mut Vec<Message>)
    ensures
        crate::text::seq_view(final(messages)@) == crate::text::seq_view(old(messages)@)
            + parsed_turns(role@, crate::text::opt_view(content)),
{
    broadcast use crate::text::group_views;

    let ghost before = crate::text::seq_view(messages@);
    proof {
        reveal_strlit("user");
        reveal_strlit("assistant");
        assert("user"@.len() == 4);
        assert("assistant"@.len() == 9);
        assert(before + Seq::<MessageView>::empty() =~= before);
    }
    if str_eq(role, "user") {
        match content {
            Some(JsonValue::String(s)) => {
                messages.push(Message::User(s.clone()));
                assert(before.push(MessageView::User(s@)) =~= before + seq![MessageView::User(s@)]);
            },
            Some(JsonValue::Array(blocks)) => {
                parse_user_blocks(blocks, messages);
            },
            _ => {},
        }
    } else if str_eq(role, "assistant") {
        let m = match content {
            Some(JsonValue::String(s)) => finish_assistant(Some(s.clone()), None, Vec::new()),
            Some(JsonValue::Array(blocks)) => parse_assistant_blocks(blocks),
            _ => finish_assistant(None, None, Vec::new()),
        };
        messages.push(m);
        assert(before.push(m@) =~= before + seq![m@]);
    }
}

fn parse_messages(v: Option<&JsonValue>) -> (r: Vec<Message>)
    ensures
        crate::text::seq_view(r@) == all_turns(crate::wire::items_of(crate::text::opt_view(v))),
{
    broadcast use crate::text::group_views;

    let mut out: Vec<Message> = Vec::new();
    let arr = match v {
        Some(JsonValue::Array(a)) => a,
        _ => {
            return out;
        },
    };
    let ghost view = crate::json::values_view(arr@);
    let mut i: usize = 0;
    assert(view.take(0) =~= Seq::empty());
    while i < arr.len()
        invariant
            i <= arr@.len(),
            view == crate::json::values_view(arr@),
            crate::text::seq_view(out@) == all_turns(view.take(i as int)),
        decreases arr@.len() - i,
    {
        assert(view.take(i as int + 1).drop_last() =~= view.take(i as int));
        assert(view.take(i as int + 1).last() == view[i as int]);
        let m = &arr[i];
        let role = match m.get_str("role") {
            Some(r) => r,
            None => "user",
        };
        parse_message(role, m.get("content"), &mut out);
        i = i + 1;
    }
    assert(view.take(i as int) =~= view);
    out
}

fn parse_tool(t: &JsonValue) -> (r: Option<ToolDef>)
    ensures
        crate::text::opt_view(r) == parsed_tool(t@),
{
    match t.get_str("name") {
        Some(name) => {
            let parameters = match t.get("input_schema") {
                Some(p) => p.copy(),
                None => JsonValue::Null,
            };
            Some(
                ToolDef {
                    name: name.to_owned(),
                    description: string_member(t, "description"),
                    parameters,
                },
            )
        },
        None => None,
    }
}

pub fn parse_tools(v: Option<&JsonValue>) -> (r: Vec<ToolDef>)
    ensures
        crate::text::seq_view(r@) == crate::wire::items_of(crate::text::opt_view(v)).filter_map(
            |t: Json| parsed_tool(t),
        ),
{
    broadcast use crate::text::group_views;

    let mut out: Vec<ToolDef> = Vec::new();
    let arr = match v {
        Some(JsonValue::Array(a)) => a,
        _ => {
            return out;
        },
    };
    let ghost items = crate::json::values_view(arr@);
    let ghost f = |t: Json| parsed_tool(t);
    let mut i: usize = 0;
    assert(items.take(0) =~= Seq::empty());
    while i < arr.len()
        invariant
            i <= arr@.len(),
            items == crate::json::values_view(arr@),
            f == (|t: Json| parsed_tool(t)),
            crate::text::seq_view(out@) == items.take(i as int).filter_map(f),
        decreases arr@.len() - i,
    {
        broadcast use crate::text::group_views;

        proof {
            items.lemma_filter_map_take_succ(f, i as int);
        }
        match parse_tool(&arr[i]) {
            Some(t) => {
                out.push(t);
            },
            None => {},
        }
        i = i + 1;
    }
    assert(items.take(i as int) =~= items);
    out
}

pub fn parse_tool_choice(v: Option<&JsonValue>) -> (r: ToolChoice)
    ensures
        r@ == parsed_choice(crate::text::opt_view(v)),
{
    match v {
        None => ToolChoice::Auto,
        Some(j) => {
            if is_type(j, "any") {
                ToolChoice::Required
            } else if is_type(j, "none") {
                ToolChoice::Never
            } else if is_type(j, "tool") {
                match j.get_str("name") {
                    Some(name) => ToolChoice::Function(name.to_owned()),
                    None => ToolChoice::Auto,
                }
            } else {
                ToolChoice::Auto
            }
        },
    }
}

/// Parse an Anthropic Messages request body into the canonical request.
pub fn parse_request(body: &JsonValue) -> (r: Result<CanonicalRequest, BridgeError>)
    ensures
        crate::text::res_view(r) == parsed_request(body@),
{
    if body.as_object().is_none() {
        return Err(BridgeError::bad_request("body must be a JSON object"));
    }
    let model = match body.get_str("model") {
        Some(m) => m.to_owned(),
        None => {
            return Err(BridgeError::bad_request("missing `model`"));
        },
    };
    let reasoning_effort = match body.get("thinking") {
        Some(t) => if is_type(t, "enabled") {
            Some(ReasoningEffort::High)
        } else {
            None
        },
        None => None,
    };
    Ok(
        CanonicalRequest {
            model,
            system: parse_system(body.get("system")),
            messages: parse_messages(body.get("messages")),
            tools: parse_tools(body.get("tools")),
            tool_choice: parse_tool_choice(body.get("tool_choice")),
            temperature: number_member(body, "temperature"),
            top_p: number_member(body, "top_p"),
            max_output_tokens: u32_member(body, "max_tokens"),
            reasoning_effort,
            parallel_tool_calls: None,
            stream: flag_member(body, "stream"),
        },
    )
}

// ---------------------------------------------------------------------------
// Outbound: canonical events -> Anthropic Messages SSE
// ---------------------------------------------------------------------------

/// Chat Completions upstreams do not sign thinking blocks, but a non-empty signature
/// keeps clients from discarding the block on the next turn, which is what carries the
/// reasoning back to the model. This is an opaque placeholder.
pub open spec fn thinking_signature() -> Seq<char> {
    "bridge-unsigned"@
}

/// A tool-use block that is being written.
pub struct ToolBlockView {
    pub index: nat,
    pub id: Seq<char>,
    pub name: Seq<char>,
    pub args: Seq<char>,
}

/// The state of an `AnthropicEmitter`.
pub struct AnthropicView {
    pub message_id: Seq<char>,
    pub model: Seq<char>,
    pub started: bool,
    pub next_index: nat,
    pub thinking_index: Option<nat>,
    pub thinking_text: Seq<char>,
    pub text_index: Option<nat>,
    pub text_text: Seq<char>,
    /// The open tool-use blocks, by the index their fragments carry.
    pub tools: Seq<(u32, ToolBlockView)>,
    pub any_tool: bool,
    pub usage: Option<UsageCounts>,
    /// The blocks that are done.
    pub final_blocks: Seq<Json>,
}

/// A state of the emitter with the frames given on the way to it.
pub struct AnthropicStep {
    pub state: AnthropicView,
    pub frames: Seq<FrameView>,
}

/// The start of a document: its type.
pub open spec fn typed(name: Seq<char>) -> Json {
    Json::obj().with("type"@, Json::Str(name))
}

/// The frame that opens the content block `index`.
pub open spec fn start_frame(index: nat, block: Json) -> FrameView {
    FrameView {
        event: "content_block_start"@,
        data: typed("content_block_start"@).with("index"@, Json::num(index as u64)).with(
            "content_block"@,
            block,
        ),
    }
}

/// A frame with a piece of the content block `index`.
pub open spec fn delta_frame(index: nat, delta: Json) -> FrameView {
    FrameView {
        event: "content_block_delta"@,
        data: typed("content_block_delta"@).with("index"@, Json::num(index as u64)).with(
            "delta"@,
            delta,
        ),
    }
}

/// The frame that closes the content block `index`.
pub open spec fn stop_frame(index: nat) -> FrameView {
    FrameView {
        event: "content_block_stop"@,
        data: typed("content_block_stop"@).with("index"@, Json::num(index as u64)),
    }
}

/// The input of a tool-use block: the arguments read as JSON, or an empty object where
/// they are none.
pub open spec fn tool_input(args: Seq<char>) -> Json {
    match crate::json::json_parse(args) {
        Some(j) => j,
        None => Json::obj(),
    }
}

impl AnthropicView {
    /// The state before any event.
    pub open spec fn initial() -> AnthropicView {
        AnthropicView {
            message_id: Seq::empty(),
            model: Seq::empty(),
            started: false,
            next_index: 0,
            thinking_index: None,
            thinking_text: Seq::empty(),
            text_index: None,
            text_text: Seq::empty(),
            tools: Seq::empty(),
            any_tool: false,
            usage: None,
            final_blocks: Seq::empty(),
        }
    }

    /// Why the answer stopped.
    pub open spec fn stop_reason(self) -> Seq<char> {
        if self.any_tool {
            "tool_use"@
        } else {
            "end_turn"@
        }
    }

    /// The usage in Anthropic terms: the input counts what was not read from the cache.
    pub open spec fn usage_json(self) -> Json {
        let u = crate::wire::counts_or_zero(self.usage);
        Json::obj().with(
            "input_tokens"@,
            Json::num(
                if u.input >= u.cached {
                    (u.input - u.cached) as u64
                } else {
                    0
                },
            ),
        ).with("output_tokens"@, Json::num(u.output as u64)).with(
            "cache_read_input_tokens"@,
            Json::num(u.cached as u64),
        )
    }

    /// The message object, with the given content, stop reason and usage.
    pub open spec fn message_json(self, content: Seq<Json>, stop_reason: Json, usage: Json) -> Json {
        Json::obj().with("id"@, Json::Str(self.message_id)).with("type"@, Json::Str("message"@)).with(
            "role"@,
            Json::Str("assistant"@),
        ).with("model"@, Json::Str(self.model)).with("content"@, Json::Arr(content)).with(
            "stop_reason"@,
            stop_reason,
        ).with("stop_sequence"@, Json::Null).with("usage"@, usage)
    }

    /// The whole (non-streaming) message object.
    pub open spec fn final_message(self) -> Json {
        self.message_json(self.final_blocks, Json::Str(self.stop_reason()), self.usage_json())
    }

    /// Whether the counter of blocks leaves room for one more event.
    pub open spec fn room(self) -> bool {
        self.next_index < u32::MAX
    }
}

impl AnthropicStep {
    pub open spec fn push(self, f: FrameView) -> AnthropicStep {
        AnthropicStep { frames: self.frames.push(f), ..self }
    }

    /// Starts the message, unless it is started.
    pub open spec fn start(self) -> AnthropicStep {
        let s = self.state;
        if s.started {
            self
        } else {
            AnthropicStep { state: AnthropicView { started: true, ..s }, ..self }.push(
                FrameView {
                    event: "message_start"@,
                    data: typed("message_start"@).with(
                        "message"@,
                        s.message_json(
                            Seq::empty(),
                            Json::Null,
                            Json::obj().with("input_tokens"@, Json::num(0)).with(
                                "output_tokens"@,
                                Json::num(0),
                            ),
                        ),
                    ),
                },
            )
        }
    }

    /// Opens a thinking block, unless one is open.
    pub open spec fn open_thinking(self) -> AnthropicStep {
        let s = self.state;
        if s.thinking_index is Some {
            self
        } else {
            AnthropicStep {
                state: AnthropicView {
                    next_index: s.next_index + 1,
                    thinking_index: Some(s.next_index),
                    ..s
                },
                ..self
            }.push(
                start_frame(
                    s.next_index,
                    typed("thinking"@).with("thinking"@, Json::Str(Seq::empty())),
                ),
            )
        }
    }

    /// Closes the thinking block, if one is open, with the placeholder signature.
    pub open spec fn close_thinking(self) -> AnthropicStep {
        let s = self.state;
        match s.thinking_index {
            None => self,
            Some(index) => AnthropicStep {
                state: AnthropicView {
                    thinking_index: None,
                    final_blocks: s.final_blocks.push(
                        typed("thinking"@).with("thinking"@, Json::Str(s.thinking_text)).with(
                            "signature"@,
                            Json::Str(thinking_signature()),
                        ),
                    ),
                    ..s
                },
                ..self
            }.push(
                delta_frame(
                    index,
                    typed("signature_delta"@).with(
                        "signature"@,
                        Json::Str(thinking_signature()),
                    ),
                ),
            ).push(stop_frame(index)),
        }
    }

    /// Opens a text block, unless one is open.
    pub open spec fn open_text(self) -> AnthropicStep {
        let s = self.state;
        if s.text_index is Some {
            self
        } else {
            AnthropicStep {
                state: AnthropicView {
                    next_index: s.next_index + 1,
                    text_index: Some(s.next_index),
                    ..s
                },
                ..self
            }.push(
                start_frame(s.next_index, typed("text"@).with("text"@, Json::Str(Seq::empty()))),
            )
        }
    }

    /// Closes the text block, if one is open.
    pub open spec fn close_text(self) -> AnthropicStep {
        let s = self.state;
        match s.text_index {
            None => self,
            Some(index) => AnthropicStep {
                state: AnthropicView {
                    text_index: None,
                    final_blocks: s.final_blocks.push(
                        typed("text"@).with("text"@, Json::Str(s.text_text)),
                    ),
                    ..s
                },
                ..self
            }.push(stop_frame(index)),
        }
    }

    /// Closes the tool-use block `t`.
    pub open spec fn finish_tool(self, t: ToolBlockView) -> AnthropicStep {
        let s = self.state;
        AnthropicStep {
            state: AnthropicView {
                final_blocks: s.final_blocks.push(
                    typed("tool_use"@).with("id"@, Json::Str(t.id)).with(
                        "name"@,
                        Json::Str(t.name),
                    ).with("input"@, tool_input(t.args)),
                ),
                ..s
            },
            ..self
        }.push(stop_frame(t.index))
    }

    /// Closes tool-use blocks, one after the other.
    pub open spec fn finish_tools(self, ts: Seq<(u32, ToolBlockView)>) -> AnthropicStep
        decreases ts.len(),
    {
        if ts.len() == 0 {
            self
        } else {
            self.finish_tools(ts.drop_last()).finish_tool(ts.last().1)
        }
    }

    /// Closes all open tool-use blocks, in the order of their indices.
    pub open spec fn close_open_tools(self) -> AnthropicStep {
        AnthropicStep {
            state: AnthropicView { tools: Seq::empty(), ..self.state },
            ..self
        }.finish_tools(self.state.tools)
    }

    /// The step on an event.
    pub open spec fn on(self, ev: EventView) -> AnthropicStep {
        match ev {
            EventView::Created { response_id, model } => AnthropicStep {
                state: AnthropicView { message_id: response_id, model, ..self.state },
                ..self
            }.start(),
            EventView::ReasoningDelta { text } => {
                let o = self.start().open_thinking();
                AnthropicStep {
                    state: AnthropicView {
                        thinking_text: o.state.thinking_text + text,
                        ..o.state
                    },
                    ..o
                }.push(
                    delta_frame(
                        o.state.thinking_index->0,
                        typed("thinking_delta"@).with("thinking"@, Json::Str(text)),
                    ),
                )
            },
            EventView::TextDelta { text } => {
                let o = self.start().close_thinking().open_text();
                AnthropicStep {
                    state: AnthropicView { text_text: o.state.text_text + text, ..o.state },
                    ..o
                }.push(
                    delta_frame(
                        o.state.text_index->0,
                        typed("text_delta"@).with("text"@, Json::Str(text)),
                    ),
                )
            },
            EventView::ToolCallStart { index, call_id, name } => {
                let c = self.start().close_thinking().close_text();
                let n = c.state.next_index;
                AnthropicStep {
                    state: AnthropicView {
                        next_index: n + 1,
                        any_tool: true,
                        tools: crate::wire::slots::slot_set(
                            c.state.tools,
                            index,
                            ToolBlockView { index: n, id: call_id, name, args: Seq::empty() },
                        ),
                        ..c.state
                    },
                    ..c
                }.push(
                    start_frame(
                        n,
                        typed("tool_use"@).with("id"@, Json::Str(call_id)).with(
                            "name"@,
                            Json::Str(name),
                        ).with("input"@, Json::obj()),
                    ),
                )
            },
            EventView::ToolCallArgsDelta { index, delta } => match crate::wire::slots::slot_get(
                self.state.tools,
                index,
            ) {
                None => self,
                Some(t) => AnthropicStep {
                    state: AnthropicView {
                        tools: crate::wire::slots::slot_set(
                            self.state.tools,
                            index,
                            ToolBlockView { args: t.args + delta, ..t },
                        ),
                        ..self.state
                    },
                    ..self
                }.push(
                    delta_frame(
                        t.index,
                        typed("input_json_delta"@).with("partial_json"@, Json::Str(delta)),
                    ),
                ),
            },
            EventView::ToolCallDone { index } => match crate::wire::slots::slot_get(
                self.state.tools,
                index,
            ) {
                None => self,
                Some(t) => AnthropicStep {
                    state: AnthropicView {
                        tools: crate::wire::slots::slot_remove(self.state.tools, index),
                        ..self.state
                    },
                    ..self
                }.finish_tool(t),
            },
            EventView::Usage {
                input_tokens,
                output_tokens,
                total_tokens,
                cached_input_tokens,
                reasoning_tokens,
            } => AnthropicStep {
                state: AnthropicView {
                    usage: Some(
                        UsageCounts {
                            input: input_tokens,
                            output: output_tokens,
                            total: total_tokens,
                            cached: cached_input_tokens,
                            reasoning: reasoning_tokens,
                        },
                    ),
                    ..self.state
                },
                ..self
            },
            EventView::Completed => {
                let c = self.close_thinking().close_text().close_open_tools();
                c.push(
                    FrameView {
                        event: "message_delta"@,
                        data: typed("message_delta"@).with(
                            "delta"@,
                            Json::obj().with(
                                "stop_reason"@,
                                Json::Str(c.state.stop_reason()),
                            ).with("stop_sequence"@, Json::Null),
                        ).with("usage"@, c.state.usage_json()),
                    },
                ).push(
                    FrameView { event: "message_stop"@, data: typed("message_stop"@) },
                )
            },
            EventView::Error { message, status } => self.push(
                FrameView {
                    event: "error"@,
                    data: typed("error"@).with(
                        "error"@,
                        typed("api_error"@).with("message"@, Json::Str(message)).with(
                            "code"@,
                            Json::num(status as u64),
                        ),
                    ),
                },
            ),
        }
    }
}

impl AnthropicView {
    /// The state after an event, and the frames it gives.
    pub open spec fn step(self, ev: EventView) -> AnthropicStep {
        AnthropicStep { state: self, frames: Seq::empty() }.on(ev)
    }
}

struct ToolBlock {
    index: u32,
    id: String,
    name: String,
    args: String,
}

impl View for ToolBlock {
    type V = ToolBlockView;

    closed spec fn view(&self) -> ToolBlockView {
        ToolBlockView {
            index: self.index as nat,
            id: self.id@,
            name: self.name@,
            args: self.args@,
        }
    }
}

/// Stateful translator: canonical events to Anthropic Messages SSE frames.
pub struct AnthropicEmitter {
    message_id: String,
    model: String,
    started: bool,
    next_index: u32,
    thinking_index: Option<u32>,
    thinking_text: String,
    text_index: Option<u32>,
    text_text: String,
    tools: Slots<ToolBlock>,
    any_tool: bool,
    usage: Option<UsageCounts>,
    final_blocks: Vec<JsonValue>,
}

/// A block index as a number.
spec fn index_view(i: Option<u32>) -> Option<nat> {
    match i {
        Some(i) => Some(i as nat),
        None => None,
    }
}

impl View for AnthropicEmitter {
    type V = AnthropicView;

    closed spec fn view(&self) -> AnthropicView {
        AnthropicView {
            message_id: self.message_id@,
            model: self.model@,
            started: self.started,
            next_index: self.next_index as nat,
            thinking_index: index_view(self.thinking_index),
            thinking_text: self.thinking_text@,
            text_index: index_view(self.text_index),
            text_text: self.text_text@,
            tools: self.tools@,
            any_tool: self.any_tool,
            usage: self.usage,
            final_blocks: crate::json::values_view(self.final_blocks@),
        }
    }
}

fn typed_json(name: &str) -> (r: JsonValue)
    ensures
        r@ == typed(name@),
{
    JsonValue::obj().with("type", JsonValue::str(name))
}

fn block_start(index: u32, block: JsonValue) -> (r: SseFrame)
    ensures
        r@ == start_frame(index as nat, block@),
{
    let data = typed_json("content_block_start").with("index", JsonValue::num(index as u64)).with(
        "content_block",
        block,
    );
    frame("content_block_start", data)
}

fn block_delta(index: u32, delta: JsonValue) -> (r: SseFrame)
    ensures
        r@ == delta_frame(index as nat, delta@),
{
    let data = typed_json("content_block_delta").with("index", JsonValue::num(index as u64)).with(
        "delta",
        delta,
    );
    frame("content_block_delta", data)
}

fn block_stop(index: u32) -> (r: SseFrame)
    ensures
        r@ == stop_frame(index as nat),
{
    frame(
        "content_block_stop",
        typed_json("content_block_stop").with("index", JsonValue::num(index as u64)),
    )
}

/// The emitter with the frames given so far, as a step.
spec fn step_of(e: AnthropicEmitter, f: Seq<SseFrame>) -> AnthropicStep {
    AnthropicStep { state: e@, frames: crate::text::seq_view(f) }
}

impl AnthropicEmitter {
    pub fn new() -> (r: Self)
        ensures
            r@ == AnthropicView::initial(),
    {
        broadcast use crate::json::group_values;

        AnthropicEmitter {
            message_id: String::new(),
            model: String::new(),
            started: false,
            next_index: 0,
            thinking_index: None,
            thinking_text: String::new(),
            text_index: None,
            text_text: String::new(),
            tools: Slots::new(),
            any_tool: false,
            usage: None,
            final_blocks: Vec::new(),
        }
    }

    /// Whether the counter of blocks leaves room for one more event.
    pub fn has_space(&self) -> (r: bool)
        ensures
            r == self@.room(),
    {
        self.next_index < u32::MAX
    }

    fn stop_reason(&self) -> (r: &'static str)
        ensures
            r@ == self@.stop_reason(),
    {
        if self.any_tool {
            "tool_use"
        } else {
            "end_turn"
        }
    }

    /// The usage in Anthropic terms: upstream counts cache hits among the prompt's tokens,
    /// Anthropic clients expect them apart.
    fn anthropic_usage(&self) -> (r: JsonValue)
        ensures
            r@ == self@.usage_json(),
    {
        let u = usage_or_zero(self.usage);
        let uncached: u32 = if u.input >= u.cached {
            u.input - u.cached
        } else {
            0
        };
        JsonValue::obj().with("input_tokens", JsonValue::num(uncached as u64)).with(
            "output_tokens",
            JsonValue::num(u.output as u64),
        ).with("cache_read_input_tokens", JsonValue::num(u.cached as u64))
    }

    fn message(&self, content: JsonValue, stop_reason: JsonValue, usage: JsonValue) -> (r: JsonValue)
        requires
            content@ is Arr,
        ensures
            r@ == self@.message_json(content@->Arr_0, stop_reason@, usage@),
    {
        JsonValue::obj().with("id", JsonValue::str(self.message_id.as_str())).with(
            "type",
            JsonValue::str("message"),
        ).with("role", JsonValue::str("assistant")).with(
            "model",
            JsonValue::str(self.model.as_str()),
        ).with("content", content).with("stop_reason", stop_reason).with(
            "stop_sequence",
            JsonValue::Null,
        ).with("usage", usage)
    }

    /// The full non-streaming Messages object (valid after `Completed`).
    pub fn final_message(&self) -> (r: JsonValue)
        ensures
            r@ == self@.final_message(),
    {
        let blocks = JsonValue::copy_all(&self.final_blocks);
        let stop = JsonValue::str(self.stop_reason());
        self.message(JsonValue::Array(blocks), stop, self.anthropic_usage())
    }

    fn start(&mut self, f: &mut Vec<SseFrame>)
        ensures
            step_of(*final(self), final(f)@) == step_of(*old(self), old(f)@).start(),
    {
        broadcast use crate::text::group_views;

        if self.started {
            return ;
        }
        let usage = JsonValue::obj().with("input_tokens", JsonValue::num(0)).with(
            "output_tokens",
            JsonValue::num(0),
        );
        let message = self.message(JsonValue::array0(), JsonValue::Null, usage);
        self.started = true;
        f.push(frame("message_start", typed_json("message_start").with("message", message)));
    }

    fn ensure_thinking_open(&mut self, f: &mut Vec<SseFrame>)
        requires
            old(self)@.next_index < u32::MAX,
        ensures
            step_of(*final(self), final(f)@) == step_of(*old(self), old(f)@).open_thinking(),
    {
        broadcast use crate::text::group_views;

        if self.thinking_index.is_some() {
            return ;
        }
        let index = self.next_index;
        self.next_index = index + 1;
        let empty = String::new();
        let block = typed_json("thinking").with("thinking", JsonValue::String(empty));
        f.push(block_start(index, block));
        self.thinking_index = Some(index);
    }

    fn close_thinking(&mut self, f: &mut Vec<SseFrame>)
        ensures
            step_of(*final(self), final(f)@) == step_of(*old(self), old(f)@).close_thinking(),
    {
        broadcast use {crate::text::group_views, crate::json::group_values};

        match self.thinking_index.take() {
            Some(index) => {
                let delta = typed_json("signature_delta").with(
                    "signature",
                    JsonValue::str("bridge-unsigned"),
                );
                f.push(block_delta(index, delta));
                f.push(block_stop(index));
                let block = typed_json("thinking").with(
                    "thinking",
                    JsonValue::str(self.thinking_text.as_str()),
                ).with("signature", JsonValue::str("bridge-unsigned"));
                self.final_blocks.push(block);
            },
            None => {},
        }
    }

    fn ensure_text_open(&mut self, f: &mut Vec<SseFrame>)
        requires
            old(self)@.next_index < u32::MAX,
        ensures
            step_of(*final(self), final(f)@) == step_of(*old(self), old(f)@).open_text(),
    {
        broadcast use crate::text::group_views;

        if self.text_index.is_some() {
            return ;
        }
        let index = self.next_index;
        self.next_index = index + 1;
        let empty = String::new();
        let block = typed_json("text").with("text", JsonValue::String(empty));
        f.push(block_start(index, block));
        self.text_index = Some(index);
    }

    fn close_text(&mut self, f: &mut Vec<SseFrame>)
        ensures
            step_of(*final(self), final(f)@) == step_of(*old(self), old(f)@).close_text(),
    {
        broadcast use {crate::text::group_views, crate::json::group_values};

        match self.text_index.take() {
            Some(index) => {
                f.push(block_stop(index));
                let block = typed_json("text").with(
                    "text",
                    JsonValue::str(self.text_text.as_str()),
                );
                self.final_blocks.push(block);
            },
            None => {},
        }
    }

    fn finish_tool(&mut self, f: &mut Vec<SseFrame>, tb: ToolBlock)
        ensures
            step_of(*final(self), final(f)@) == step_of(*old(self), old(f)@).finish_tool(tb@),
            final(self).tools == old(self).tools,
    {
        broadcast use {crate::text::group_views, crate::json::group_values};

        let input = match JsonValue::parse(tb.args.as_str()) {
            Some(v) => v,
            None => JsonValue::obj(),
        };
        f.push(block_stop(tb.index));
        let block = typed_json("tool_use").with("id", JsonValue::str(tb.id.as_str())).with(
            "name",
            JsonValue::str(tb.name.as_str()),
        ).with("input", input);
        self.final_blocks.push(block);
    }

    fn close_open_tools(&mut self, f: &mut Vec<SseFrame>)
        ensures
            step_of(*final(self), final(f)@) == step_of(*old(self), old(f)@).close_open_tools(),
    {
        let ghost all = self.tools@;
        let mut open: Slots<ToolBlock> = Slots::new();
        std::mem::swap(&mut open, &mut self.tools);
        let ghost start = step_of(*self, f@);
        let ghost mut done: int = 0;
        assert(all.skip(0) =~= all);
        assert(all.take(0) =~= Seq::empty());
        loop
            invariant
                0 <= done <= all.len(),
                open@ == all.skip(done),
                step_of(*self, f@) == start.finish_tools(all.take(done)),
            ensures
                done == all.len(),
            decreases all.len() - done,
        {
            match open.remove_first() {
                Some(t) => {
                    assert(all.take(done + 1).drop_last() =~= all.take(done));
                    assert(all.take(done + 1).last() == all[done]);
                    assert(all.skip(done)[0] == all[done]);
                    assert(all.skip(done).skip(1) =~= all.skip(done + 1));
                    self.finish_tool(f, t);
                    proof {
                        done = done + 1;
                    }
                },
                None => {
                    break ;
                },
            }
        }
        assert(all.take(done) =~= all);
    }

    /// The frames of an event.
    pub fn on_event(&mut self, ev: &CanonicalEvent) -> (r: Vec<SseFrame>)
        requires
            old(self)@.room(),
        ensures
            final(self)@ == old(self)@.step(ev@).state,
            crate::text::seq_view(r@) == old(self)@.step(ev@).frames,
    {
        broadcast use crate::text::group_views;

        let mut f: Vec<SseFrame> = Vec::new();
        let ghost start = step_of(*self, f@);
        assert(start.frames =~= Seq::empty());
        match ev {
            CanonicalEvent::Created { response_id, model } => {
                self.message_id = response_id.clone();
                self.model = model.clone();
                self.start(&mut f);
            },
            CanonicalEvent::ReasoningDelta { text } => {
                self.start(&mut f);
                self.ensure_thinking_open(&mut f);
                self.thinking_text.append(text.as_str());
                match self.thinking_index {
                    Some(index) => {
                        let delta = typed_json("thinking_delta").with(
                            "thinking",
                            JsonValue::str(text.as_str()),
                        );
                        f.push(block_delta(index, delta));
                    },
                    None => {},
                }
            },
            CanonicalEvent::TextDelta { text } => {
                self.start(&mut f);
                self.close_thinking(&mut f);
                self.ensure_text_open(&mut f);
                self.text_text.append(text.as_str());
                match self.text_index {
                    Some(index) => {
                        let delta = typed_json("text_delta").with(
                            "text",
                            JsonValue::str(text.as_str()),
                        );
                        f.push(block_delta(index, delta));
                    },
                    None => {},
                }
            },
            CanonicalEvent::ToolCallStart { index, call_id, name } => {
                self.start(&mut f);
                self.close_thinking(&mut f);
                self.close_text(&mut f);
                let block_index = self.next_index;
                self.next_index = block_index + 1;
                self.any_tool = true;
                let block = typed_json("tool_use").with(
                    "id",
                    JsonValue::str(call_id.as_str()),
                ).with("name", JsonValue::str(name.as_str())).with("input", JsonValue::obj());
                f.push(block_start(block_index, block));
                self.tools.set(
                    *index,
                    ToolBlock {
                        index: block_index,
                        id: call_id.clone(),
                        name: name.clone(),
                        args: String::new(),
                    },
                );
            },
            CanonicalEvent::ToolCallArgsDelta { index, delta } => {
                let _ = self.tools.len();
                let ghost open = self.tools@;
                match self.tools.remove(*index) {
                    Some(t) => {
                        let mut t = t;
                        t.args.append(delta.as_str());
                        let piece = typed_json("input_json_delta").with(
                            "partial_json",
                            JsonValue::str(delta.as_str()),
                        );
                        f.push(block_delta(t.index, piece));
                        proof {
                            crate::wire::slots::lemma_refill(open, *index, t@);
                        }
                        self.tools.set(*index, t);
                    },
                    None => {
                        proof {
                            crate::wire::slots::lemma_remove_absent(open, *index);
                        }
                    },
                }
            },
            CanonicalEvent::ToolCallDone { index } => {
                let ghost open = self.tools@;
                match self.tools.remove(*index) {
                    Some(t) => {
                        self.finish_tool(&mut f, t);
                    },
                    None => {
                        proof {
                            crate::wire::slots::lemma_remove_absent(open, *index);
                        }
                    },
                }
            },
            CanonicalEvent::Usage {
                input_tokens,
                output_tokens,
                total_tokens,
                cached_input_tokens,
                reasoning_tokens,
            } => {
                self.usage = Some(
                    UsageCounts {
                        input: *input_tokens,
                        output: *output_tokens,
                        total: *total_tokens,
                        cached: *cached_input_tokens,
                        reasoning: *reasoning_tokens,
                    },
                );
            },
            CanonicalEvent::Completed => {
                self.close_thinking(&mut f);
                self.close_text(&mut f);
                self.close_open_tools(&mut f);
                let delta = JsonValue::obj().with(
                    "stop_reason",
                    JsonValue::str(self.stop_reason()),
                ).with("stop_sequence", JsonValue::Null);
                let data = typed_json("message_delta").with("delta", delta).with(
                    "usage",
                    self.anthropic_usage(),
                );
                f.push(frame("message_delta", data));
                f.push(frame("message_stop", typed_json("message_stop")));
            },
            CanonicalEvent::Error { message, status } => {
                let error = typed_json("api_error").with(
                    "message",
                    JsonValue::str(message.as_str()),
                ).with("code", JsonValue::num(*status as u64));
                f.push(frame("error", typed_json("error").with("error", error)));
            },
        }
        f
    }
}

impl CanonicalEmitter for AnthropicEmitter {
    open spec fn has_room(self) -> bool {
        self@.room()
    }

    open spec fn emits(self, ev: EventView, after: Self, frames: Seq<FrameView>) -> bool {
        after@ == self@.step(ev).state && frames == self@.step(ev).frames
    }

    fn has_space(&self) -> (r: bool) {
        self.has_space()
    }

    fn emit(&mut self, ev: &CanonicalEvent) -> (r: Vec<SseFrame>) {
        self.on_event(ev)
    }
}

} // verus!
