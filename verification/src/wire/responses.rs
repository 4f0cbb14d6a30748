//! The OpenAI Responses API wire format.

use vstd::prelude::*;
use vstd::string::*;

use crate::canonical::{
    CanonicalEvent, CanonicalRequest, EventView, Message, MessageView, ReasoningEffort,
    RequestView, ToolCall, ToolCallView, ToolChoice, ToolChoiceView, ToolDef, ToolDefView,
};
use crate::error::{BridgeError, ErrorView};
use crate::json::{Json, JsonValue};
use crate::text::{concat3, str_eq};
use crate::wire::slots::Slots;
use crate::wire::{
    flag_member, frame, join_texts, new_id, number_member, string_member, u32_member,
    usage_or_zero, CanonicalEmitter, FrameView, SseFrame, UsageCounts,
};

verus! {

// ---------------------------------------------------------------------------
// Inbound: Responses body -> canonical request
// ---------------------------------------------------------------------------

/// What has been read of the `input` items so far. Reasoning comes before the
/// assistant turn it belongs to, and waits in `pending` until that turn opens.
pub struct InputView {
    pub messages: Seq<MessageView>,
    pub system: Option<Seq<char>>,
    pub pending: Option<Seq<char>>,
}

/// The text of a content member: a string, or the texts of its parts.
pub open spec fn content_text(content: Option<Json>) -> Seq<char> {
    match content {
        Some(Json::Str(s)) => s,
        Some(Json::Arr(parts)) => crate::wire::joined_texts(parts),
        _ => Seq::empty(),
    }
}

/// The system prompt with one more paragraph.
pub open spec fn system_plus(system: Option<Seq<char>>, text: Seq<char>) -> Option<Seq<char>> {
    match system {
        Some(s) => Some(s + "\n"@ + text),
        None => Some(text),
    }
}

/// The kind of an input item; one that names none is a message.
pub open spec fn item_kind(item: Json) -> Seq<char> {
    match item.get_str("type"@) {
        Some(k) => k,
        None => "message"@,
    }
}

/// The tool call that a `function_call` item makes.
pub open spec fn item_call(item: Json) -> ToolCallView {
    ToolCallView {
        call_id: item.str_or_empty("call_id"@),
        name: item.str_or_empty("name"@),
        arguments: item.str_or_empty("arguments"@),
    }
}

/// The output of a `function_call_output` item; what is no string is given as JSON text.
pub open spec fn item_output(item: Json) -> Seq<char> {
    match item.get("output"@) {
        Some(Json::Str(s)) => s,
        Some(other) => crate::json::json_text(other),
        None => Seq::empty(),
    }
}

impl InputView {
    /// The state after a `message` item.
    pub open spec fn after_message(self, item: Json) -> InputView {
        let role = crate::wire::chat::role_of(item);
        let text = content_text(item.get("content"@));
        if crate::wire::chat::is_system_role(role) {
            InputView { system: system_plus(self.system, text), ..self }
        } else if role == "assistant"@ {
            InputView {
                messages: self.messages.push(
                    MessageView::Assistant {
                        text: Some(text),
                        reasoning_content: self.pending,
                        tool_calls: Seq::empty(),
                    },
                ),
                pending: None,
                ..self
            }
        } else {
            InputView {
                messages: self.messages.push(MessageView::User(text)),
                pending: None,
                ..self
            }
        }
    }

    /// The state after a `function_call` item: the call joins the assistant turn that
    /// is open, or opens one.
    pub open spec fn after_call(self, call: ToolCallView) -> InputView {
        let fresh = InputView {
            messages: self.messages.push(
                MessageView::Assistant {
                    text: None,
                    reasoning_content: self.pending,
                    tool_calls: seq![call],
                },
            ),
            pending: None,
            ..self
        };
        if self.messages.len() == 0 {
            fresh
        } else {
            match self.messages.last() {
                MessageView::Assistant { text, reasoning_content, tool_calls } => InputView {
                    messages: self.messages.drop_last().push(
                        MessageView::Assistant {
                            text,
                            reasoning_content: if reasoning_content is None {
                                self.pending
                            } else {
                                reasoning_content
                            },
                            tool_calls: tool_calls.push(call),
                        },
                    ),
                    pending: if reasoning_content is None {
                        None
                    } else {
                        self.pending
                    },
                    ..self
                },
                _ => fresh,
            }
        }
    }

    /// The state after an input item. Items of other kinds are passed over.
    pub open spec fn after(self, item: Json) -> InputView {
        let kind = item_kind(item);
        if kind == "message"@ {
            self.after_message(item)
        } else if kind == "function_call"@ {
            self.after_call(item_call(item))
        } else if kind == "function_call_output"@ {
            InputView {
                messages: self.messages.push(
                    MessageView::Tool {
                        call_id: item.str_or_empty("call_id"@),
                        output: item_output(item),
                    },
                ),
                pending: None,
                ..self
            }
        } else if kind == "reasoning"@ {
            let text = crate::wire::joined_texts(crate::wire::items_of(item.get("summary"@)));
            if text.len() > 0 {
                InputView { pending: Some(text), ..self }
            } else {
                self
            }
        } else {
            self
        }
    }

    /// The state after a list of input items.
    pub open spec fn after_all(self, items: Seq<Json>) -> InputView
        decreases items.len(),
    {
        if items.len() == 0 {
            self
        } else {
            self.after_all(items.drop_last()).after(items.last())
        }
    }
}

/// Calls that follow one another share one assistant turn, in their order.
pub proof fn consecutive_calls_share_one_turn(s: InputView, items: Seq<Json>)
    requires
        items.len() > 0,
        forall|i: int| 0 <= i < items.len() ==> item_kind(#[trigger] items[i]) == "function_call"@,
        s.messages.len() > 0 ==> !(s.messages.last() is Assistant),
    ensures
        ({
            let t = s.after_all(items);
            &&& t.messages.len() == s.messages.len() + 1
            &&& t.messages.drop_last() == s.messages
            &&& t.messages.last() is Assistant
            &&& t.messages.last()->tool_calls == items.map_values(|i: Json| item_call(i))
        }),
    decreases items.len(),
{
    reveal_strlit("message");
    reveal_strlit("function_call");
    assert("message"@.len() == 7);
    assert("function_call"@.len() == 13);
    let init = items.drop_last();
    let last = items.last();
    assert(last == items[items.len() - 1]);
    let all = items.map_values(|i: Json| item_call(i));
    if init.len() == 0 {
        assert(s.after_all(init) == s);
        let t = s.after_all(items);
        assert(t == s.after_call(item_call(last)));
        assert(t.messages.drop_last() =~= s.messages);
        assert(seq![item_call(last)] =~= all);
    } else {
        assert forall|i: int| 0 <= i < init.len() implies item_kind(#[trigger] init[i])
            == "function_call"@ by {
            assert(init[i] == items[i]);
        }
        consecutive_calls_share_one_turn(s, init);
        let m = s.after_all(init);
        let t = s.after_all(items);
        assert(t == m.after_call(item_call(last)));
        assert(t.messages.drop_last() =~= m.messages.drop_last());
        assert(init.map_values(|i: Json| item_call(i)).push(item_call(last)) =~= all);
    }
}

/// The tools that a `tools` member defines: its entries of type `function`, each of
/// which needs a name.
pub open spec fn parsed_tools(items: Seq<Json>) -> Result<Seq<ToolDefView>, ErrorView>
    decreases items.len(),
{
    if items.len() == 0 {
        Ok(Seq::empty())
    } else {
        match parsed_tools(items.drop_last()) {
            Err(e) => Err(e),
            Ok(ts) => {
                let t = items.last();
                if t.get_str("type"@) != Some("function"@) {
                    Ok(ts)
                } else {
                    match t.get_str("name"@) {
                        None => Err(ErrorView::BadRequest("tool missing `name`"@)),
                        Some(name) => Ok(
                            ts.push(
                                ToolDefView {
                                    name,
                                    description: t.get_str("description"@),
                                    parameters: match t.get("parameters"@) {
                                        Some(p) => p,
                                        None => Json::Null,
                                    },
                                },
                            ),
                        ),
                    }
                }
            },
        }
    }
}

/// The tool choice that a `tool_choice` member expresses.
pub open spec fn parsed_choice(v: Option<Json>) -> ToolChoiceView {
    match v {
        Some(Json::Str(s)) => if s == "none"@ {
            ToolChoiceView::Never
        } else if s == "required"@ {
            ToolChoiceView::Required
        } else {
            ToolChoiceView::Auto
        },
        Some(j) => match j.get_str("name"@) {
            Some(name) => ToolChoiceView::Function(name),
            None => ToolChoiceView::Auto,
        },
        None => ToolChoiceView::Auto,
    }
}

/// The reasoning effort that a body asks for.
pub open spec fn parsed_effort(body: Json) -> Option<ReasoningEffort> {
    match body.get2("reasoning"@, "effort"@) {
        Some(Json::Str(s)) => crate::canonical::effort_named(s),
        _ => None,
    }
}

/// What the `input` of a body says, starting from its instructions.
pub open spec fn parsed_input(body: Json) -> Result<InputView, ErrorView> {
    let start = InputView {
        messages: Seq::empty(),
        system: body.get_str("instructions"@),
        pending: None,
    };
    match body.get("input"@) {
        Some(Json::Str(s)) => Ok(InputView { messages: seq![MessageView::User(s)], ..start }),
        Some(Json::Arr(items)) => Ok(start.after_all(items)),
        Some(_) => Err(ErrorView::BadRequest("`input` must be string or array"@)),
        None => Ok(start),
    }
}

/// The request that a Responses body makes. Of several faults the first is reported:
/// no object, no model, a bad `input`, a tool without a name.
pub open spec fn parsed_request(body: Json) -> Result<RequestView, ErrorView> {
    if !(body is Obj) {
        Err(ErrorView::BadRequest("body must be a JSON object"@))
    } else {
        match body.get_str("model"@) {
            None => Err(ErrorView::BadRequest("missing `model`"@)),
            Some(model) => match parsed_input(body) {
                Err(e) => Err(e),
                Ok(input) => match parsed_tools(crate::wire::items_of(body.get("tools"@))) {
                    Err(e) => Err(e),
                    Ok(tools) => Ok(
                        RequestView {
                            model,
                            system: input.system,
                            messages: input.messages,
                            tools,
                            tool_choice: parsed_choice(body.get("tool_choice"@)),
                            temperature: crate::wire::number_under(body, "temperature"@),
                            top_p: crate::wire::number_under(body, "top_p"@),
                            max_output_tokens: crate::wire::u32_under(body, "max_output_tokens"@),
                            reasoning_effort: parsed_effort(body),
                            parallel_tool_calls: body.get_bool("parallel_tool_calls"@),
                            stream: crate::wire::flag_under(body, "stream"@),
                        },
                    ),
                },
            },
        }
    }
}

/// What has been read of the `input` items so far.
struct InputState {
    messages: Vec<Message>,
    system: Option<String>,
    pending: Option<String>,
}

impl View for InputState {
    type V = InputView;

    closed spec fn view(&self) -> InputView {
        InputView {
            messages: crate::text::seq_view(self.messages@),
            system: crate::text::opt_view(self.system),
            pending: crate::text::opt_view(self.pending),
        }
    }
}

pub fn extract_text(content: Option<&JsonValue>) -> (r: String)
    ensures
        r@ == content_text(crate::text::opt_view(content)),
{
    match content {
        Some(JsonValue::String(s)) => s.clone(),
        Some(JsonValue::Array(parts)) => join_texts(parts),
        _ => String::new(),
    }
}

/// Adds a paragraph to the system prompt.
pub fn append_system(system: &mut Option<String>, text: &str)
    ensures
        crate::text::opt_view(*final(system)) == system_plus(
            crate::text::opt_view(*old(system)),
            text@,
        ),
{
    match system.take() {
        Some(s) => {
            *system = Some(concat3(s.as_str(), "\n", text));
        },
        None => {
            *system = Some(text.to_owned());
        },
    }
}

fn parse_input_message(state: InputState, item: &JsonValue) -> (r: InputState)
    ensures
        r@ == state@.after_message(item@),
{
    broadcast use crate::text::group_views;

    let mut state = state;
    let role = match item.get_str("role") {
        Some(r) => r,
        None => "user",
    };
    let text = extract_text(item.get("content"));
    if str_eq(role, "system") || str_eq(role, "developer") {
        append_system(&mut state.system, text.as_str());
    } else if str_eq(role, "assistant") {
        let m = Message::Assistant {
            text: Some(text),
            reasoning_content: state.pending,
            tool_calls: Vec::new(),
        };
        assert(m@->tool_calls =~= Seq::empty());
        state.messages.push(m);
        state.pending = None;
    } else {
        state.pending = None;
        state.messages.push(Message::User(text));
    }
    state
}

fn parse_input_call(state: InputState, call: ToolCall) -> (r: InputState)
    ensures
        r@ == state@.after_call(call@),
{
    broadcast use crate::text::group_views;

    let ghost before = state@;
    let mut state = state;
    let joins = match state.messages.last() {
        Some(Message::Assistant { .. }) => true,
        _ => false,
    };
    if joins {
        let m = state.messages.pop();
        let ghost rest = crate::text::seq_view(state.messages@);
        assert(rest =~= before.messages.drop_last());
        match m {
            Some(Message::Assistant { text, reasoning_content, tool_calls }) => {
                let mut tool_calls = tool_calls;
                tool_calls.push(call);
                let (reasoning_content, pending) = match reasoning_content {
                    Some(rc) => (Some(rc), state.pending),
                    None => (state.pending, None),
                };
                state.messages.push(Message::Assistant { text, reasoning_content, tool_calls });
                state.pending = pending;
            },
            _ => {},
        }
    } else {
        let mut tool_calls: Vec<ToolCall> = Vec::new();
        tool_calls.push(call);
        assert(crate::text::seq_view(tool_calls@) =~= seq![call@]);
        state.messages.push(
            Message::Assistant { text: None, reasoning_content: state.pending, tool_calls },
        );
        state.pending = None;
    }
    state
}

fn parse_input_item(state: InputState, item: &JsonValue) -> (r: InputState)
    ensures
        r@ == state@.after(item@),
{
    broadcast use crate::text::group_views;

    let kind = match item.get_str("type") {
        Some(k) => k,
        None => "message",
    };
    if str_eq(kind, "message") {
        parse_input_message(state, item)
    } else if str_eq(kind, "function_call") {
        let call = ToolCall {
            call_id: item.str_or_empty("call_id"),
            name: item.str_or_empty("name"),
            arguments: item.str_or_empty("arguments"),
        };
        parse_input_call(state, call)
    } else if str_eq(kind, "function_call_output") {
        let output = match item.get("output") {
            Some(JsonValue::String(s)) => s.clone(),
            Some(other) => other.to_text(),
            None => String::new(),
        };
        let mut state = state;
        state.pending = None;
        state.messages.push(Message::Tool { call_id: item.str_or_empty("call_id"), output });
        state
    } else if str_eq(kind, "reasoning") {
        let text = match item.get("summary") {
            Some(JsonValue::Array(parts)) => join_texts(parts),
            _ => String::new(),
        };
        if text.as_str().is_empty() {
            state
        } else {
            let mut state = state;
            state.pending = Some(text);
            state
        }
    } else {
        state
    }
}

fn parse_input_items(state: InputState, items: &Vec<JsonValue>) -> (r: InputState)
    ensures
        r@ == state@.after_all(crate::json::values_view(items@)),
{
    let ghost start = state@;
    let ghost view = crate::json::values_view(items@);
    let mut state = state;
    let mut i: usize = 0;
    assert(view.take(0) =~= Seq::empty());
    while i < items.len()
        invariant
            i <= items@.len(),
            view == crate::json::values_view(items@),
            state@ == start.after_all(view.take(i as int)),
        decreases items@.len() - i,
    {
        assert(view.take(i as int + 1).drop_last() =~= view.take(i as int));
        assert(view.take(i as int + 1).last() == view[i as int]);
        state = parse_input_item(state, &items[i]);
        i = i + 1;
    }
    assert(view.take(i as int) =~= view);
    state
}

fn parse_input(body: &JsonValue) -> (r: Result<InputState, BridgeError>)
    ensures
        crate::text::res_view(r) == parsed_input(body@),
{
    broadcast use crate::text::group_views;

    let start = InputState {
        messages: Vec::new(),
        system: string_member(body, "instructions"),
        pending: None,
    };
    assert(start@.messages =~= Seq::empty());
    match body.get("input") {
        Some(JsonValue::String(s)) => {
            let mut start = start;
            start.messages.push(Message::User(s.clone()));
            assert(start@.messages =~= seq![MessageView::User(s@)]);
            Ok(start)
        },
        Some(JsonValue::Array(items)) => Ok(parse_input_items(start, items)),
        Some(_) => Err(BridgeError::bad_request("`input` must be string or array")),
        None => Ok(start),
    }
}

pub fn parse_tools(v: Option<&JsonValue>) -> (r: Result<Vec<ToolDef>, BridgeError>)
    ensures
        match r {
            Ok(ts) => parsed_tools(crate::wire::items_of(crate::text::opt_view(v))) == Ok::<
                Seq<ToolDefView>,
                ErrorView,
            >(crate::text::seq_view(ts@)),
            Err(e) => parsed_tools(crate::wire::items_of(crate::text::opt_view(v))) == Err::<
                Seq<ToolDefView>,
                ErrorView,
            >(e@),
        },
{
    broadcast use crate::text::group_views;

    let mut out: Vec<ToolDef> = Vec::new();
    let arr = match v {
        Some(JsonValue::Array(a)) => a,
        _ => {
            return Ok(out);
        },
    };
    let ghost view = crate::json::values_view(arr@);
    let mut i: usize = 0;
    assert(view.take(0) =~= Seq::empty());
    while i < arr.len()
        invariant
            i <= arr@.len(),
            view == crate::json::values_view(arr@),
            crate::wire::items_of(crate::text::opt_view(v)) == view,
            parsed_tools(view.take(i as int)) == Ok::<Seq<ToolDefView>, ErrorView>(
                crate::text::seq_view(out@),
            ),
        decreases arr@.len() - i,
    {
        broadcast use crate::text::group_views;

        assert(view.take(i as int + 1).drop_last() =~= view.take(i as int));
        assert(view.take(i as int + 1).last() == view[i as int]);
        let t = &arr[i];
        let is_function = match t.get_str("type") {
            Some(k) => str_eq(k, "function"),
            None => false,
        };
        if is_function {
            match t.get_str("name") {
                None => {
                    proof {
                        lemma_tools_error_stays(view, i as int + 1);
                    }
                    return Err(BridgeError::bad_request("tool missing `name`"));
                },
                Some(name) => {
                    let parameters = match t.get("parameters") {
                        Some(p) => p.copy(),
                        None => JsonValue::Null,
                    };
                    out.push(
                        ToolDef {
                            name: name.to_owned(),
                            description: string_member(t, "description"),
                            parameters,
                        },
                    );
                },
            }
        }
        i = i + 1;
    }
    assert(view.take(i as int) =~= view);
    Ok(out)
}

proof fn lemma_tools_error_stays(items: Seq<Json>, k: int)
    requires
        0 <= k <= items.len(),
        parsed_tools(items.take(k)) is Err,
    ensures
        parsed_tools(items) == parsed_tools(items.take(k)),
    decreases items.len() - k,
{
    if k < items.len() {
        assert(items.take(k + 1).drop_last() =~= items.take(k));
        lemma_tools_error_stays(items, k + 1);
    } else {
        assert(items.take(k) =~= items);
    }
}

pub fn parse_tool_choice(v: Option<&JsonValue>) -> (r: ToolChoice)
    ensures
        r@ == parsed_choice(crate::text::opt_view(v)),
{
    match v {
        Some(JsonValue::String(s)) => {
            if str_eq(s.as_str(), "none") {
                ToolChoice::Never
            } else if str_eq(s.as_str(), "required") {
                ToolChoice::Required
            } else {
                ToolChoice::Auto
            }
        },
        Some(j) => match j.get_str("name") {
            Some(name) => ToolChoice::Function(name.to_owned()),
            None => ToolChoice::Auto,
        },
        None => ToolChoice::Auto,
    }
}

fn parse_effort(body: &JsonValue) -> (r: Option<ReasoningEffort>)
    ensures
        r == parsed_effort(body@),
{
    match body.get2("reasoning", "effort") {
        Some(v) => match v.as_str() {
            Some(s) => ReasoningEffort::from_str_opt(s),
            None => None,
        },
        None => None,
    }
}

/// Parse a Responses request body into the canonical request.
pub fn parse_request(body: &JsonValue) -> (r: Result<CanonicalRequest, BridgeError>)
    ensures
        crate::text::res_view(r) == parsed_request(body@),
{
    if body.as_object().is_none() {
        return Err(BridgeError::bad_request("body must be a JSON object"));
    }
    let model = match body.get_str("model") {
        Some(m) => m.to_owned(),
        None => {
            return Err(BridgeError::bad_request("missing `model`"));
        },
    };
    let input = match parse_input(body) {
        Ok(input) => input,
        Err(e) => {
            return Err(e);
        },
    };
    let tools = match parse_tools(body.get("tools")) {
        Ok(tools) => tools,
        Err(e) => {
            return Err(e);
        },
    };
    Ok(
        CanonicalRequest {
            model,
            system: input.system,
            messages: input.messages,
            tools,
            tool_choice: parse_tool_choice(body.get("tool_choice")),
            temperature: number_member(body, "temperature"),
            top_p: number_member(body, "top_p"),
            max_output_tokens: u32_member(body, "max_output_tokens"),
            reasoning_effort: parse_effort(body),
            parallel_tool_calls: body.get_bool("parallel_tool_calls"),
            stream: flag_member(body, "stream"),
        },
    )
}

// ---------------------------------------------------------------------------
// Outbound: canonical events -> Responses SSE frames
// ---------------------------------------------------------------------------

/// An output item that is being written.
pub struct ItemView {
    pub id: Seq<char>,
    pub output_index: nat,
}

/// A function call that is being written.
pub struct ToolItemView {
    pub id: Seq<char>,
    pub output_index: nat,
    pub call_id: Seq<char>,
    pub name: Seq<char>,
    pub args: Seq<char>,
}

/// The state of a `ResponsesEmitter`.
pub struct ResponsesView {
    pub response_id: Seq<char>,
    pub model: Seq<char>,
    pub next_output_index: nat,
    pub reasoning_item: Option<ItemView>,
    pub reasoning_text: Seq<char>,
    pub message_item: Option<ItemView>,
    pub message_text: Seq<char>,
    /// The open function calls, by the index their fragments carry.
    pub tools: Seq<(u32, ToolItemView)>,
    pub usage: Option<UsageCounts>,
    /// The items that are done.
    pub final_items: Seq<Json>,
    /// The sequence number of the next frame.
    pub seq: nat,
}

/// A state of the emitter with the frames given on the way to it.
pub struct ResponsesStep {
    pub state: ResponsesView,
    pub frames: Seq<FrameView>,
}

/// The start of a frame's payload: its type is the frame's event name.
pub open spec fn payload(name: Seq<char>) -> Json {
    Json::obj().with("type"@, Json::Str(name))
}

/// A piece of finished output text.
pub open spec fn text_part(text: Seq<char>) -> Json {
    payload("output_text"@).with("text"@, Json::Str(text)).with("annotations"@, Json::Arr(Seq::empty()))
}

/// A finished reasoning item.
pub open spec fn reasoning_json(id: Seq<char>, text: Seq<char>) -> Json {
    payload("reasoning"@).with("id"@, Json::Str(id)).with(
        "summary"@,
        Json::Arr(seq![payload("summary_text"@).with("text"@, Json::Str(text))]),
    )
}

/// A finished message item.
pub open spec fn message_json(id: Seq<char>, text: Seq<char>) -> Json {
    payload("message"@).with("id"@, Json::Str(id)).with("role"@, Json::Str("assistant"@)).with(
        "status"@,
        Json::Str("completed"@),
    ).with("content"@, Json::Arr(seq![text_part(text)]))
}

/// A function-call item.
pub open spec fn call_json(
    id: Seq<char>,
    call_id: Seq<char>,
    name: Seq<char>,
    args: Seq<char>,
    status: Seq<char>,
) -> Json {
    payload("function_call"@).with("id"@, Json::Str(id)).with("call_id"@, Json::Str(call_id)).with(
        "name"@,
        Json::Str(name),
    ).with("arguments"@, Json::Str(args)).with("status"@, Json::Str(status))
}

/// The identifier that a call goes by: the upstream's, or that of its item where the
/// upstream gave none.
pub open spec fn call_id_or(call_id: Seq<char>, id: Seq<char>) -> Seq<char> {
    if call_id.len() == 0 {
        id
    } else {
        call_id
    }
}

/// The frame that opens an output item.
pub open spec fn added_frame(output_index: nat, item: Json) -> FrameView {
    FrameView {
        event: "response.output_item.added"@,
        data: payload("response.output_item.added"@).with(
            "output_index"@,
            Json::num(output_index as u64),
        ).with("item"@, item),
    }
}

/// The frame that closes an output item.
pub open spec fn done_frame(output_index: nat, item: Json) -> FrameView {
    FrameView {
        event: "response.output_item.done"@,
        data: payload("response.output_item.done"@).with(
            "output_index"@,
            Json::num(output_index as u64),
        ).with("item"@, item),
    }
}

/// A payload about a place in an output item.
pub open spec fn at_item(name: Seq<char>, id: Seq<char>, output_index: nat) -> Json {
    payload(name).with("item_id"@, Json::Str(id)).with(
        "output_index"@,
        Json::num(output_index as u64),
    )
}

impl ResponsesView {
    /// The state before any event.
    pub open spec fn initial() -> ResponsesView {
        ResponsesView {
            response_id: Seq::empty(),
            model: Seq::empty(),
            next_output_index: 0,
            reasoning_item: None,
            reasoning_text: Seq::empty(),
            message_item: None,
            message_text: Seq::empty(),
            tools: Seq::empty(),
            usage: None,
            final_items: Seq::empty(),
            seq: 0,
        }
    }

    /// The response object at its start.
    pub open spec fn skeleton(self, status: Seq<char>) -> Json {
        Json::obj().with("id"@, Json::Str(self.response_id)).with(
            "object"@,
            Json::Str("response"@),
        ).with("status"@, Json::Str(status)).with("model"@, Json::Str(self.model)).with(
            "output"@,
            Json::Arr(Seq::empty()),
        )
    }

    /// The whole response object.
    pub open spec fn completed_response(self) -> Json {
        let u = crate::wire::counts_or_zero(self.usage);
        Json::obj().with("id"@, Json::Str(self.response_id)).with(
            "object"@,
            Json::Str("response"@),
        ).with("status"@, Json::Str("completed"@)).with("model"@, Json::Str(self.model)).with(
            "output"@,
            Json::Arr(self.final_items),
        ).with(
            "usage"@,
            Json::obj().with("input_tokens"@, Json::num(u.input as u64)).with(
                "input_tokens_details"@,
                Json::obj().with("cached_tokens"@, Json::num(u.cached as u64)),
            ).with("output_tokens"@, Json::num(u.output as u64)).with(
                "output_tokens_details"@,
                Json::obj().with("reasoning_tokens"@, Json::num(u.reasoning as u64)),
            ).with("total_tokens"@, Json::num(u.total as u64)),
        )
    }

    /// Whether the counters leave room for one more event.
    pub open spec fn room(self) -> bool {
        self.next_output_index < u32::MAX && self.seq + 2 * self.tools.len() + 8 <= u64::MAX
    }
}

impl ResponsesStep {
    pub open spec fn push(self, f: FrameView) -> ResponsesStep {
        ResponsesStep { frames: self.frames.push(f), ..self }
    }

    /// Opens a reasoning item named `id`, unless one is open.
    pub open spec fn open_reasoning(self, id: Seq<char>) -> ResponsesStep {
        let s = self.state;
        if s.reasoning_item is Some {
            self
        } else {
            ResponsesStep {
                state: ResponsesView {
                    next_output_index: s.next_output_index + 1,
                    reasoning_item: Some(ItemView { id, output_index: s.next_output_index }),
                    ..s
                },
                ..self
            }.push(
                added_frame(
                    s.next_output_index,
                    payload("reasoning"@).with("id"@, Json::Str(id)).with(
                        "summary"@,
                        Json::Arr(Seq::empty()),
                    ),
                ),
            )
        }
    }

    /// Closes the reasoning item, if one is open.
    pub open spec fn close_reasoning(self) -> ResponsesStep {
        let s = self.state;
        match s.reasoning_item {
            None => self,
            Some(item) => {
                let j = reasoning_json(item.id, s.reasoning_text);
                ResponsesStep {
                    state: ResponsesView {
                        reasoning_item: None,
                        final_items: s.final_items.push(j),
                        ..s
                    },
                    ..self
                }.push(
                    FrameView {
                        event: "response.reasoning_summary_text.done"@,
                        data: at_item(
                            "response.reasoning_summary_text.done"@,
                            item.id,
                            item.output_index,
                        ).with("summary_index"@, Json::num(0)).with(
                            "text"@,
                            Json::Str(s.reasoning_text),
                        ),
                    },
                ).push(done_frame(item.output_index, j))
            },
        }
    }

    /// Opens a message item named `id`, unless one is open.
    pub open spec fn open_message(self, id: Seq<char>) -> ResponsesStep {
        let s = self.state;
        if s.message_item is Some {
            self
        } else {
            ResponsesStep {
                state: ResponsesView {
                    next_output_index: s.next_output_index + 1,
                    message_item: Some(ItemView { id, output_index: s.next_output_index }),
                    ..s
                },
                ..self
            }.push(
                added_frame(
                    s.next_output_index,
                    payload("message"@).with("id"@, Json::Str(id)).with(
                        "role"@,
                        Json::Str("assistant"@),
                    ).with("status"@, Json::Str("in_progress"@)).with(
                        "content"@,
                        Json::Arr(Seq::empty()),
                    ),
                ),
            ).push(
                FrameView {
                    event: "response.content_part.added"@,
                    data: at_item("response.content_part.added"@, id, s.next_output_index).with(
                        "content_index"@,
                        Json::num(0),
                    ).with("part"@, text_part(Seq::empty())),
                },
            )
        }
    }

    /// Closes the message item, if one is open.
    pub open spec fn close_message(self) -> ResponsesStep {
        let s = self.state;
        match s.message_item {
            None => self,
            Some(item) => {
                let j = message_json(item.id, s.message_text);
                ResponsesStep {
                    state: ResponsesView {
                        message_item: None,
                        final_items: s.final_items.push(j),
                        ..s
                    },
                    ..self
                }.push(
                    FrameView {
                        event: "response.output_text.done"@,
                        data: at_item(
                            "response.output_text.done"@,
                            item.id,
                            item.output_index,
                        ).with("content_index"@, Json::num(0)).with(
                            "text"@,
                            Json::Str(s.message_text),
                        ),
                    },
                ).push(
                    FrameView {
                        event: "response.content_part.done"@,
                        data: at_item(
                            "response.content_part.done"@,
                            item.id,
                            item.output_index,
                        ).with("content_index"@, Json::num(0)).with(
                            "part"@,
                            text_part(s.message_text),
                        ),
                    },
                ).push(done_frame(item.output_index, j))
            },
        }
    }

    /// Closes the function call `t`.
    pub open spec fn finish_tool(self, t: ToolItemView) -> ResponsesStep {
        let s = self.state;
        let j = call_json(t.id, t.call_id, t.name, t.args, "completed"@);
        ResponsesStep {
            state: ResponsesView { final_items: s.final_items.push(j), ..s },
            ..self
        }.push(
            FrameView {
                event: "response.function_call_arguments.done"@,
                data: at_item(
                    "response.function_call_arguments.done"@,
                    t.id,
                    t.output_index,
                ).with("arguments"@, Json::Str(t.args)),
            },
        ).push(done_frame(t.output_index, j))
    }

    /// Closes function calls, one after the other.
    pub open spec fn finish_tools(self, ts: Seq<(u32, ToolItemView)>) -> ResponsesStep
        decreases ts.len(),
    {
        if ts.len() == 0 {
            self
        } else {
            self.finish_tools(ts.drop_last()).finish_tool(ts.last().1)
        }
    }

    /// Closes all open function calls, in the order of their indices.
    pub open spec fn close_open_tools(self) -> ResponsesStep {
        ResponsesStep {
            state: ResponsesView { tools: Seq::empty(), ..self.state },
            ..self
        }.finish_tools(self.state.tools)
    }

    /// The step on an event, its frames not numbered yet. An item that is opened is
    /// named `id`.
    pub open spec fn on(self, ev: EventView, id: Seq<char>) -> ResponsesStep {
        match ev {
            EventView::Created { response_id, model } => {
                let s = ResponsesView { response_id, model, ..self.state };
                ResponsesStep { state: s, ..self }.push(
                    FrameView {
                        event: "response.created"@,
                        data: payload("response.created"@).with(
                            "response"@,
                            s.skeleton("in_progress"@),
                        ),
                    },
                )
            },
            EventView::ReasoningDelta { text } => {
                let o = self.open_reasoning(id);
                let item = o.state.reasoning_item->0;
                ResponsesStep {
                    state: ResponsesView {
                        reasoning_text: o.state.reasoning_text + text,
                        ..o.state
                    },
                    ..o
                }.push(
                    FrameView {
                        event: "response.reasoning_summary_text.delta"@,
                        data: at_item(
                            "response.reasoning_summary_text.delta"@,
                            item.id,
                            item.output_index,
                        ).with("summary_index"@, Json::num(0)).with("delta"@, Json::Str(text)),
                    },
                )
            },
            EventView::TextDelta { text } => {
                let o = self.close_reasoning().open_message(id);
                let item = o.state.message_item->0;
                ResponsesStep {
                    state: ResponsesView { message_text: o.state.message_text + text, ..o.state },
                    ..o
                }.push(
                    FrameView {
                        event: "response.output_text.delta"@,
                        data: at_item(
                            "response.output_text.delta"@,
                            item.id,
                            item.output_index,
                        ).with("content_index"@, Json::num(0)).with("delta"@, Json::Str(text)),
                    },
                )
            },
            EventView::ToolCallStart { index, call_id, name } => {
                let c = self.close_reasoning().close_message();
                let n = c.state.next_output_index;
                let call_id = call_id_or(call_id, id);
                let t = ToolItemView { id, output_index: n, call_id, name, args: Seq::empty() };
                ResponsesStep {
                    state: ResponsesView {
                        next_output_index: n + 1,
                        tools: crate::wire::slots::slot_set(c.state.tools, index, t),
                        ..c.state
                    },
                    ..c
                }.push(
                    added_frame(n, call_json(id, call_id, name, Seq::empty(), "in_progress"@)),
                )
            },
            EventView::ToolCallArgsDelta { index, delta } => match crate::wire::slots::slot_get(
                self.state.tools,
                index,
            ) {
                None => self,
                Some(t) => ResponsesStep {
                    state: ResponsesView {
                        tools: crate::wire::slots::slot_set(
                            self.state.tools,
                            index,
                            ToolItemView { args: t.args + delta, ..t },
                        ),
                        ..self.state
                    },
                    ..self
                }.push(
                    FrameView {
                        event: "response.function_call_arguments.delta"@,
                        data: at_item(
                            "response.function_call_arguments.delta"@,
                            t.id,
                            t.output_index,
                        ).with("delta"@, Json::Str(delta)),
                    },
                ),
            },
            EventView::ToolCallDone { index } => match crate::wire::slots::slot_get(
                self.state.tools,
                index,
            ) {
                None => self,
                Some(t) => ResponsesStep {
                    state: ResponsesView {
                        tools: crate::wire::slots::slot_remove(self.state.tools, index),
                        ..self.state
                    },
                    ..self
                }.finish_tool(t),
            },
            EventView::Usage {
                input_tokens,
                output_tokens,
                total_tokens,
                cached_input_tokens,
                reasoning_tokens,
            } => ResponsesStep {
                state: ResponsesView {
                    usage: Some(
                        UsageCounts {
                            input: input_tokens,
                            output: output_tokens,
                            total: total_tokens,
                            cached: cached_input_tokens,
                            reasoning: reasoning_tokens,
                        },
                    ),
                    ..self.state
                },
                ..self
            },
            EventView::Completed => {
                let c = self.close_reasoning().close_message().close_open_tools();
                c.push(
                    FrameView {
                        event: "response.completed"@,
                        data: payload("response.completed"@).with(
                            "response"@,
                            c.state.completed_response(),
                        ),
                    },
                )
            },
            EventView::Error { message, status } => self.push(
                FrameView {
                    event: "response.failed"@,
                    data: payload("response.failed"@).with(
                        "response"@,
                        Json::obj().with("id"@, Json::Str(self.state.response_id)).with(
                            "status"@,
                            Json::Str("failed"@),
                        ).with(
                            "error"@,
                            Json::obj().with("code"@, Json::num(status as u64)).with(
                                "message"@,
                                Json::Str(message),
                            ),
                        ),
                    ),
                },
            ),
        }
    }
}

/// The frames, numbered from `n` on.
pub open spec fn numbered(frames: Seq<FrameView>, n: nat) -> Seq<FrameView> {
    Seq::new(
        frames.len(),
        |i: int|
            FrameView {
                data: frames[i].data.with("sequence_number"@, Json::num((n + i) as u64)),
                ..frames[i]
            },
    )
}

impl ResponsesView {
    /// The step on an event, its frames not numbered yet.
    pub open spec fn raw_step(self, ev: EventView, id: Seq<char>) -> ResponsesStep {
        ResponsesStep { state: self, frames: Seq::empty() }.on(ev, id)
    }

    /// The state after an event; an item that it opens is named `id`.
    pub open spec fn after(self, ev: EventView, id: Seq<char>) -> ResponsesView {
        let step = self.raw_step(ev, id);
        ResponsesView { seq: self.seq + step.frames.len(), ..step.state }
    }

    /// The frames of an event; an item that it opens is named `id`.
    pub open spec fn frames(self, ev: EventView, id: Seq<char>) -> Seq<FrameView> {
        numbered(self.raw_step(ev, id).frames, self.seq)
    }
}

struct OpenItem {
    id: String,
    output_index: u32,
}

impl View for OpenItem {
    type V = ItemView;

    closed spec fn view(&self) -> ItemView {
        ItemView { id: self.id@, output_index: self.output_index as nat }
    }
}

struct ToolItem {
    id: String,
    output_index: u32,
    call_id: String,
    name: String,
    args: String,
}

impl View for ToolItem {
    type V = ToolItemView;

    closed spec fn view(&self) -> ToolItemView {
        ToolItemView {
            id: self.id@,
            output_index: self.output_index as nat,
            call_id: self.call_id@,
            name: self.name@,
            args: self.args@,
        }
    }
}

/// Stateful translator: canonical events to Responses API SSE frames.
pub struct ResponsesEmitter {
    response_id: String,
    model: String,
    next_output_index: u32,
    reasoning_item: Option<OpenItem>,
    reasoning_text: String,
    message_item: Option<OpenItem>,
    message_text: String,
    tools: Slots<ToolItem>,
    usage: Option<UsageCounts>,
    final_items: Vec<JsonValue>,
    seq: u64,
}

impl View for ResponsesEmitter {
    type V = ResponsesView;

    closed spec fn view(&self) -> ResponsesView {
        ResponsesView {
            response_id: self.response_id@,
            model: self.model@,
            next_output_index: self.next_output_index as nat,
            reasoning_item: crate::text::opt_view(self.reasoning_item),
            reasoning_text: self.reasoning_text@,
            message_item: crate::text::opt_view(self.message_item),
            message_text: self.message_text@,
            tools: self.tools@,
            usage: self.usage,
            final_items: crate::json::values_view(self.final_items@),
            seq: self.seq as nat,
        }
    }
}

/// The prefix of the identifiers of the items that an event opens.
pub open spec fn item_prefix(ev: EventView) -> Seq<char> {
    match ev {
        EventView::ReasoningDelta { .. } => "rs"@,
        EventView::TextDelta { .. } => "msg"@,
        _ => "fc"@,
    }
}

/// Whether an event opens an item.
pub open spec fn opens_item(s: ResponsesView, ev: EventView) -> bool {
    match ev {
        EventView::ReasoningDelta { .. } => s.reasoning_item is None,
        EventView::TextDelta { .. } => s.message_item is None,
        EventView::ToolCallStart { .. } => true,
        _ => false,
    }
}

fn event_payload(name: &str) -> (r: JsonValue)
    ensures
        r@ == payload(name@),
{
    JsonValue::obj().with("type", JsonValue::str(name))
}

fn text_part_json(text: &str) -> (r: JsonValue)
    ensures
        r@ == text_part(text@),
{
    event_payload("output_text").with("text", JsonValue::str(text)).with(
        "annotations",
        JsonValue::array0(),
    )
}

fn item_frame(name: &str, output_index: u32, item: JsonValue) -> (r: SseFrame)
    ensures
        r@ == (FrameView {
            event: name@,
            data: payload(name@).with("output_index"@, Json::num(output_index as u64)).with(
                "item"@,
                item@,
            ),
        }),
{
    let data = event_payload(name).with("output_index", JsonValue::num(output_index as u64)).with(
        "item",
        item,
    );
    frame(name, data)
}

fn item_payload(name: &str, id: &str, output_index: u32) -> (r: JsonValue)
    ensures
        r@ == at_item(name@, id@, output_index as nat),
{
    event_payload(name).with("item_id", JsonValue::str(id)).with(
        "output_index",
        JsonValue::num(output_index as u64),
    )
}

fn call_item(id: &str, call_id: &str, name: &str, args: &str, status: &str) -> (r: JsonValue)
    ensures
        r@ == call_json(id@, call_id@, name@, args@, status@),
{
    event_payload("function_call").with("id", JsonValue::str(id)).with(
        "call_id",
        JsonValue::str(call_id),
    ).with("name", JsonValue::str(name)).with("arguments", JsonValue::str(args)).with(
        "status",
        JsonValue::str(status),
    )
}

/// The emitter with the frames given so far, as a step.
spec fn step_of(e: ResponsesEmitter, f: Seq<SseFrame>) -> ResponsesStep {
    ResponsesStep { state: e@, frames: crate::text::seq_view(f) }
}

impl ResponsesEmitter {
    pub fn new() -> (r: Self)
        ensures
            r@ == ResponsesView::initial(),
    {
        broadcast use crate::json::group_values;

        ResponsesEmitter {
            response_id: String::new(),
            model: String::new(),
            next_output_index: 0,
            reasoning_item: None,
            reasoning_text: String::new(),
            message_item: None,
            message_text: String::new(),
            tools: Slots::new(),
            usage: None,
            final_items: Vec::new(),
            seq: 0,
        }
    }

    /// Whether the counters leave room for one more event.
    pub fn has_space(&self) -> (r: bool)
        ensures
            r == self@.room(),
    {
        let used: u128 = self.seq as u128 + 2 * (self.tools.len() as u128) + 8;
        self.next_output_index < u32::MAX && used <= u64::MAX as u128
    }

    fn skeleton(&self, status: &str) -> (r: JsonValue)
        ensures
            r@ == self@.skeleton(status@),
    {
        JsonValue::obj().with("id", JsonValue::str(self.response_id.as_str())).with(
            "object",
            JsonValue::str("response"),
        ).with("status", JsonValue::str(status)).with(
            "model",
            JsonValue::str(self.model.as_str()),
        ).with("output", JsonValue::array0())
    }

    fn completed_response(&self) -> (r: JsonValue)
        ensures
            r@ == self@.completed_response(),
    {
        let u = usage_or_zero(self.usage);
        let output = JsonValue::copy_all(&self.final_items);
        let usage = JsonValue::obj().with("input_tokens", JsonValue::num(u.input as u64)).with(
            "input_tokens_details",
            JsonValue::obj().with("cached_tokens", JsonValue::num(u.cached as u64)),
        ).with("output_tokens", JsonValue::num(u.output as u64)).with(
            "output_tokens_details",
            JsonValue::obj().with("reasoning_tokens", JsonValue::num(u.reasoning as u64)),
        ).with("total_tokens", JsonValue::num(u.total as u64));
        JsonValue::obj().with("id", JsonValue::str(self.response_id.as_str())).with(
            "object",
            JsonValue::str("response"),
        ).with("status", JsonValue::str("completed")).with(
            "model",
            JsonValue::str(self.model.as_str()),
        ).with("output", JsonValue::Array(output)).with("usage", usage)
    }

    /// The full Responses object (valid after a `Completed` event has been processed).
    pub fn final_response(&self) -> (r: JsonValue)
        ensures
            r@ == self@.completed_response(),
    {
        self.completed_response()
    }

    fn open_reasoning(&mut self, f: &mut Vec<SseFrame>, id: &str)
        requires
            old(self)@.next_output_index < u32::MAX,
        ensures
            step_of(*final(self), final(f)@) == step_of(*old(self), old(f)@).open_reasoning(id@),
    {
        broadcast use crate::text::group_views;

        if self.reasoning_item.is_some() {
            return ;
        }
        let output_index = self.next_output_index;
        self.next_output_index = output_index + 1;
        let item = event_payload("reasoning").with("id", JsonValue::str(id)).with(
            "summary",
            JsonValue::array0(),
        );
        f.push(item_frame("response.output_item.added", output_index, item));
        self.reasoning_item = Some(OpenItem { id: id.to_owned(), output_index });
    }

    fn close_reasoning(&mut self, f: &mut Vec<SseFrame>)
        ensures
            step_of(*final(self), final(f)@) == step_of(*old(self), old(f)@).close_reasoning(),
    {
        broadcast use {crate::text::group_views, crate::json::group_values};

        match self.reasoning_item.take() {
            Some(item) => {
                let part = event_payload("summary_text").with(
                    "text",
                    JsonValue::str(self.reasoning_text.as_str()),
                );
                let j = event_payload("reasoning").with(
                    "id",
                    JsonValue::str(item.id.as_str()),
                ).with("summary", JsonValue::array1(part));
                let done = item_payload(
                    "response.reasoning_summary_text.done",
                    item.id.as_str(),
                    item.output_index,
                ).with("summary_index", JsonValue::num(0)).with(
                    "text",
                    JsonValue::str(self.reasoning_text.as_str()),
                );
                f.push(frame("response.reasoning_summary_text.done", done));
                f.push(item_frame("response.output_item.done", item.output_index, j.copy()));
                self.final_items.push(j);
            },
            None => {},
        }
    }

    fn open_message(&mut self, f: &mut Vec<SseFrame>, id: &str)
        requires
            old(self)@.next_output_index < u32::MAX,
        ensures
            step_of(*final(self), final(f)@) == step_of(*old(self), old(f)@).open_message(id@),
    {
        broadcast use crate::text::group_views;

        if self.message_item.is_some() {
            return ;
        }
        let output_index = self.next_output_index;
        self.next_output_index = output_index + 1;
        let item = event_payload("message").with("id", JsonValue::str(id)).with(
            "role",
            JsonValue::str("assistant"),
        ).with("status", JsonValue::str("in_progress")).with("content", JsonValue::array0());
        f.push(item_frame("response.output_item.added", output_index, item));
        let empty = String::new();
        let part = item_payload("response.content_part.added", id, output_index).with(
            "content_index",
            JsonValue::num(0),
        ).with("part", text_part_json(empty.as_str()));
        f.push(frame("response.content_part.added", part));
        self.message_item = Some(OpenItem { id: id.to_owned(), output_index });
    }

    fn close_message(&mut self, f: &mut Vec<SseFrame>)
        ensures
            step_of(*final(self), final(f)@) == step_of(*old(self), old(f)@).close_message(),
    {
        broadcast use {crate::text::group_views, crate::json::group_values};

        match self.message_item.take() {
            Some(item) => {
                let text = self.message_text.as_str();
                let id = item.id.as_str();
                let done = item_payload("response.output_text.done", id, item.output_index).with(
                    "content_index",
                    JsonValue::num(0),
                ).with("text", JsonValue::str(text));
                f.push(frame("response.output_text.done", done));
                let part = item_payload("response.content_part.done", id, item.output_index).with(
                    "content_index",
                    JsonValue::num(0),
                ).with("part", text_part_json(text));
                f.push(frame("response.content_part.done", part));
                let j = event_payload("message").with("id", JsonValue::str(id)).with(
                    "role",
                    JsonValue::str("assistant"),
                ).with("status", JsonValue::str("completed")).with(
                    "content",
                    JsonValue::array1(text_part_json(text)),
                );
                f.push(item_frame("response.output_item.done", item.output_index, j.copy()));
                self.final_items.push(j);
            },
            None => {},
        }
    }

    fn finish_tool(&mut self, f: &mut Vec<SseFrame>, t: ToolItem)
        ensures
            step_of(*final(self), final(f)@) == step_of(*old(self), old(f)@).finish_tool(t@),
            final(self).tools == old(self).tools,
    {
        broadcast use {crate::text::group_views, crate::json::group_values};

        let item = call_item(
            t.id.as_str(),
            t.call_id.as_str(),
            t.name.as_str(),
            t.args.as_str(),
            "completed",
        );
        let done = item_payload(
            "response.function_call_arguments.done",
            t.id.as_str(),
            t.output_index,
        ).with("arguments", JsonValue::str(t.args.as_str()));
        f.push(frame("response.function_call_arguments.done", done));
        f.push(item_frame("response.output_item.done", t.output_index, item.copy()));
        self.final_items.push(item);
    }

    fn close_open_tools(&mut self, f: &mut Vec<SseFrame>)
        ensures
            step_of(*final(self), final(f)@) == step_of(*old(self), old(f)@).close_open_tools(),
    {
        let ghost all = self.tools@;
        let mut open: Slots<ToolItem> = Slots::new();
        std::mem::swap(&mut open, &mut self.tools);
        let ghost start = step_of(*self, f@);
        let ghost mut done: int = 0;
        assert(all.skip(0) =~= all);
        assert(all.take(0) =~= Seq::empty());
        loop
            invariant
                0 <= done <= all.len(),
                open@ == all.skip(done),
                step_of(*self, f@) == start.finish_tools(all.take(done)),
            ensures
                done == all.len(),
            decreases all.len() - done,
        {
            match open.remove_first() {
                Some(t) => {
                    assert(all.take(done + 1).drop_last() =~= all.take(done));
                    assert(all.take(done + 1).last() == all[done]);
                    assert(all.skip(done)[0] == all[done]);
                    assert(all.skip(done).skip(1) =~= all.skip(done + 1));
                    self.finish_tool(f, t);
                    proof {
                        done = done + 1;
                    }
                },
                None => {
                    break ;
                },
            }
        }
        assert(all.take(done) =~= all);
    }

    /// Numbers the frames from the emitter's sequence number on.
    fn number(&mut self, f: Vec<SseFrame>) -> (r: Vec<SseFrame>)
        requires
            old(self)@.seq + f@.len() <= u64::MAX,
        ensures
            final(self)@ == (ResponsesView { seq: old(self)@.seq + f@.len(), ..old(self)@ }),
            crate::text::seq_view(r@) == numbered(crate::text::seq_view(f@), old(self)@.seq),
    {
        let ghost frames = crate::text::seq_view(f@);
        let ghost start = self@;
        let mut f = f;
        let mut i: usize = 0;
        while i < f.len()
            invariant
                i <= f@.len(),
                f@.len() == frames.len(),
                start.seq + f@.len() <= u64::MAX,
                self@ == (ResponsesView { seq: start.seq + i as nat, ..start }),
                forall|j: int| 0 <= j < i ==> (#[trigger] f@[j])@ == numbered(frames, start.seq)[j],
                forall|j: int| i <= j < f@.len() ==> (#[trigger] f@[j])@ == frames[j],
            decreases f@.len() - i,
        {
            let mut data = JsonValue::Null;
            std::mem::swap(&mut data, &mut f[i].data);
            f[i].data = data.with("sequence_number", JsonValue::num(self.seq));
            self.seq = self.seq + 1;
            i = i + 1;
        }
        assert(crate::text::seq_view(f@) =~= numbered(frames, start.seq));
        f
    }

    /// The frames of an event; an item that it opens is named `id`.
    pub fn on_event_with(&mut self, ev: &CanonicalEvent, id: &str) -> (r: Vec<SseFrame>)
        requires
            old(self)@.room(),
        ensures
            final(self)@ == old(self)@.after(ev@, id@),
            crate::text::seq_view(r@) == old(self)@.frames(ev@, id@),
    {
        broadcast use crate::text::group_views;

        let mut f: Vec<SseFrame> = Vec::new();
        let ghost start = step_of(*self, f@);
        assert(start.frames =~= Seq::empty());
        proof {
            lemma_frame_count(self@, ev@, id@);
        }
        match ev {
            CanonicalEvent::Created { response_id, model } => {
                self.response_id = response_id.clone();
                self.model = model.clone();
                let data = event_payload("response.created").with(
                    "response",
                    self.skeleton("in_progress"),
                );
                f.push(frame("response.created", data));
            },
            CanonicalEvent::ReasoningDelta { text } => {
                self.open_reasoning(&mut f, id);
                self.reasoning_text.append(text.as_str());
                match &self.reasoning_item {
                    Some(item) => {
                        let data = item_payload(
                            "response.reasoning_summary_text.delta",
                            item.id.as_str(),
                            item.output_index,
                        ).with("summary_index", JsonValue::num(0)).with(
                            "delta",
                            JsonValue::str(text.as_str()),
                        );
                        f.push(frame("response.reasoning_summary_text.delta", data));
                    },
                    None => {},
                }
            },
            CanonicalEvent::TextDelta { text } => {
                self.close_reasoning(&mut f);
                self.open_message(&mut f, id);
                self.message_text.append(text.as_str());
                match &self.message_item {
                    Some(item) => {
                        let data = item_payload(
                            "response.output_text.delta",
                            item.id.as_str(),
                            item.output_index,
                        ).with("content_index", JsonValue::num(0)).with(
                            "delta",
                            JsonValue::str(text.as_str()),
                        );
                        f.push(frame("response.output_text.delta", data));
                    },
                    None => {},
                }
            },
            CanonicalEvent::ToolCallStart { index, call_id, name } => {
                self.close_reasoning(&mut f);
                self.close_message(&mut f);
                let output_index = self.next_output_index;
                self.next_output_index = output_index + 1;
                let empty = String::new();
                proof {
                    reveal_strlit("");
                    assert(call_id@.len() == 0 ==> call_id@ =~= ""@);
                }
                let call_id = if str_eq(call_id.as_str(), "") {
                    id
                } else {
                    call_id.as_str()
                };
                let item = call_item(
                    id,
                    call_id,
                    name.as_str(),
                    empty.as_str(),
                    "in_progress",
                );
                f.push(item_frame("response.output_item.added", output_index, item));
                self.tools.set(
                    *index,
                    ToolItem {
                        id: id.to_owned(),
                        output_index,
                        call_id: call_id.to_owned(),
                        name: name.clone(),
                        args: String::new(),
                    },
                );
            },
            CanonicalEvent::ToolCallArgsDelta { index, delta } => {
                let _ = self.tools.len();
                let ghost open = self.tools@;
                match self.tools.remove(*index) {
                    Some(t) => {
                        let mut t = t;
                        t.args.append(delta.as_str());
                        let data = item_payload(
                            "response.function_call_arguments.delta",
                            t.id.as_str(),
                            t.output_index,
                        ).with("delta", JsonValue::str(delta.as_str()));
                        f.push(frame("response.function_call_arguments.delta", data));
                        proof {
                            crate::wire::slots::lemma_refill(open, *index, t@);
                        }
                        self.tools.set(*index, t);
                    },
                    None => {
                        proof {
                            crate::wire::slots::lemma_remove_absent(open, *index);
                        }
                    },
                }
            },
            CanonicalEvent::ToolCallDone { index } => {
                let ghost open = self.tools@;
                match self.tools.remove(*index) {
                    Some(t) => {
                        self.finish_tool(&mut f, t);
                    },
                    None => {
                        proof {
                            crate::wire::slots::lemma_remove_absent(open, *index);
                        }
                    },
                }
            },
            CanonicalEvent::Usage {
                input_tokens,
                output_tokens,
                total_tokens,
                cached_input_tokens,
                reasoning_tokens,
            } => {
                self.usage = Some(
                    UsageCounts {
                        input: *input_tokens,
                        output: *output_tokens,
                        total: *total_tokens,
                        cached: *cached_input_tokens,
                        reasoning: *reasoning_tokens,
                    },
                );
            },
            CanonicalEvent::Completed => {
                self.close_reasoning(&mut f);
                self.close_message(&mut f);
                self.close_open_tools(&mut f);
                let data = event_payload("response.completed").with(
                    "response",
                    self.completed_response(),
                );
                f.push(frame("response.completed", data));
            },
            CanonicalEvent::Error { message, status } => {
                let error = JsonValue::obj().with("code", JsonValue::num(*status as u64)).with(
                    "message",
                    JsonValue::str(message.as_str()),
                );
                let response = JsonValue::obj().with(
                    "id",
                    JsonValue::str(self.response_id.as_str()),
                ).with("status", JsonValue::str("failed")).with("error", error);
                let data = event_payload("response.failed").with("response", response);
                f.push(frame("response.failed", data));
            },
        }
        assert(step_of(*self, f@) == start.on(ev@, id@));
        self.number(f)
    }

    /// The frames of an event. An item that it opens gets a fresh identifier.
    pub fn on_event(&mut self, ev: &CanonicalEvent) -> (r: Vec<SseFrame>)
        requires
            old(self)@.room(),
        ensures
            exists|id: Seq<char>|
                (opens_item(old(self)@, ev@) ==> crate::wire::is_id(item_prefix(ev@), id))
                    && final(self)@ == #[trigger] old(self)@.after(ev@, id)
                    && crate::text::seq_view(r@) == old(self)@.frames(ev@, id),
    {
        let id = match ev {
            CanonicalEvent::ReasoningDelta { .. } if self.reasoning_item.is_none() => new_id("rs"),
            CanonicalEvent::TextDelta { .. } if self.message_item.is_none() => new_id("msg"),
            CanonicalEvent::ToolCallStart { .. } => new_id("fc"),
            _ => String::new(),
        };
        self.on_event_with(ev, id.as_str())
    }
}

impl CanonicalEmitter for ResponsesEmitter {
    open spec fn has_room(self) -> bool {
        self@.room()
    }

    open spec fn emits(self, ev: EventView, after: Self, frames: Seq<FrameView>) -> bool {
        exists|id: Seq<char>|
            (opens_item(self@, ev) ==> crate::wire::is_id(item_prefix(ev), id)) && after@
                == #[trigger] self@.after(ev, id) && frames == self@.frames(ev, id)
    }

    fn has_space(&self) -> (r: bool) {
        self.has_space()
    }

    fn emit(&mut self, ev: &CanonicalEvent) -> (r: Vec<SseFrame>) {
        self.on_event(ev)
    }
}

pub proof fn lemma_tool_frame_count(s: ResponsesStep, ts: Seq<(u32, ToolItemView)>)
    ensures
        s.finish_tools(ts).frames.len() == s.frames.len() + 2 * ts.len(),
        s.finish_tools(ts).state == (ResponsesView {
            final_items: s.finish_tools(ts).state.final_items,
            ..s.state
        }),
    decreases ts.len(),
{
    if ts.len() > 0 {
        lemma_tool_frame_count(s, ts.drop_last());
    }
}

/// How many frames an event can give; none of them is numbered on the way.
proof fn lemma_frame_count(s: ResponsesView, ev: EventView, id: Seq<char>)
    ensures
        s.raw_step(ev, id).state.seq == s.seq,
        s.raw_step(ev, id).frames.len() <= 2 * s.tools.len() + 8,
{
    if ev is Completed {
        let c = ResponsesStep {
            state: s,
            frames: Seq::empty(),
        }.close_reasoning().close_message();
        lemma_tool_frame_count(
            ResponsesStep { state: ResponsesView { tools: Seq::empty(), ..c.state }, ..c },
            c.state.tools,
        );
    }
}

} // verus!
