//! Provider-neutral request and streaming-event model. Every wire format
//! translates to and from these types, so no format is translated into another
//! directly.

use vstd::prelude::*;

use crate::json::{Json, JsonValue};
use crate::text::{clone_opt, clone_vec, str_eq};

verus! {

#[derive(Debug, PartialEq)]
pub struct CanonicalRequest {
    pub model: String,
    pub system: Option<String>,
    pub messages: Vec<Message>,
    pub tools: Vec<ToolDef>,
    pub tool_choice: ToolChoice,
    /// The sampling temperature, as the JSON number to be forwarded.
    pub temperature: Option<JsonValue>,
    /// The nucleus-sampling bound, as the JSON number to be forwarded.
    pub top_p: Option<JsonValue>,
    pub max_output_tokens: Option<u32>,
    pub reasoning_effort: Option<ReasoningEffort>,
    pub parallel_tool_calls: Option<bool>,
    pub stream: bool,
}

#[derive(Debug, PartialEq)]
pub enum Message {
    User(String),
    Assistant {
        text: Option<String>,
        reasoning_content: Option<String>,
        tool_calls: Vec<ToolCall>,
    },
    Tool { call_id: String, output: String },
}

#[derive(Debug, PartialEq)]
pub struct ToolCall {
    pub call_id: String,
    pub name: String,
    /// Raw JSON arguments string (as the model emits them).
    pub arguments: String,
}

#[derive(Debug, PartialEq)]
pub struct ToolDef {
    pub name: String,
    pub description: Option<String>,
    pub parameters: JsonValue,
}

#[derive(Debug, PartialEq, Eq)]
pub enum ToolChoice {
    Auto,
    /// No tool may be called.
    Never,
    Required,
    Function(String),
}

#[derive(Debug, Clone, Copy, PartialEq, Eq, Structural)]
pub enum ReasoningEffort {
    Minimal,
    Low,
    Medium,
    High,
    XHigh,
}

/// Provider-neutral streaming events. Every wire format serializes to or from this.
#[derive(Debug, PartialEq)]
pub enum CanonicalEvent {
    Created { response_id: String, model: String },
    ReasoningDelta { text: String },
    TextDelta { text: String },
    ToolCallStart { index: u32, call_id: String, name: String },
    ToolCallArgsDelta { index: u32, delta: String },
    ToolCallDone { index: u32 },
    Usage {
        input_tokens: u32,
        output_tokens: u32,
        total_tokens: u32,
        cached_input_tokens: u32,
        reasoning_tokens: u32,
    },
    Completed,
    Error { message: String, status: u16 },
}

/// The model of a `CanonicalRequest`.
pub struct RequestView {
    pub model: Seq<char>,
    pub system: Option<Seq<char>>,
    pub messages: Seq<MessageView>,
    pub tools: Seq<ToolDefView>,
    pub tool_choice: ToolChoiceView,
    pub temperature: Option<Json>,
    pub top_p: Option<Json>,
    pub max_output_tokens: Option<u32>,
    pub reasoning_effort: Option<ReasoningEffort>,
    pub parallel_tool_calls: Option<bool>,
    pub stream: bool,
}

/// The model of a `Message`.
pub enum MessageView {
    User(Seq<char>),
    Assistant {
        text: Option<Seq<char>>,
        reasoning_content: Option<Seq<char>>,
        tool_calls: Seq<ToolCallView>,
    },
    Tool { call_id: Seq<char>, output: Seq<char> },
}

/// The model of a `ToolCall`.
pub struct ToolCallView {
    pub call_id: Seq<char>,
    pub name: Seq<char>,
    pub arguments: Seq<char>,
}

/// The model of a `ToolDef`.
pub struct ToolDefView {
    pub name: Seq<char>,
    pub description: Option<Seq<char>>,
    pub parameters: Json,
}

/// The model of a `ToolChoice`.
pub enum ToolChoiceView {
    Auto,
    /// No tool may be called.
    Never,
    Required,
    Function(Seq<char>),
}

/// The model of a `CanonicalEvent`.
pub enum EventView {
    Created { response_id: Seq<char>, model: Seq<char> },
    ReasoningDelta { text: Seq<char> },
    TextDelta { text: Seq<char> },
    ToolCallStart { index: u32, call_id: Seq<char>, name: Seq<char> },
    ToolCallArgsDelta { index: u32, delta: Seq<char> },
    ToolCallDone { index: u32 },
    Usage {
        input_tokens: u32,
        output_tokens: u32,
        total_tokens: u32,
        cached_input_tokens: u32,
        reasoning_tokens: u32,
    },
    Completed,
    Error { message: Seq<char>, status: u16 },
}

impl View for CanonicalRequest {
    type V = RequestView;

    open spec fn view(&self) -> RequestView {
        RequestView {
            model: self.model@,
            system: crate::text::opt_view(self.system),
            messages: crate::text::seq_view(self.messages@),
            tools: crate::text::seq_view(self.tools@),
            tool_choice: self.tool_choice@,
            temperature: crate::text::opt_view(self.temperature),
            top_p: crate::text::opt_view(self.top_p),
            max_output_tokens: self.max_output_tokens,
            reasoning_effort: self.reasoning_effort,
            parallel_tool_calls: self.parallel_tool_calls,
            stream: self.stream,
        }
    }
}

impl View for Message {
    type V = MessageView;

    open spec fn view(&self) -> MessageView {
        match *self {
            Message::User(text) => MessageView::User(text@),
            Message::Assistant { text, reasoning_content, tool_calls } => MessageView::Assistant {
                text: crate::text::opt_view(text),
                reasoning_content: crate::text::opt_view(reasoning_content),
                tool_calls: crate::text::seq_view(tool_calls@),
            },
            Message::Tool { call_id, output } => MessageView::Tool {
                call_id: call_id@,
                output: output@,
            },
        }
    }
}

impl View for ToolCall {
    type V = ToolCallView;

    open spec fn view(&self) -> ToolCallView {
        ToolCallView {
            call_id: self.call_id@,
            name: self.name@,
            arguments: self.arguments@,
        }
    }
}

impl View for ToolDef {
    type V = ToolDefView;

    open spec fn view(&self) -> ToolDefView {
        ToolDefView {
            name: self.name@,
            description: crate::text::opt_view(self.description),
            parameters: self.parameters@,
        }
    }
}

impl View for ToolChoice {
    type V = ToolChoiceView;

    open spec fn view(&self) -> ToolChoiceView {
        match *self {
            ToolChoice::Auto => ToolChoiceView::Auto,
            ToolChoice::Never => ToolChoiceView::Never,
            ToolChoice::Required => ToolChoiceView::Required,
            ToolChoice::Function(name) => ToolChoiceView::Function(name@),
        }
    }
}

impl View for CanonicalEvent {
    type V = EventView;

    open spec fn view(&self) -> EventView {
        match *self {
            CanonicalEvent::Created { response_id, model } => EventView::Created {
                response_id: response_id@,
                model: model@,
            },
            CanonicalEvent::ReasoningDelta { text } => EventView::ReasoningDelta { text: text@ },
            CanonicalEvent::TextDelta { text } => EventView::TextDelta { text: text@ },
            CanonicalEvent::ToolCallStart { index, call_id, name } => EventView::ToolCallStart {
                index,
                call_id: call_id@,
                name: name@,
            },
            CanonicalEvent::ToolCallArgsDelta { index, delta } => EventView::ToolCallArgsDelta {
                index,
                delta: delta@,
            },
            CanonicalEvent::ToolCallDone { index } => EventView::ToolCallDone { index },
            CanonicalEvent::Usage {
                input_tokens,
                output_tokens,
                total_tokens,
                cached_input_tokens,
                reasoning_tokens,
            } => EventView::Usage {
                input_tokens,
                output_tokens,
                total_tokens,
                cached_input_tokens,
                reasoning_tokens,
            },
            CanonicalEvent::Completed => EventView::Completed,
            CanonicalEvent::Error { message, status } => EventView::Error {
                message: message@,
                status,
            },
        }
    }
}

impl Clone for ToolCall {
    fn clone(&self) -> (r: Self)
        ensures
            r@ == self@,
    {
        ToolCall {
            call_id: self.call_id.clone(),
            name: self.name.clone(),
            arguments: self.arguments.clone(),
        }
    }
}

impl Clone for Message {
    fn clone(&self) -> (r: Self)
        ensures
            r@ == self@,
    {
        match self {
            Message::User(text) => Message::User(text.clone()),
            Message::Assistant { text, reasoning_content, tool_calls } => Message::Assistant {
                text: clone_opt(text),
                reasoning_content: clone_opt(reasoning_content),
                tool_calls: clone_vec(tool_calls),
            },
            Message::Tool { call_id, output } => Message::Tool {
                call_id: call_id.clone(),
                output: output.clone(),
            },
        }
    }
}

impl Default for ToolChoice {
    /// A model that is not told otherwise chooses for itself.
    fn default() -> (r: Self)
        ensures
            r@ == ToolChoiceView::Auto,
    {
        ToolChoice::Auto
    }
}

/// The name by which an effort goes on the wire.
pub open spec fn effort_name(e: ReasoningEffort) -> Seq<char> {
    match e {
        ReasoningEffort::Minimal => "minimal"@,
        ReasoningEffort::Low => "low"@,
        ReasoningEffort::Medium => "medium"@,
        ReasoningEffort::High => "high"@,
        ReasoningEffort::XHigh => "xhigh"@,
    }
}

/// The effort that goes by the name `s`.
pub open spec fn effort_named(s: Seq<char>) -> Option<ReasoningEffort> {
    if s == "minimal"@ {
        Some(ReasoningEffort::Minimal)
    } else if s == "low"@ {
        Some(ReasoningEffort::Low)
    } else if s == "medium"@ {
        Some(ReasoningEffort::Medium)
    } else if s == "high"@ {
        Some(ReasoningEffort::High)
    } else if s == "xhigh"@ {
        Some(ReasoningEffort::XHigh)
    } else {
        None
    }
}

impl ReasoningEffort {
    pub fn as_str(self) -> (r: &'static str)
        ensures
            r@ == effort_name(self),
    {
        match self {
            ReasoningEffort::Minimal => "minimal",
            ReasoningEffort::Low => "low",
            ReasoningEffort::Medium => "medium",
            ReasoningEffort::High => "high",
            ReasoningEffort::XHigh => "xhigh",
        }
    }

    pub fn from_str_opt(s: &str) -> (r: Option<Self>)
        ensures
            r == effort_named(s@),
    {
        if str_eq(s, "minimal") {
            Some(ReasoningEffort::Minimal)
        } else if str_eq(s, "low") {
            Some(ReasoningEffort::Low)
        } else if str_eq(s, "medium") {
            Some(ReasoningEffort::Medium)
        } else if str_eq(s, "high") {
            Some(ReasoningEffort::High)
        } else if str_eq(s, "xhigh") {
            Some(ReasoningEffort::XHigh)
        } else {
            None
        }
    }
}

/// Every effort is read back from its name, and a name that is read is the name
/// of what was read.
pub proof fn effort_names_round_trip(e: ReasoningEffort, s: Seq<char>)
    ensures
        effort_named(effort_name(e)) == Some(e),
        effort_named(s) matches Some(f) ==> effort_name(f) == s,
{
    reveal_strlit("minimal");
    reveal_strlit("low");
    reveal_strlit("medium");
    reveal_strlit("high");
    reveal_strlit("xhigh");
    assert("minimal"@.len() == 7);
    assert("low"@.len() == 3);
    assert("medium"@.len() == 6);
    assert("high"@.len() == 4);
    assert("xhigh"@.len() == 5);
}

/// The texts of the text deltas, in a row.
pub open spec fn said(evs: Seq<EventView>) -> Seq<char>
    decreases evs.len(),
{
    if evs.len() == 0 {
        Seq::empty()
    } else {
        said(evs.drop_last()) + (match evs.last() {
            EventView::TextDelta { text } => text,
            _ => Seq::empty(),
        })
    }
}

/// The texts of the reasoning deltas, in a row.
pub open spec fn reasoned(evs: Seq<EventView>) -> Seq<char>
    decreases evs.len(),
{
    if evs.len() == 0 {
        Seq::empty()
    } else {
        reasoned(evs.drop_last()) + (match evs.last() {
            EventView::ReasoningDelta { text } => text,
            _ => Seq::empty(),
        })
    }
}

} // verus!
