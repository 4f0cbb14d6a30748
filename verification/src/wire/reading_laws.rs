//! What a client's request is read as: every part of a body is found again in the request
//! that it makes, in all three dialects.

use vstd::prelude::*;

use crate::canonical::{
    MessageView, ReasoningEffort, RequestView, ToolCallView, ToolChoiceView,
    ToolDefView,
};
use crate::error::ErrorView;
use crate::json::Json;
use crate::wire::responses::InputView;

verus! {

/// The texts of the parts of a content, in a row.
pub open spec fn texts_in_a_row(parts: Seq<Json>) -> Seq<char> {
    parts.map_values(|p: Json| p.str_or_empty("text"@)).flatten()
}

/// What a content says: itself where it is a string, and its parts in a row where it is
/// an array.
pub open spec fn content_says(content: Option<Json>, text: Seq<char>) -> bool {
    match content {
        Some(Json::Str(s)) => text == s,
        Some(Json::Arr(parts)) => text == texts_in_a_row(parts),
        _ => text.len() == 0,
    }
}

/// Whether `m` is an object with the string `s` under `key`.
pub open spec fn says(m: Json, key: Seq<char>, s: Seq<char>) -> bool {
    m.get(key) == Some(Json::Str(s))
}

pub proof fn lemma_joined_texts(parts: Seq<Json>)
    ensures
        crate::wire::joined_texts(parts) == texts_in_a_row(parts),
    decreases parts.len(),
{
    let f = |p: Json| p.str_or_empty("text"@);
    if parts.len() == 0 {
        assert(parts.map_values(f) =~= Seq::empty());
    } else {
        let init = parts.drop_last();
        lemma_joined_texts(init);
        init.map_values(f).lemma_flatten_push(f(parts.last()));
        assert(init.map_values(f).push(f(parts.last())) =~= parts.map_values(f));
    }
}

// ---------------------------------------------------------------------------
// The Responses dialect
// ---------------------------------------------------------------------------

proof fn lemma_item_kinds()
    ensures
        "message"@ != "function_call"@,
        "message"@ != "function_call_output"@,
        "message"@ != "reasoning"@,
        "function_call"@ != "function_call_output"@,
        "function_call"@ != "reasoning"@,
        "function_call_output"@ != "reasoning"@,
        "system"@ != "assistant"@,
        "developer"@ != "assistant"@,
        "user"@ != "assistant"@,
        "user"@ != "system"@,
        "user"@ != "developer"@,
        "assistant"@ != "user"@,
{
    reveal_strlit("message");
    reveal_strlit("function_call");
    reveal_strlit("function_call_output");
    reveal_strlit("reasoning");
    reveal_strlit("system");
    reveal_strlit("developer");
    reveal_strlit("assistant");
    reveal_strlit("user");
    assert("message"@.len() == 7 && "function_call"@.len() == 13);
    assert("function_call_output"@.len() == 20 && "reasoning"@.len() == 9);
    assert("system"@.len() == 6 && "developer"@.len() == 9 && "assistant"@.len() == 9);
    assert("user"@.len() == 4);
    assert("developer"@[0] == 'd' && "assistant"@[0] == 'a');
}

/// An item that is a message: it says so, or it names no type.
pub open spec fn is_message_item(item: Json) -> bool {
    says(item, "type"@, "message"@) || item.get_str("type"@) is None
}

/// A message of the system or the developer has its text in the system prompt: behind what
/// stood there and a line feed, or alone. It adds no turn.
pub proof fn system_items_join_the_prompt(s: InputView, item: Json, text: Seq<char>)
    requires
        is_message_item(item),
        says(item, "role"@, "system"@) || says(item, "role"@, "developer"@),
        content_says(item.get("content"@), text),
    ensures
        s.after(item).messages == s.messages,
        s.after(item).pending == s.pending,
        s.system is None ==> s.after(item).system == Some(text),
        s.system matches Some(before) ==> s.after(item).system == Some(before + "\n"@ + text),
{
    lemma_item_kinds();
    if let Some(Json::Arr(parts)) = item.get("content"@) {
        lemma_joined_texts(parts);
    }
    assert(text.len() == 0 ==> text =~= Seq::empty());
}

/// A message of the user, which is one that names no other role, is a turn with its text.
pub proof fn user_items_are_turns(s: InputView, item: Json, text: Seq<char>)
    requires
        is_message_item(item),
        !says(item, "role"@, "system"@),
        !says(item, "role"@, "developer"@),
        !says(item, "role"@, "assistant"@),
        content_says(item.get("content"@), text),
    ensures
        s.after(item).messages == s.messages.push(MessageView::User(text)),
        s.after(item).system == s.system,
        s.after(item).pending is None,
{
    lemma_item_kinds();
    if let Some(Json::Arr(parts)) = item.get("content"@) {
        lemma_joined_texts(parts);
    }
    assert(text.len() == 0 ==> text =~= Seq::empty());
}

/// A message of the assistant is a turn with its text, and with the reasoning that waited.
pub proof fn assistant_items_are_turns(s: InputView, item: Json, text: Seq<char>)
    requires
        is_message_item(item),
        says(item, "role"@, "assistant"@),
        content_says(item.get("content"@), text),
    ensures
        s.after(item).messages == s.messages.push(
            MessageView::Assistant {
                text: Some(text),
                reasoning_content: s.pending,
                tool_calls: Seq::empty(),
            },
        ),
        s.after(item).system == s.system,
        s.after(item).pending is None,
{
    lemma_item_kinds();
    if let Some(Json::Arr(parts)) = item.get("content"@) {
        lemma_joined_texts(parts);
    }
    assert(text.len() == 0 ==> text =~= Seq::empty());
}

/// A call is the last call of the assistant's turn at the end of the conversation: of the
/// turn that is open, whose text and earlier calls stay, or else of a new one without text.
/// The reasoning that waited goes with it, unless the turn has its own.
pub proof fn call_items_join_the_turn(s: InputView, item: Json)
    requires
        says(item, "type"@, "function_call"@),
    ensures
        ({
            let call = ToolCallView {
                call_id: item.str_or_empty("call_id"@),
                name: item.str_or_empty("name"@),
                arguments: item.str_or_empty("arguments"@),
            };
            let t = s.after(item);
            &&& t.system == s.system
            &&& if s.messages.len() > 0 && s.messages.last() is Assistant {
                &&& t.messages.len() == s.messages.len()
                &&& t.messages.drop_last() == s.messages.drop_last()
                &&& t.messages.last() is Assistant
                &&& t.messages.last()->Assistant_text == s.messages.last()->Assistant_text
                &&& t.messages.last()->tool_calls == s.messages.last()->tool_calls.push(call)
                &&& s.messages.last()->reasoning_content is Some ==> {
                    &&& t.messages.last()->reasoning_content
                        == s.messages.last()->reasoning_content
                    &&& t.pending == s.pending
                }
                &&& s.messages.last()->reasoning_content is None ==> {
                    &&& t.messages.last()->reasoning_content == s.pending
                    &&& t.pending is None
                }
            } else {
                &&& t.messages == s.messages.push(
                    MessageView::Assistant {
                        text: None,
                        reasoning_content: s.pending,
                        tool_calls: seq![call],
                    },
                )
                &&& t.pending is None
            }
        }),
{
    lemma_item_kinds();
    let t = s.after(item);
    if s.messages.len() > 0 && s.messages.last() is Assistant {
        assert(t.messages.drop_last() =~= s.messages.drop_last());
    }
}

/// The output of a call is a turn with the call's identifier and the output; one that is no
/// string is given as its JSON text.
pub proof fn output_items_are_turns(s: InputView, item: Json)
    requires
        says(item, "type"@, "function_call_output"@),
    ensures
        ({
            let t = s.after(item);
            &&& t.messages.len() == s.messages.len() + 1
            &&& t.messages.drop_last() == s.messages
            &&& t.messages.last() is Tool
            &&& t.messages.last()->call_id == item.str_or_empty("call_id"@)
            &&& match item.get("output"@) {
                Some(Json::Str(o)) => t.messages.last()->output == o,
                Some(other) => t.messages.last()->output == crate::json::json_text(other),
                None => t.messages.last()->output.len() == 0,
            }
            &&& t.system == s.system
            &&& t.pending is None
        }),
{
    lemma_item_kinds();
    assert(s.after(item).messages.drop_last() =~= s.messages);
}

/// Reasoning waits for the turn that it belongs to, where it says something.
pub proof fn reasoning_items_wait(s: InputView, item: Json)
    requires
        says(item, "type"@, "reasoning"@),
    ensures
        ({
            let text = match item.get("summary"@) {
                Some(Json::Arr(parts)) => texts_in_a_row(parts),
                _ => Seq::empty(),
            };
            let t = s.after(item);
            &&& t.messages == s.messages && t.system == s.system
            &&& text.len() > 0 ==> t.pending == Some(text)
            &&& text.len() == 0 ==> t.pending == s.pending
        }),
{
    lemma_item_kinds();
    if let Some(Json::Arr(parts)) = item.get("summary"@) {
        lemma_joined_texts(parts);
    }
}

/// Items are read one after the other, from the first to the last.
pub proof fn items_are_read_in_order(s: InputView, items: Seq<Json>, more: Seq<Json>)
    ensures
        s.after_all(items + more) == s.after_all(items).after_all(more),
        items.len() == 0 ==> s.after_all(items) == s,
        items.len() == 1 ==> s.after_all(items) == s.after(items[0]),
    decreases more.len(),
{
    if more.len() == 0 {
        assert(items + more =~= items);
    } else {
        items_are_read_in_order(s, items, more.drop_last());
        assert((items + more).drop_last() =~= items + more.drop_last());
        assert((items + more).last() == more.last());
    }
    if items.len() == 1 {
        reveal_with_fuel(InputView::after_all, 2);
        assert(items.drop_last() =~= Seq::empty());
    }
}

/// A body of the Responses dialect is refused where it is no object, names no model, or has
/// an `input` that is neither a string nor an array; and otherwise only for a tool without a
/// name. Where it is read, the request has the body's model, and what its instructions and
/// its input say: a string is one turn of the user, and an array is read item by item.
pub proof fn responses_bodies_are_read(body: Json)
    ensures
        !(body is Obj) ==> crate::wire::responses::parsed_request(body) == Err::<
            RequestView,
            ErrorView,
        >(ErrorView::BadRequest("body must be a JSON object"@)),
        body is Obj && body.get_str("model"@) is None
            ==> crate::wire::responses::parsed_request(body) == Err::<RequestView, ErrorView>(
            ErrorView::BadRequest("missing `model`"@),
        ),
        body.get_str("model"@) is Some && (body.get("input"@) matches Some(i) && !(i is Str)
            && !(i is Arr)) ==> crate::wire::responses::parsed_request(body) == Err::<
            RequestView,
            ErrorView,
        >(ErrorView::BadRequest("`input` must be string or array"@)),
        crate::wire::responses::parsed_request(body) matches Ok(req) ==> {
            &&& says(body, "model"@, req.model)
            &&& match body.get("input"@) {
                None => req.messages.len() == 0 && req.system == body.get_str("instructions"@),
                Some(Json::Str(s)) => req.messages == seq![MessageView::User(s)] && req.system
                    == body.get_str("instructions"@),
                Some(Json::Arr(items)) => {
                    let t = InputView {
                        messages: Seq::empty(),
                        system: body.get_str("instructions"@),
                        pending: None,
                    }.after_all(items);
                    req.messages == t.messages && req.system == t.system
                },
                Some(_) => false,
            }
        },
{
}

/// Whether `got` is the number that the body has under `key`.
pub open spec fn number_read(body: Json, key: Seq<char>, got: Option<Json>) -> bool {
    match body.get(key) {
        Some(Json::Number(n)) => got == Some(Json::Number(n)),
        _ => got is None,
    }
}

/// Whether `got` is the count that the body has under `key`, which is kept to thirty-two
/// bits.
pub open spec fn count_read(body: Json, key: Seq<char>, got: Option<u32>) -> bool {
    match body.get_u64(key) {
        Some(n) => got matches Some(c) && c == n % 0x1_0000_0000,
        None => got is None,
    }
}

/// Whether `got` says that the body has a true flag under `key`.
pub open spec fn flag_read(body: Json, key: Seq<char>, got: bool) -> bool {
    got <==> body.get(key) == Some(Json::Bool(true))
}

/// Whether `got` is the effort that goes by the name in `v`.
pub open spec fn effort_read(v: Option<Json>, got: Option<ReasoningEffort>) -> bool {
    &&& got == Some(ReasoningEffort::Minimal) <==> v == Some(Json::Str("minimal"@))
    &&& got == Some(ReasoningEffort::Low) <==> v == Some(Json::Str("low"@))
    &&& got == Some(ReasoningEffort::Medium) <==> v == Some(Json::Str("medium"@))
    &&& got == Some(ReasoningEffort::High) <==> v == Some(Json::Str("high"@))
    &&& got == Some(ReasoningEffort::XHigh) <==> v == Some(Json::Str("xhigh"@))
}

pub proof fn lemma_efforts(s: Seq<char>)
    ensures
        effort_read(Some(Json::Str(s)), crate::canonical::effort_named(s)),
{
    reveal_strlit("minimal");
    reveal_strlit("low");
    reveal_strlit("medium");
    reveal_strlit("high");
    reveal_strlit("xhigh");
    assert("minimal"@.len() == 7 && "low"@.len() == 3 && "medium"@.len() == 6);
    assert("high"@.len() == 4 && "xhigh"@.len() == 5);
}

proof fn lemma_choices()
    ensures
        "auto"@ != "none"@,
        "auto"@ != "required"@,
        "none"@ != "required"@,
        "auto"@ != "any"@,
        "auto"@ != "tool"@,
        "any"@ != "none"@,
        "any"@ != "tool"@,
        "none"@ != "tool"@,
{
    reveal_strlit("auto");
    reveal_strlit("none");
    reveal_strlit("required");
    reveal_strlit("any");
    reveal_strlit("tool");
    assert("auto"@.len() == 4 && "none"@.len() == 4 && "required"@.len() == 8);
    assert("any"@.len() == 3 && "tool"@.len() == 4);
    assert("auto"@[0] == 'a' && "none"@[0] == 'n' && "tool"@[0] == 't');
}

/// The settings of a body of the Responses dialect are those of the request.
pub proof fn responses_settings_are_read(body: Json, req: RequestView)
    requires
        crate::wire::responses::parsed_request(body) == Ok::<RequestView, ErrorView>(req),
    ensures
        number_read(body, "temperature"@, req.temperature),
        number_read(body, "top_p"@, req.top_p),
        count_read(body, "max_output_tokens"@, req.max_output_tokens),
        flag_read(body, "stream"@, req.stream),
        req.parallel_tool_calls == body.get_bool("parallel_tool_calls"@),
        effort_read(body.get2("reasoning"@, "effort"@), req.reasoning_effort),
{
    if let Some(Json::Str(s)) = body.get2("reasoning"@, "effort"@) {
        lemma_efforts(s);
    }
}

/// The tool choice of a body of the Responses dialect is that of the request: a word for
/// none, for any or for as the model likes, which is also what is meant without a choice;
/// or the name of a function.
pub proof fn responses_choices_are_read(body: Json, req: RequestView, name: Seq<char>)
    requires
        crate::wire::responses::parsed_request(body) == Ok::<RequestView, ErrorView>(req),
    ensures
        body.get("tool_choice"@) is None ==> req.tool_choice is Auto,
        says(body, "tool_choice"@, "auto"@) ==> req.tool_choice is Auto,
        says(body, "tool_choice"@, "none"@) <==> req.tool_choice is Never,
        says(body, "tool_choice"@, "required"@) <==> req.tool_choice is Required,
        req.tool_choice == ToolChoiceView::Function(name) <==> body.get2("tool_choice"@, "name"@)
            == Some(Json::Str(name)),
{
    lemma_choices();
}

/// Whether `got` is the tool that `t` defines, with its schema under `key`.
pub open spec fn tool_read(t: Json, key: Seq<char>, got: ToolDefView) -> bool {
    &&& says(t, "name"@, got.name)
    &&& got.description == t.get_str("description"@)
    &&& match t.get(key) {
        Some(p) => got.parameters == p,
        None => got.parameters is Null,
    }
}

/// Whether an entry of `tools` is a function.
pub open spec fn is_function(t: Json) -> bool {
    says(t, "type"@, "function"@)
}

/// Whether one of the entries is a function without a name.
pub open spec fn has_nameless(items: Seq<Json>) -> bool {
    exists|i: int|
        0 <= i < items.len() && is_function(#[trigger] items[i]) && items[i].get_str(
            "name"@,
        ) is None
}

/// The functions among the entries.
pub open spec fn functions_in(items: Seq<Json>) -> Seq<Json> {
    items.filter(|t: Json| is_function(t))
}

proof fn lemma_responses_tools(items: Seq<Json>)
    ensures
        match crate::wire::responses::parsed_tools(items) {
            Ok(ts) => {
                let fs = functions_in(items);
                &&& ts.len() == fs.len()
                &&& forall|i: int|
                    0 <= i < ts.len() ==> tool_read(fs[i], "parameters"@, #[trigger] ts[i])
            },
            Err(e) => e == ErrorView::BadRequest("tool missing `name`"@) && has_nameless(items),
        },
        has_nameless(items) ==> crate::wire::responses::parsed_tools(items) is Err,
    decreases items.len(),
{
    reveal(Seq::filter);
    if items.len() > 0 {
        let init = items.drop_last();
        let t = items.last();
        lemma_responses_tools(init);
        assert(t == items[items.len() - 1]);
        if crate::wire::responses::parsed_tools(init) is Err {
            let i = choose|i: int|
                0 <= i < init.len() && is_function(#[trigger] init[i]) && init[i].get_str(
                    "name"@,
                ) is None;
            assert(items[i] == init[i]);
        }
        if has_nameless(items) {
            let i = choose|i: int|
                0 <= i < items.len() && is_function(#[trigger] items[i]) && items[i].get_str(
                    "name"@,
                ) is None;
            if i < init.len() {
                assert(init[i] == items[i]);
            }
        }
        if let Ok(ts) = crate::wire::responses::parsed_tools(items) {
            let fs = functions_in(items);
            let before = functions_in(init);
            if is_function(t) {
                assert(fs =~= before.push(t));
            } else {
                assert(fs =~= before);
            }
            assert forall|i: int| 0 <= i < ts.len() implies tool_read(
                fs[i],
                "parameters"@,
                #[trigger] ts[i],
            ) by {
                if i < before.len() {
                    let old_ts = crate::wire::responses::parsed_tools(init)->Ok_0;
                    assert(old_ts[i] == ts[i]);
                    assert(fs[i] == before[i]);
                }
            }
        }
    }
}

/// The tools of a body of the Responses dialect are those of the request: its functions, in
/// their order, each with its name, its description and its schema. A function without a
/// name is refused.
pub proof fn responses_tools_are_read(body: Json)
    ensures
        ({
            let items = match body.get("tools"@) {
                Some(Json::Arr(a)) => a,
                _ => Seq::empty(),
            };
            let fs = functions_in(items);
            match crate::wire::responses::parsed_request(body) {
                Ok(req) => {
                    &&& !has_nameless(items)
                    &&& req.tools.len() == fs.len()
                    &&& forall|i: int|
                        0 <= i < fs.len() ==> tool_read(
                            fs[i],
                            "parameters"@,
                            #[trigger] req.tools[i],
                        )
                },
                Err(e) => body.get_str("model"@) is Some && !(body.get("input"@) matches Some(i)
                    && !(i is Str) && !(i is Arr)) ==> has_nameless(items) && e == ErrorView::BadRequest(
                    "tool missing `name`"@,
                ),
            }
        }),
{
    let items = match body.get("tools"@) {
        Some(Json::Arr(a)) => a,
        _ => Seq::empty(),
    };
    lemma_responses_tools(items);
    assert(crate::wire::items_of(body.get("tools"@)) == items);
    if body.get_str("model"@) is Some {
        assert(body is Obj);
    }
}

// ---------------------------------------------------------------------------
// The Messages dialect
// ---------------------------------------------------------------------------

/// Whether a block is of a kind.
pub open spec fn is_kind(b: Json, kind: Seq<char>) -> bool {
    says(b, "type"@, kind)
}

/// The blocks of a kind, in their order.
pub open spec fn of_kind(blocks: Seq<Json>, kind: Seq<char>) -> Seq<Json> {
    blocks.filter(|b: Json| is_kind(b, kind))
}

/// The texts of the blocks of text, in a row.
pub open spec fn block_texts(blocks: Seq<Json>) -> Seq<char> {
    texts_in_a_row(of_kind(blocks, "text"@))
}

/// Whether `m` is the turn that reports a tool result.
pub open spec fn result_read(b: Json, m: MessageView) -> bool {
    &&& m is Tool
    &&& m->call_id == b.str_or_empty("tool_use_id"@)
    &&& match b.get("content"@) {
        Some(Json::Str(s)) => m->output == s,
        Some(Json::Arr(parts)) => m->output == texts_in_a_row(parts),
        Some(other) => m->output == crate::json::json_text(other),
        None => m->output.len() == 0,
    }
}

proof fn lemma_texts_push(parts: Seq<Json>, p: Json)
    ensures
        texts_in_a_row(parts.push(p)) == texts_in_a_row(parts) + p.str_or_empty("text"@),
{
    let f = |p: Json| p.str_or_empty("text"@);
    parts.map_values(f).lemma_flatten_push(f(p));
    assert(parts.map_values(f).push(f(p)) =~= parts.push(p).map_values(f));
}

proof fn lemma_user_text(blocks: Seq<Json>)
    ensures
        crate::wire::anthropic::user_text(blocks) == block_texts(blocks),
    decreases blocks.len(),
{
    reveal(Seq::filter);
    if blocks.len() == 0 {
        lemma_joined_texts(Seq::empty());
        assert(of_kind(blocks, "text"@) =~= Seq::empty());
    } else {
        let init = blocks.drop_last();
        lemma_user_text(init);
        if is_kind(blocks.last(), "text"@) {
            assert(of_kind(blocks, "text"@) =~= of_kind(init, "text"@).push(blocks.last()));
            lemma_texts_push(of_kind(init, "text"@), blocks.last());
        } else {
            assert(of_kind(blocks, "text"@) =~= of_kind(init, "text"@));
        }
    }
}

proof fn lemma_results(blocks: Seq<Json>)
    ensures
        ({
            let got = blocks.filter_map(|b: Json| crate::wire::anthropic::parsed_result(b));
            let all = of_kind(blocks, "tool_result"@);
            &&& got.len() == all.len()
            &&& forall|i: int| 0 <= i < got.len() ==> result_read(all[i], #[trigger] got[i])
        }),
    decreases blocks.len(),
{
    reveal(Seq::filter);
    let f = |b: Json| crate::wire::anthropic::parsed_result(b);
    let got = blocks.filter_map(f);
    let all = of_kind(blocks, "tool_result"@);
    if blocks.len() > 0 {
        let init = blocks.drop_last();
        let b = blocks.last();
        lemma_results(init);
        let n = blocks.len() - 1;
        blocks.lemma_filter_map_take_succ(f, n);
        assert(blocks.take(n) =~= init);
        assert(blocks.take(n + 1) =~= blocks);
        let before = of_kind(init, "tool_result"@);
        if let Some(Json::Arr(parts)) = b.get("content"@) {
            lemma_joined_texts(parts);
        }
        if is_kind(b, "tool_result"@) {
            assert(all =~= before.push(b));
        } else {
            assert(all =~= before);
        }
        assert forall|i: int| 0 <= i < got.len() implies result_read(all[i], #[trigger] got[i]) by {
            if i < before.len() {
                assert(all[i] == before[i]);
                assert(got[i] == init.filter_map(f)[i]);
            }
        }
    } else {
        assert(blocks.take(0) =~= blocks);
        assert(got =~= Seq::empty());
    }
}

/// What a user's message is read as: a string is one turn; and blocks are the tool results
/// among them, each a turn, in their order, and then the texts among them, in a row, as one
/// turn of the user, where they say something.
pub proof fn user_messages_are_read(content: Option<Json>)
    ensures
        ({
            let turns = crate::wire::anthropic::parsed_turns("user"@, content);
            match content {
                Some(Json::Str(s)) => turns == seq![MessageView::User(s)],
                Some(Json::Arr(blocks)) => {
                    let results = of_kind(blocks, "tool_result"@);
                    let text = block_texts(blocks);
                    &&& turns.len() == results.len() + if text.len() > 0 {
                        1int
                    } else {
                        0
                    }
                    &&& forall|i: int|
                        0 <= i < results.len() ==> result_read(results[i], #[trigger] turns[i])
                    &&& text.len() > 0 ==> turns.last() == MessageView::User(text)
                },
                _ => turns.len() == 0,
            }
        }),
{
    if let Some(Json::Arr(blocks)) = content {
        lemma_user_text(blocks);
        lemma_results(blocks);
        let got = blocks.filter_map(|b: Json| crate::wire::anthropic::parsed_result(b));
        let turns = crate::wire::anthropic::parsed_turns("user"@, content);
        assert forall|i: int| 0 <= i < got.len() implies #[trigger] turns[i] == got[i] by {}
    }
}

/// A message that is one block of text is one turn with that text.
pub proof fn user_texts_are_heard(b: Json, text: Seq<char>)
    requires
        is_kind(b, "text"@),
        says(b, "text"@, text),
        text.len() > 0,
    ensures
        crate::wire::anthropic::parsed_turns("user"@, Some(Json::Arr(seq![b]))) == seq![
            MessageView::User(text),
        ],
{
    reveal_strlit("text");
    reveal_strlit("tool_result");
    assert("text"@.len() == 4 && "tool_result"@.len() == 11);
    let blocks = seq![b];
    reveal(Seq::filter);
    assert(blocks.drop_last() =~= Seq::empty());
    reveal_with_fuel(Seq::filter, 2);
    assert(of_kind(blocks, "text"@) =~= seq![b]);
    assert(of_kind(blocks, "tool_result"@) =~= Seq::empty());
    lemma_texts_push(Seq::empty(), b);
    lemma_joined_texts(Seq::empty());
    assert(Seq::<Json>::empty().push(b) =~= seq![b]);
    user_messages_are_read(Some(Json::Arr(blocks)));
    let turns = crate::wire::anthropic::parsed_turns("user"@, Some(Json::Arr(blocks)));
    assert(block_texts(blocks) =~= text);
    assert(turns =~= seq![MessageView::User(text)]);
}

/// Whether `call` is the call that a block makes.
pub open spec fn use_read(b: Json, call: ToolCallView) -> bool {
    &&& call.call_id == b.str_or_empty("id"@)
    &&& call.name == b.str_or_empty("name"@)
    &&& match b.get("input"@) {
        Some(v) => call.arguments == crate::json::json_text(v),
        None => call.arguments == "{}"@,
    }
}

proof fn lemma_uses(blocks: Seq<Json>)
    ensures
        ({
            let got = blocks.filter_map(|b: Json| crate::wire::anthropic::parsed_use(b));
            let all = of_kind(blocks, "tool_use"@);
            &&& got.len() == all.len()
            &&& forall|i: int| 0 <= i < got.len() ==> use_read(all[i], #[trigger] got[i])
        }),
    decreases blocks.len(),
{
    reveal(Seq::filter);
    let f = |b: Json| crate::wire::anthropic::parsed_use(b);
    let got = blocks.filter_map(f);
    let all = of_kind(blocks, "tool_use"@);
    if blocks.len() > 0 {
        let init = blocks.drop_last();
        let b = blocks.last();
        lemma_uses(init);
        let n = blocks.len() - 1;
        blocks.lemma_filter_map_take_succ(f, n);
        assert(blocks.take(n) =~= init);
        assert(blocks.take(n + 1) =~= blocks);
        let before = of_kind(init, "tool_use"@);
        if is_kind(b, "tool_use"@) {
            assert(all =~= before.push(b));
        } else {
            assert(all =~= before);
        }
        assert forall|i: int| 0 <= i < got.len() implies use_read(all[i], #[trigger] got[i]) by {
            if i < before.len() {
                assert(all[i] == before[i]);
                assert(got[i] == init.filter_map(f)[i]);
            }
        }
    } else {
        assert(blocks.take(0) =~= blocks);
        assert(got =~= Seq::empty());
    }
}

proof fn lemma_assistant_text(blocks: Seq<Json>)
    ensures
        of_kind(blocks, "text"@).len() == 0 ==> crate::wire::anthropic::assistant_text(
            blocks,
        ) is None,
        of_kind(blocks, "text"@).len() > 0 ==> crate::wire::anthropic::assistant_text(blocks)
            == Some(block_texts(blocks)),
    decreases blocks.len(),
{
    reveal(Seq::filter);
    if blocks.len() > 0 {
        let init = blocks.drop_last();
        lemma_assistant_text(init);
        if is_kind(blocks.last(), "text"@) {
            assert(of_kind(blocks, "text"@) =~= of_kind(init, "text"@).push(blocks.last()));
            lemma_texts_push(of_kind(init, "text"@), blocks.last());
            if of_kind(init, "text"@).len() == 0 {
                assert(of_kind(init, "text"@) =~= Seq::empty());
                lemma_joined_texts(Seq::empty());
                assert(block_texts(blocks) =~= blocks.last().str_or_empty("text"@));
            }
        } else {
            assert(of_kind(blocks, "text"@) =~= of_kind(init, "text"@));
        }
    }
}

/// Whether a block is thinking that says something.
pub open spec fn is_thought(b: Json) -> bool {
    is_kind(b, "thinking"@) && b.str_or_empty("thinking"@).len() > 0
}

proof fn lemma_thinking(blocks: Seq<Json>)
    ensures
        match crate::wire::anthropic::assistant_thinking(blocks) {
            Some(t) => exists|i: int|
                0 <= i < blocks.len() && is_thought(#[trigger] blocks[i]) && says(
                    blocks[i],
                    "thinking"@,
                    t,
                ) && forall|j: int| i < j < blocks.len() ==> !is_thought(#[trigger] blocks[j]),
            None => forall|i: int| 0 <= i < blocks.len() ==> !is_thought(#[trigger] blocks[i]),
        },
    decreases blocks.len(),
{
    if blocks.len() > 0 {
        let init = blocks.drop_last();
        let n = blocks.len() - 1;
        lemma_thinking(init);
        assert(blocks[n] == blocks.last());
        if !is_thought(blocks[n]) {
            match crate::wire::anthropic::assistant_thinking(init) {
                Some(t) => {
                    let i = choose|i: int|
                        0 <= i < init.len() && is_thought(#[trigger] init[i]) && says(
                            init[i],
                            "thinking"@,
                            t,
                        ) && forall|j: int| i < j < init.len() ==> !is_thought(#[trigger] init[j]);
                    assert(blocks[i] == init[i]);
                    assert forall|j: int| i < j < blocks.len() implies !is_thought(
                        #[trigger] blocks[j],
                    ) by {
                        if j < n {
                            assert(blocks[j] == init[j]);
                        }
                    }
                },
                None => {
                    assert forall|j: int| 0 <= j < blocks.len() implies !is_thought(
                        #[trigger] blocks[j],
                    ) by {
                        if j < n {
                            assert(blocks[j] == init[j]);
                        }
                    }
                },
            }
        }
    }
}

/// What an assistant's message is read as: one turn. A string is its text. Of blocks, the
/// texts in a row are its text, the last thinking that says something is its reasoning, and
/// the tool uses are its calls, in their order. A turn that only reasons has an empty text.
pub proof fn assistant_messages_are_read(content: Option<Json>)
    ensures
        ({
            let turns = crate::wire::anthropic::parsed_turns("assistant"@, content);
            &&& turns.len() == 1
            &&& turns[0] is Assistant
            &&& match content {
                Some(Json::Str(s)) => turns[0] == (MessageView::Assistant {
                    text: Some(s),
                    reasoning_content: None,
                    tool_calls: Seq::empty(),
                }),
                Some(Json::Arr(blocks)) => {
                    let uses = of_kind(blocks, "tool_use"@);
                    let calls = turns[0]->tool_calls;
                    let thought = turns[0]->reasoning_content;
                    let text = turns[0]->Assistant_text;
                    &&& calls.len() == uses.len()
                    &&& forall|i: int| 0 <= i < uses.len() ==> use_read(uses[i], #[trigger] calls[i])
                    &&& of_kind(blocks, "text"@).len() > 0 ==> text == Some(block_texts(blocks))
                    &&& of_kind(blocks, "text"@).len() == 0 ==> text == if thought is Some
                        && calls.len() == 0 {
                        Some(Seq::<char>::empty())
                    } else {
                        None
                    }
                    &&& match thought {
                        Some(t) => exists|i: int|
                            0 <= i < blocks.len() && is_thought(#[trigger] blocks[i]) && says(
                                blocks[i],
                                "thinking"@,
                                t,
                            ) && forall|j: int|
                                i < j < blocks.len() ==> !is_thought(#[trigger] blocks[j]),
                        None => forall|i: int|
                            0 <= i < blocks.len() ==> !is_thought(#[trigger] blocks[i]),
                    }
                },
                _ => turns[0] == (MessageView::Assistant {
                    text: None,
                    reasoning_content: None,
                    tool_calls: Seq::empty(),
                }),
            }
        }),
{
    reveal_strlit("user");
    reveal_strlit("assistant");
    assert("user"@.len() == 4 && "assistant"@.len() == 9);
    if let Some(Json::Arr(blocks)) = content {
        lemma_assistant_text(blocks);
        lemma_thinking(blocks);
        lemma_uses(blocks);
    }
}

/// The turns of a list of messages are those of its messages, in their order: a message
/// names its role, or is the user's; and one of another role is passed over.
pub proof fn messages_are_read_in_order(msgs: Seq<Json>, m: Json)
    ensures
        crate::wire::anthropic::all_turns(Seq::empty()) == Seq::<MessageView>::empty(),
        crate::wire::anthropic::all_turns(msgs.push(m)) == crate::wire::anthropic::all_turns(msgs)
            + crate::wire::anthropic::parsed_turns(
            match m.get_str("role"@) {
                Some(role) => role,
                None => "user"@,
            },
            m.get("content"@),
        ),
        !says(m, "role"@, "user"@) && !says(m, "role"@, "assistant"@) && m.get_str("role"@) is Some
            ==> crate::wire::anthropic::all_turns(msgs.push(m))
            == crate::wire::anthropic::all_turns(msgs),
{
    assert(msgs.push(m).drop_last() =~= msgs);
    assert(crate::wire::anthropic::all_turns(msgs) + Seq::<MessageView>::empty()
        =~= crate::wire::anthropic::all_turns(msgs));
}

/// The system prompt is the string that is given for it; or the texts of the blocks, each on
/// a line of its own, from the first that says something on.
pub proof fn system_prompts_are_read(s: Seq<char>, blocks: Seq<Json>, b: Json)
    ensures
        crate::wire::anthropic::parsed_system(None) is None,
        crate::wire::anthropic::parsed_system(Some(Json::Str(s))) == Some(s),
        crate::wire::anthropic::parsed_system(Some(Json::Arr(Seq::empty()))) is None,
        ({
            let before = crate::wire::anthropic::parsed_system(Some(Json::Arr(blocks)));
            let after = crate::wire::anthropic::parsed_system(Some(Json::Arr(blocks.push(b))));
            match b.get_str("text"@) {
                None => after == before,
                Some(t) => match before {
                    Some(x) => after == Some(x + "\n"@ + t),
                    None => after == if t.len() > 0 {
                        Some(t)
                    } else {
                        None
                    },
                },
            }
        }),
{
    assert(blocks.push(b).drop_last() =~= blocks);
    reveal_strlit("\n");
    assert("\n"@.len() == 1);
}

/// A body of the Messages dialect is refused where it is no object or names no model, and
/// is read otherwise: the request has its model, its system prompt and its turns.
pub proof fn messages_bodies_are_read(body: Json)
    ensures
        !(body is Obj) ==> crate::wire::anthropic::parsed_request(body) == Err::<
            RequestView,
            ErrorView,
        >(ErrorView::BadRequest("body must be a JSON object"@)),
        body is Obj && body.get_str("model"@) is None
            ==> crate::wire::anthropic::parsed_request(body) == Err::<RequestView, ErrorView>(
            ErrorView::BadRequest("missing `model`"@),
        ),
        body.get_str("model"@) is Some ==> {
            &&& crate::wire::anthropic::parsed_request(body) is Ok
            &&& {
                let req = crate::wire::anthropic::parsed_request(body)->Ok_0;
                &&& says(body, "model"@, req.model)
                &&& req.system == crate::wire::anthropic::parsed_system(body.get("system"@))
                &&& match body.get("messages"@) {
                    Some(Json::Arr(msgs)) => req.messages == crate::wire::anthropic::all_turns(
                        msgs,
                    ),
                    _ => req.messages.len() == 0,
                }
            }
        },
{
}

/// The settings of a body of the Messages dialect are those of the request; enabled thinking
/// asks for high effort.
pub proof fn messages_settings_are_read(body: Json, req: RequestView)
    requires
        crate::wire::anthropic::parsed_request(body) == Ok::<RequestView, ErrorView>(req),
    ensures
        number_read(body, "temperature"@, req.temperature),
        number_read(body, "top_p"@, req.top_p),
        count_read(body, "max_tokens"@, req.max_output_tokens),
        flag_read(body, "stream"@, req.stream),
        req.parallel_tool_calls is None,
        body.get2("thinking"@, "type"@) == Some(Json::Str("enabled"@)) ==> req.reasoning_effort
            == Some(ReasoningEffort::High),
        body.get2("thinking"@, "type"@) != Some(Json::Str("enabled"@)) ==> req.reasoning_effort
            is None,
{
}

/// The tool choice of a body of the Messages dialect is that of the request.
pub proof fn messages_choices_are_read(body: Json, req: RequestView, name: Seq<char>)
    requires
        crate::wire::anthropic::parsed_request(body) == Ok::<RequestView, ErrorView>(req),
    ensures
        body.get("tool_choice"@) is None ==> req.tool_choice is Auto,
        body.get2("tool_choice"@, "type"@) == Some(Json::Str("auto"@)) ==> req.tool_choice is Auto,
        body.get2("tool_choice"@, "type"@) == Some(Json::Str("none"@)) <==> req.tool_choice
            is Never,
        body.get2("tool_choice"@, "type"@) == Some(Json::Str("any"@)) <==> req.tool_choice
            is Required,
        req.tool_choice == ToolChoiceView::Function(name) <==> body.get2("tool_choice"@, "type"@)
            == Some(Json::Str("tool"@)) && body.get2("tool_choice"@, "name"@) == Some(
            Json::Str(name),
        ),
{
    lemma_choices();
}

/// The entries with a name, in their order.
pub open spec fn named_in(items: Seq<Json>) -> Seq<Json> {
    items.filter(|t: Json| t.get_str("name"@) is Some)
}

proof fn lemma_messages_tools(items: Seq<Json>)
    ensures
        ({
            let got = items.filter_map(|t: Json| crate::wire::anthropic::parsed_tool(t));
            let all = named_in(items);
            &&& got.len() == all.len()
            &&& forall|i: int|
                0 <= i < got.len() ==> tool_read(all[i], "input_schema"@, #[trigger] got[i])
        }),
    decreases items.len(),
{
    reveal(Seq::filter);
    let f = |t: Json| crate::wire::anthropic::parsed_tool(t);
    let got = items.filter_map(f);
    let all = named_in(items);
    if items.len() > 0 {
        let init = items.drop_last();
        let t = items.last();
        lemma_messages_tools(init);
        let n = items.len() - 1;
        items.lemma_filter_map_take_succ(f, n);
        assert(items.take(n) =~= init);
        assert(items.take(n + 1) =~= items);
        let before = named_in(init);
        if t.get_str("name"@) is Some {
            assert(all =~= before.push(t));
        } else {
            assert(all =~= before);
        }
        assert forall|i: int| 0 <= i < got.len() implies tool_read(
            all[i],
            "input_schema"@,
            #[trigger] got[i],
        ) by {
            if i < before.len() {
                assert(all[i] == before[i]);
                assert(got[i] == init.filter_map(f)[i]);
            }
        }
    } else {
        assert(items.take(0) =~= items);
        assert(got =~= Seq::empty());
    }
}

/// The tools of a body of the Messages dialect are those of the request: its entries with a
/// name, in their order, each with its description and its schema.
pub proof fn messages_tools_are_read(body: Json, req: RequestView)
    requires
        crate::wire::anthropic::parsed_request(body) == Ok::<RequestView, ErrorView>(req),
    ensures
        ({
            let items = match body.get("tools"@) {
                Some(Json::Arr(a)) => a,
                _ => Seq::empty(),
            };
            let all = named_in(items);
            &&& req.tools.len() == all.len()
            &&& forall|i: int|
                0 <= i < all.len() ==> tool_read(all[i], "input_schema"@, #[trigger] req.tools[i])
        }),
{
    let items = match body.get("tools"@) {
        Some(Json::Arr(a)) => a,
        _ => Seq::empty(),
    };
    lemma_messages_tools(items);
    assert(crate::wire::items_of(body.get("tools"@)) == items);
}

} // verus!
