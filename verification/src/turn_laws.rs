//! Turns that come back: an answer that a client sends again in its next request is read
//! as the turn that the upstream made, with the reasoning it came with.

use vstd::prelude::*;

use crate::canonical::{MessageView, ToolCallView};
use crate::json::Json;
use crate::wire::responses::InputView;

verus! {

/// A text, where there is one.
pub open spec fn some_text(t: Seq<char>) -> Option<Seq<char>> {
    if t.len() > 0 {
        Some(t)
    } else {
        None
    }
}

/// The call that an upstream tool call makes.
pub open spec fn upstream_call(tc: Json) -> ToolCallView {
    ToolCallView {
        call_id: tc.str_or_empty("id"@),
        name: crate::wire::chat::function_str(tc, "name"@),
        arguments: crate::wire::chat::function_str(tc, "arguments"@),
    }
}

/// The call that an upstream tool call makes, in an item named `id`: one without an
/// identifier goes by that of its item.
pub open spec fn named_call(tc: Json, id: Seq<char>) -> ToolCallView {
    let call = upstream_call(tc);
    ToolCallView { call_id: crate::wire::responses::call_id_or(call.call_id, id), ..call }
}

/// The calls that upstream tool calls make, in items of the given names.
pub open spec fn named_calls(tcs: Seq<Json>, ids: Seq<Seq<char>>) -> Seq<ToolCallView> {
    Seq::new(tcs.len(), |i: int| named_call(tcs[i], ids[i]))
}

/// The call with its arguments read as a document and written out again.
pub open spec fn rewritten(call: ToolCallView) -> ToolCallView {
    ToolCallView {
        arguments: crate::json::json_text(crate::wire::anthropic::tool_input(call.arguments)),
        ..call
    }
}

proof fn lemma_thinking_block(t: Seq<char>)
    ensures
        ({
            let b = crate::answer_laws::thinking_block(t);
            &&& crate::wire::anthropic::has_type(b, "thinking"@)
            &&& !crate::wire::anthropic::has_type(b, "text"@)
            &&& b.str_or_empty("thinking"@) == t
            &&& crate::wire::anthropic::parsed_use(b) is None
        }),
{
    reveal_strlit("type");
    reveal_strlit("thinking");
    reveal_strlit("signature");
    reveal_strlit("text");
    reveal_strlit("tool_use");
    assert("type"@.len() == 4 && "thinking"@.len() == 8 && "signature"@.len() == 9);
    assert("text"@.len() == 4);
    assert("thinking"@[1] == 'h' && "tool_use"@[1] == 'o');
}

proof fn lemma_text_block(t: Seq<char>)
    ensures
        ({
            let b = crate::answer_laws::text_block(t);
            &&& crate::wire::anthropic::has_type(b, "text"@)
            &&& !crate::wire::anthropic::has_type(b, "thinking"@)
            &&& b.str_or_empty("text"@) == t
            &&& crate::wire::anthropic::parsed_use(b) is None
        }),
{
    reveal_strlit("type");
    reveal_strlit("text");
    reveal_strlit("thinking");
    reveal_strlit("tool_use");
    assert("type"@[1] == 'y' && "text"@[1] == 'e');
    assert("text"@.len() == 4 && "thinking"@.len() == 8 && "tool_use"@.len() == 8);
}

proof fn lemma_tool_block(tc: Json)
    ensures
        ({
            let b = crate::answer_laws::tool_block(tc);
            &&& !crate::wire::anthropic::has_type(b, "text"@)
            &&& !crate::wire::anthropic::has_type(b, "thinking"@)
            &&& crate::wire::anthropic::parsed_use(b) == Some(rewritten(upstream_call(tc)))
        }),
{
    reveal_strlit("type");
    reveal_strlit("id");
    reveal_strlit("name");
    reveal_strlit("input");
    reveal_strlit("tool_use");
    reveal_strlit("text");
    reveal_strlit("thinking");
    assert("type"@[0] == 't' && "name"@[0] == 'n' && "type"@.len() == 4 && "name"@.len() == 4);
    assert("id"@.len() == 2 && "input"@.len() == 5);
    assert("text"@.len() == 4 && "tool_use"@.len() == 8);
    assert("thinking"@[1] == 'h' && "tool_use"@[1] == 'o');
}

/// The blocks of tool calls, behind other blocks: only the calls change.
proof fn lemma_blocks_of_calls(before: Seq<Json>, tcs: Seq<Json>)
    ensures
        ({
            let blocks = before + tcs.map_values(|tc: Json| crate::answer_laws::tool_block(tc));
            &&& crate::wire::anthropic::assistant_text(blocks)
                == crate::wire::anthropic::assistant_text(before)
            &&& crate::wire::anthropic::assistant_thinking(blocks)
                == crate::wire::anthropic::assistant_thinking(before)
            &&& blocks.filter_map(|b: Json| crate::wire::anthropic::parsed_use(b))
                == before.filter_map(|b: Json| crate::wire::anthropic::parsed_use(b))
                + tcs.map_values(|tc: Json| rewritten(upstream_call(tc)))
        }),
    decreases tcs.len(),
{
    let f = |tc: Json| crate::answer_laws::tool_block(tc);
    let p = |b: Json| crate::wire::anthropic::parsed_use(b);
    let g = |tc: Json| rewritten(upstream_call(tc));
    let blocks = before + tcs.map_values(f);
    if tcs.len() == 0 {
        assert(blocks =~= before);
        assert(before.filter_map(p) + tcs.map_values(g) =~= before.filter_map(p));
    } else {
        let init = tcs.drop_last();
        let less = before + init.map_values(f);
        lemma_blocks_of_calls(before, init);
        lemma_tool_block(tcs.last());
        assert(blocks.drop_last() =~= less);
        assert(blocks.last() == f(tcs.last()));
        blocks.lemma_filter_map_take_succ(p, blocks.len() - 1);
        assert(blocks.take(blocks.len() - 1) =~= less);
        assert(blocks.take(blocks.len() as int) =~= blocks);
        assert(init.map_values(g).push(g(tcs.last())) =~= tcs.map_values(g));
        assert(before.filter_map(p) + init.map_values(g).push(g(tcs.last())) =~= (
        before.filter_map(p) + init.map_values(g)).push(g(tcs.last())));
    }
}

/// What is read of the blocks of reasoning and text.
proof fn lemma_spoken_blocks(m: Option<Json>)
    ensures
        ({
            let blocks = crate::answer_laws::spoken_blocks(m);
            &&& crate::wire::anthropic::assistant_text(blocks) == some_text(
                crate::answer_laws::told(m),
            )
            &&& crate::wire::anthropic::assistant_thinking(blocks) == some_text(
                crate::answer_laws::thought(m),
            )
            &&& blocks.filter_map(|b: Json| crate::wire::anthropic::parsed_use(b))
                == Seq::<ToolCallView>::empty()
        }),
{
    let p = |b: Json| crate::wire::anthropic::parsed_use(b);
    let thought = crate::answer_laws::thought(m);
    let told = crate::answer_laws::told(m);
    let blocks = crate::answer_laws::spoken_blocks(m);
    let a = crate::answer_laws::thinking_block(thought);
    let b = crate::answer_laws::text_block(told);
    lemma_thinking_block(thought);
    lemma_text_block(told);
    reveal_with_fuel(crate::wire::anthropic::assistant_text, 3);
    reveal_with_fuel(crate::wire::anthropic::assistant_thinking, 3);
    assert(blocks.take(0) =~= Seq::empty());
    assert(blocks.take(blocks.len() as int) =~= blocks);
    if thought.len() > 0 && told.len() > 0 {
        assert(blocks =~= seq![a, b]);
        assert(blocks.drop_last() =~= seq![a]);
        assert(seq![a].drop_last() =~= Seq::empty());
        blocks.lemma_filter_map_take_succ(p, 0);
        blocks.lemma_filter_map_take_succ(p, 1);
    } else if thought.len() > 0 {
        assert(blocks =~= seq![a]);
        assert(blocks.drop_last() =~= Seq::empty());
        blocks.lemma_filter_map_take_succ(p, 0);
    } else if told.len() > 0 {
        assert(blocks =~= seq![b]);
        assert(blocks.drop_last() =~= Seq::empty());
        blocks.lemma_filter_map_take_succ(p, 0);
    } else {
        assert(blocks =~= Seq::empty());
    }
}

/// A whole answer that a client of the Messages dialect sends back as it got it is read as
/// the assistant's turn: with its reasoning, its text, and its calls in their order, the
/// arguments of which are written out anew from the documents they denote.
pub proof fn answered_messages_are_read_back(resp: Json, response_id: Seq<char>)
    ensures
        ({
            let m = crate::answer_laws::message_of(resp);
            let answer = crate::server::messages_answer_of(resp, response_id);
            &&& crate::wire::chat::role_of(answer) == "assistant"@
            &&& crate::wire::anthropic::parsed_turns("assistant"@, answer.get("content"@)) == seq![
                crate::wire::anthropic::assistant_turn(
                    some_text(crate::answer_laws::told(m)),
                    some_text(crate::answer_laws::thought(m)),
                    crate::answer_laws::calls_of(m).map_values(
                        |tc: Json| rewritten(upstream_call(tc)),
                    ),
                ),
            ]
        }),
{
    let m = crate::answer_laws::message_of(resp);
    let tcs = crate::answer_laws::calls_of(m);
    let p = |b: Json| crate::wire::anthropic::parsed_use(b);
    let g = |tc: Json| rewritten(upstream_call(tc));
    crate::answer_laws::whole_answers_become_messages(resp, response_id);
    lemma_spoken_blocks(m);
    lemma_blocks_of_calls(crate::answer_laws::spoken_blocks(m), tcs);
    assert(crate::answer_laws::spoken_blocks(m).filter_map(p) + tcs.map_values(g)
        =~= tcs.map_values(g));
    reveal_strlit("user");
    reveal_strlit("assistant");
    assert("user"@.len() == 4 && "assistant"@.len() == 9);
    lemma_message_members(
        (crate::wire::anthropic::AnthropicView {
            message_id: response_id,
            model: resp.str_or_empty("model"@),
            any_tool: tcs.len() > 0,
            usage: crate::answer_laws::counts_of(resp),
            final_blocks: crate::answer_laws::content_blocks(m),
            ..crate::wire::anthropic::AnthropicView::initial()
        }),
    );
}

proof fn lemma_message_members(s: crate::wire::anthropic::AnthropicView)
    ensures
        s.final_message().get("content"@) == Some(Json::Arr(s.final_blocks)),
        s.final_message().get_str("role"@) == Some("assistant"@),
{
    reveal_strlit("id");
    reveal_strlit("type");
    reveal_strlit("role");
    reveal_strlit("model");
    reveal_strlit("content");
    reveal_strlit("stop_reason");
    reveal_strlit("stop_sequence");
    reveal_strlit("usage");
    assert("content"@.len() == 7 && "role"@.len() == 4 && "type"@.len() == 4);
    assert("role"@[0] == 'r' && "type"@[0] == 't');
    assert("id"@.len() == 2 && "model"@.len() == 5 && "usage"@.len() == 5);
    assert("stop_reason"@.len() == 11 && "stop_sequence"@.len() == 13);
}

proof fn lemma_reasoning_item(s: InputView, id: Seq<char>, t: Seq<char>)
    requires
        t.len() > 0,
    ensures
        s.after(crate::wire::responses::reasoning_json(id, t)) == (InputView {
            pending: Some(t),
            ..s
        }),
{
    reveal_strlit("type");
    reveal_strlit("id");
    reveal_strlit("summary");
    reveal_strlit("text");
    reveal_strlit("message");
    reveal_strlit("reasoning");
    reveal_strlit("function_call");
    reveal_strlit("function_call_output");
    assert("type"@.len() == 4 && "id"@.len() == 2 && "summary"@.len() == 7);
    assert("type"@[1] == 'y' && "text"@[1] == 'e');
    assert("message"@.len() == 7 && "reasoning"@.len() == 9 && "function_call"@.len() == 13);
    assert("function_call_output"@.len() == 20);
    let part = crate::wire::responses::payload("summary_text"@).with("text"@, Json::Str(t));
    let parts = seq![part];
    assert(parts.drop_last() =~= Seq::empty());
    reveal_with_fuel(crate::wire::joined_texts, 2);
    assert(crate::wire::joined_texts(parts) =~= t);
}

proof fn lemma_message_item(s: InputView, id: Seq<char>, t: Seq<char>)
    ensures
        s.after(crate::wire::responses::message_json(id, t)) == (InputView {
            messages: s.messages.push(
                MessageView::Assistant {
                    text: Some(t),
                    reasoning_content: s.pending,
                    tool_calls: Seq::empty(),
                },
            ),
            pending: None,
            ..s
        }),
{
    reveal_strlit("type");
    reveal_strlit("id");
    reveal_strlit("role");
    reveal_strlit("status");
    reveal_strlit("content");
    reveal_strlit("text");
    reveal_strlit("annotations");
    reveal_strlit("assistant");
    reveal_strlit("system");
    reveal_strlit("developer");
    assert("type"@.len() == 4 && "id"@.len() == 2 && "role"@.len() == 4 && "text"@.len() == 4);
    assert("status"@.len() == 6 && "content"@.len() == 7 && "annotations"@.len() == 11);
    assert("type"@[0] == 't' && "role"@[0] == 'r' && "type"@[1] == 'y' && "text"@[1] == 'e');
    assert("assistant"@.len() == 9 && "system"@.len() == 6 && "developer"@.len() == 9);
    assert("assistant"@[0] == 'a' && "developer"@[0] == 'd');
    let parts = seq![crate::wire::responses::text_part(t)];
    assert(parts.drop_last() =~= Seq::empty());
    reveal_with_fuel(crate::wire::joined_texts, 2);
    assert(crate::wire::joined_texts(parts) =~= t);
}

proof fn lemma_call_item(s: InputView, tc: Json, id: Seq<char>)
    ensures
        s.after(crate::answer_laws::call_item(tc, id)) == s.after_call(named_call(tc, id)),
{
    reveal_strlit("type");
    reveal_strlit("id");
    reveal_strlit("call_id");
    reveal_strlit("name");
    reveal_strlit("arguments");
    reveal_strlit("status");
    reveal_strlit("message");
    reveal_strlit("function_call");
    assert("type"@.len() == 4 && "id"@.len() == 2 && "call_id"@.len() == 7 && "name"@.len() == 4);
    assert("arguments"@.len() == 9 && "status"@.len() == 6);
    assert("type"@[0] == 't' && "name"@[0] == 'n');
    assert("message"@.len() == 7 && "function_call"@.len() == 13);
}

/// The state after the calls of a turn that is open.
proof fn lemma_calls_join(
    s: InputView,
    text: Option<Seq<char>>,
    reasoning_content: Option<Seq<char>>,
    calls: Seq<ToolCallView>,
    tcs: Seq<Json>,
    ids: Seq<Seq<char>>,
)
    requires
        s.messages.len() > 0,
        s.messages.last() == (MessageView::Assistant { text, reasoning_content, tool_calls: calls }),
        s.pending is None,
        ids.len() == tcs.len(),
    ensures
        s.after_all(crate::answer_laws::call_items(tcs, ids)) == (InputView {
            messages: s.messages.drop_last().push(
                MessageView::Assistant {
                    text,
                    reasoning_content,
                    tool_calls: calls + named_calls(tcs, ids),
                },
            ),
            ..s
        }),
    decreases tcs.len(),
{
    let items = crate::answer_laws::call_items(tcs, ids);
    if tcs.len() == 0 {
        assert(calls + named_calls(tcs, ids) =~= calls);
        assert(s.messages.drop_last().push(s.messages.last()) =~= s.messages);
    } else {
        let init = tcs.drop_last();
        let less = ids.drop_last();
        lemma_calls_join(s, text, reasoning_content, calls, init, less);
        assert(items.drop_last() =~= crate::answer_laws::call_items(init, less));
        let before = s.after_all(items.drop_last());
        lemma_call_item(before, tcs.last(), ids.last());
        assert(items.last() == crate::answer_laws::call_item(tcs.last(), ids.last()));
        assert(calls + named_calls(tcs, ids) =~= (calls + named_calls(init, less)).push(
            named_call(tcs.last(), ids.last()),
        ));
        assert(before.messages.drop_last() =~= s.messages.drop_last());
    }
}

/// What is read of the items of an answer, its calls named `ids`, after a turn that is not the assistant's: one
/// turn, or only the reasoning that waits for one.
pub open spec fn read_again(s: InputView, m: Option<Json>, ids: Seq<Seq<char>>) -> InputView {
    let thought = some_text(crate::answer_laws::thought(m));
    let told = some_text(crate::answer_laws::told(m));
    let calls = named_calls(crate::answer_laws::calls_of(m), ids);
    if told is Some || calls.len() > 0 {
        InputView {
            messages: s.messages.push(
                MessageView::Assistant { text: told, reasoning_content: thought, tool_calls: calls },
            ),
            ..s
        }
    } else {
        InputView { pending: thought, ..s }
    }
}

proof fn lemma_after_all_two(s: InputView, a: Seq<Json>, b: Seq<Json>)
    ensures
        s.after_all(a + b) == s.after_all(a).after_all(b),
    decreases b.len(),
{
    if b.len() == 0 {
        assert(a + b =~= a);
    } else {
        lemma_after_all_two(s, a, b.drop_last());
        assert((a + b).drop_last() =~= a + b.drop_last());
        assert((a + b).last() == b.last());
    }
}

proof fn lemma_after_one(s: InputView, item: Json)
    ensures
        s.after_all(seq![item]) == s.after(item),
{
    assert(seq![item].drop_last() =~= Seq::empty());
    reveal_with_fuel(InputView::after_all, 2);
}

/// The state after the items of reasoning and text.
proof fn lemma_spoken_items(s: InputView, m: Option<Json>, rid: Seq<char>, mid: Seq<char>)
    requires
        s.pending is None,
    ensures
        s.after_all(crate::answer_laws::spoken_items(m, rid, mid)) == ({
            let thought = some_text(crate::answer_laws::thought(m));
            if crate::answer_laws::told(m).len() > 0 {
                InputView {
                    messages: s.messages.push(
                        MessageView::Assistant {
                            text: Some(crate::answer_laws::told(m)),
                            reasoning_content: thought,
                            tool_calls: Seq::empty(),
                        },
                    ),
                    ..s
                }
            } else {
                InputView { pending: thought, ..s }
            }
        }),
{
    let thought = crate::answer_laws::thought(m);
    let told = crate::answer_laws::told(m);
    let a = crate::wire::responses::reasoning_json(rid, thought);
    let b = crate::wire::responses::message_json(mid, told);
    let items = crate::answer_laws::spoken_items(m, rid, mid);
    lemma_after_one(s, a);
    lemma_after_one(s, b);
    lemma_message_item(s, mid, told);
    if thought.len() > 0 {
        lemma_reasoning_item(s, rid, thought);
        let t = InputView { pending: Some(thought), ..s };
        lemma_after_one(t, b);
        lemma_message_item(t, mid, told);
        lemma_after_all_two(s, seq![a], seq![b]);
    }
    if thought.len() > 0 && told.len() > 0 {
        assert(items =~= seq![a] + seq![b]);
    } else if thought.len() > 0 {
        assert(items =~= seq![a]);
    } else if told.len() > 0 {
        assert(items =~= seq![b]);
    } else {
        assert(items =~= Seq::empty());
    }
}

/// A whole answer that a client of the Responses dialect sends back as it got it, after a
/// turn that is not the assistant's, is read as one assistant turn: with its reasoning, its
/// text, and its calls as the upstream made them; a call without an identifier goes by
/// that of its item. One that only reasons opens no turn, and its reasoning waits for the
/// next.
pub proof fn answered_responses_are_read_back(
    resp: Json,
    response_id: Seq<char>,
    answer: Json,
    s: InputView,
)
    requires
        crate::server::is_responses_answer(resp, response_id, answer),
        s.messages.len() > 0 ==> !(s.messages.last() is Assistant),
        s.pending is None,
    ensures
        answer.get_array("output"@) matches Some(items) && exists|
            rid: Seq<char>,
            mid: Seq<char>,
            ids: Seq<Seq<char>>,
        | #[trigger]
            crate::answer_laws::items_named(crate::answer_laws::message_of(resp), rid, mid, ids)
                && s.after_all(items) == read_again(s, crate::answer_laws::message_of(resp), ids),
{
    let m = crate::answer_laws::message_of(resp);
    let tcs = crate::answer_laws::calls_of(m);
    crate::answer_laws::whole_answers_become_responses(resp, response_id, answer);
    let (rid, mid, ids) = choose|rid: Seq<char>, mid: Seq<char>, ids: Seq<Seq<char>>| #[trigger]
        crate::answer_laws::items_named(m, rid, mid, ids) && answer == (
        crate::wire::responses::ResponsesView {
            response_id,
            model: resp.str_or_empty("model"@),
            usage: crate::answer_laws::counts_of(resp),
            final_items: crate::answer_laws::output_items(m, rid, mid, ids),
            ..crate::wire::responses::ResponsesView::initial()
        }).completed_response();
    lemma_output_member(
        (crate::wire::responses::ResponsesView {
            response_id,
            model: resp.str_or_empty("model"@),
            usage: crate::answer_laws::counts_of(resp),
            final_items: crate::answer_laws::output_items(m, rid, mid, ids),
            ..crate::wire::responses::ResponsesView::initial()
        }),
    );
    let spoken = crate::answer_laws::spoken_items(m, rid, mid);
    let made = crate::answer_laws::call_items(tcs, ids);
    let thought = some_text(crate::answer_laws::thought(m));
    let told = crate::answer_laws::told(m);
    lemma_spoken_items(s, m, rid, mid);
    lemma_after_all_two(s, spoken, made);
    let t = s.after_all(spoken);
    if told.len() > 0 {
        lemma_calls_join(t, Some(told), thought, Seq::empty(), tcs, ids);
        assert(t.messages.drop_last() =~= s.messages);
        assert(Seq::<ToolCallView>::empty() + named_calls(tcs, ids) =~= named_calls(tcs, ids));
    } else if tcs.len() > 0 {
        let first = tcs[0];
        let rest = tcs.skip(1);
        let head = seq![crate::answer_laws::call_item(first, ids[0])];
        assert(made =~= head + crate::answer_laws::call_items(rest, ids.skip(1)));
        lemma_after_all_two(t, head, crate::answer_laws::call_items(rest, ids.skip(1)));
        lemma_after_one(t, head[0]);
        lemma_call_item(t, first, ids[0]);
        let call = named_call(first, ids[0]);
        let u = t.after_call(call);
        lemma_calls_join(u, None, thought, seq![call], rest, ids.skip(1));
        assert(u.messages.drop_last() =~= s.messages);
        assert(seq![call] + named_calls(rest, ids.skip(1)) =~= named_calls(tcs, ids));
    } else {
        assert(made =~= Seq::empty());
        assert(named_calls(tcs, ids) =~= Seq::empty());
    }
}

proof fn lemma_output_member(s: crate::wire::responses::ResponsesView)
    ensures
        s.completed_response().get_array("output"@) == Some(s.final_items),
{
    reveal_strlit("output");
    reveal_strlit("usage");
    assert("output"@.len() == 6 && "usage"@.len() == 5);
}

/// The reasoning of a turn goes upstream under the name that the upstream gave it.
pub proof fn reasoning_goes_back_upstream(
    text: Option<Seq<char>>,
    reasoning: Seq<char>,
    calls: Seq<ToolCallView>,
)
    ensures
        crate::wire::chat::message_json(
            MessageView::Assistant { text, reasoning_content: Some(reasoning), tool_calls: calls },
        ).get_str("reasoning_content"@) == Some(reasoning),
{
    reveal_strlit("role");
    reveal_strlit("content");
    reveal_strlit("reasoning_content");
    reveal_strlit("tool_calls");
    assert("reasoning_content"@.len() == 17 && "tool_calls"@.len() == 10);
}

} // verus!
