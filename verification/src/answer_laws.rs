//! What whole (non-streaming) answers become in the dialects of the clients.

use vstd::prelude::*;

use crate::canonical::EventView;
use crate::json::Json;
use crate::wire::anthropic::{AnthropicStep, AnthropicView, ToolBlockView};
use crate::wire::responses::{ResponsesStep, ResponsesView, ToolItemView};
use crate::wire::UsageCounts;

verus! {

/// The message of an upstream answer.
pub open spec fn message_of(resp: Json) -> Option<Json> {
    match crate::wire::chat::first_choice(resp) {
        Some(c) => c.get("message"@),
        None => None,
    }
}

/// What the message reasons, or nothing.
pub open spec fn thought(m: Option<Json>) -> Seq<char> {
    match m {
        Some(d) => {
            let rc = match d.get("reasoning_content"@) {
                Some(v) => v.as_str(),
                None => d.get_str("reasoning"@),
            };
            match rc {
                Some(t) => t,
                None => Seq::empty(),
            }
        },
        None => Seq::empty(),
    }
}

/// What the message says, or nothing.
pub open spec fn told(m: Option<Json>) -> Seq<char> {
    match m {
        Some(d) => d.str_or_empty("content"@),
        None => Seq::empty(),
    }
}

/// The tool calls of the message.
pub open spec fn calls_of(m: Option<Json>) -> Seq<Json> {
    match m {
        Some(d) => crate::wire::items_of(d.get("tool_calls"@)),
        None => Seq::empty(),
    }
}

/// The token counts of an upstream answer.
pub open spec fn counts_of(resp: Json) -> Option<UsageCounts> {
    match resp.get("usage"@) {
        Some(u) => if u is Null {
            None
        } else {
            match crate::wire::chat::parsed_usage(u) {
                EventView::Usage {
                    input_tokens,
                    output_tokens,
                    total_tokens,
                    cached_input_tokens,
                    reasoning_tokens,
                } => Some(
                    UsageCounts {
                        input: input_tokens,
                        output: output_tokens,
                        total: total_tokens,
                        cached: cached_input_tokens,
                        reasoning: reasoning_tokens,
                    },
                ),
                _ => None,
            }
        },
        None => None,
    }
}

/// A thinking block.
pub open spec fn thinking_block(text: Seq<char>) -> Json {
    crate::wire::anthropic::typed("thinking"@).with("thinking"@, Json::Str(text)).with(
        "signature"@,
        Json::Str(crate::wire::anthropic::thinking_signature()),
    )
}

/// A text block.
pub open spec fn text_block(text: Seq<char>) -> Json {
    crate::wire::anthropic::typed("text"@).with("text"@, Json::Str(text))
}

/// The tool-use block of an upstream tool call.
pub open spec fn tool_block(tc: Json) -> Json {
    crate::wire::anthropic::typed("tool_use"@).with("id"@, Json::Str(tc.str_or_empty("id"@))).with(
        "name"@,
        Json::Str(crate::wire::chat::function_str(tc, "name"@)),
    ).with(
        "input"@,
        crate::wire::anthropic::tool_input(crate::wire::chat::function_str(tc, "arguments"@)),
    )
}

/// What the message thinks and says, as blocks.
pub open spec fn spoken_blocks(m: Option<Json>) -> Seq<Json> {
    (if thought(m).len() > 0 {
        seq![thinking_block(thought(m))]
    } else {
        Seq::empty()
    }) + (if told(m).len() > 0 {
        seq![text_block(told(m))]
    } else {
        Seq::empty()
    })
}

/// The content of the message: its reasoning, its text, and its tool calls, in that order.
pub open spec fn content_blocks(m: Option<Json>) -> Seq<Json> {
    spoken_blocks(m) + calls_of(m).map_values(|tc: Json| tool_block(tc))
}

/// The state with its thinking and text blocks closed.
spec fn settled(s: AnthropicView) -> AnthropicView {
    AnthropicStep { state: s, frames: Seq::empty() }.close_thinking().close_text().state
}

proof fn lemma_run_two(s: AnthropicView, a: Seq<EventView>, b: Seq<EventView>)
    ensures
        crate::wire::anthropic_laws::run(s, a + b).state == crate::wire::anthropic_laws::run(
            crate::wire::anthropic_laws::run(s, a).state,
            b,
        ).state,
    decreases b.len(),
{
    if b.len() == 0 {
        assert(a + b =~= a);
    } else {
        lemma_run_two(s, a, b.drop_last());
        assert((a + b).drop_last() =~= a + b.drop_last());
        assert((a + b).last() == b.last());
    }
}

proof fn lemma_run_one(s: AnthropicView, ev: EventView)
    ensures
        crate::wire::anthropic_laws::run(s, seq![ev]).state == s.step(ev).state,
{
    let evs = seq![ev];
    assert(evs.drop_last() =~= Seq::empty());
    reveal_with_fuel(crate::wire::anthropic_laws::run, 2);
}

/// One call of a whole message: it closes what was open and adds its block.
proof fn lemma_one_call(s: AnthropicView, index: u32, tc: Json)
    requires
        s.tools.len() == 0,
        s.started,
    ensures
        crate::wire::anthropic_laws::run(
            s,
            crate::wire::chat::whole_call_events(index, tc),
        ).state == (AnthropicView {
            next_index: s.next_index + 1,
            any_tool: true,
            final_blocks: settled(s).final_blocks.push(tool_block(tc)),
            thinking_index: None,
            text_index: None,
            tools: Seq::empty(),
            ..s
        }),
{
    let call_id = tc.str_or_empty("id"@);
    let name = crate::wire::chat::function_str(tc, "name"@);
    let args = crate::wire::chat::function_str(tc, "arguments"@);
    let e1 = EventView::ToolCallStart { index, call_id, name };
    let e2 = EventView::ToolCallArgsDelta { index, delta: args };
    let e3 = EventView::ToolCallDone { index };
    let evs = crate::wire::chat::whole_call_events(index, tc);
    let s1 = s.step(e1).state;
    let t1 = ToolBlockView { index: s.next_index, id: call_id, name, args: Seq::empty() };
    lemma_run_one(s, e1);
    assert(s.tools =~= Seq::empty());
    assert(s1.tools =~= seq![(index, t1)]);
    assert(s1.tools.drop_last() =~= Seq::empty());
    if args.len() > 0 {
        let s2 = s1.step(e2).state;
        let t2 = ToolBlockView { args: t1.args + args, ..t1 };
        assert(t1.args + args =~= args);
        assert(s2.tools =~= seq![(index, t2)]);
        assert(s2.tools.drop_last() =~= Seq::empty());
        lemma_run_one(s1, e2);
        lemma_run_one(s2, e3);
        lemma_run_two(s, seq![e1], seq![e2]);
        lemma_run_two(s, seq![e1] + seq![e2], seq![e3]);
        assert(evs =~= seq![e1] + seq![e2] + seq![e3]);
    } else {
        assert(args =~= Seq::empty());
        lemma_run_one(s1, e3);
        lemma_run_two(s, seq![e1], seq![e3]);
        assert(evs =~= seq![e1] + seq![e3]);
    }
}

/// The calls of a whole message, one after the other.
proof fn lemma_all_calls(s: AnthropicView, tcs: Seq<Json>)
    requires
        s.tools.len() == 0,
        s.started,
    ensures
        ({
            let t = crate::wire::anthropic_laws::run(
                s,
                crate::wire::chat::whole_calls_events(tcs),
            ).state;
            &&& t.tools.len() == 0
            &&& t.started
            &&& t.message_id == s.message_id && t.model == s.model && t.usage == s.usage
            &&& t.any_tool == (s.any_tool || tcs.len() > 0)
            &&& settled(t).final_blocks == settled(s).final_blocks + tcs.map_values(
                |tc: Json| tool_block(tc),
            )
        }),
    decreases tcs.len(),
{
    let f = |tc: Json| tool_block(tc);
    if tcs.len() == 0 {
        assert(settled(s).final_blocks + tcs.map_values(f) =~= settled(s).final_blocks);
    } else {
        let init = tcs.drop_last();
        lemma_all_calls(s, init);
        let mid = crate::wire::anthropic_laws::run(
            s,
            crate::wire::chat::whole_calls_events(init),
        ).state;
        let index = ((tcs.len() - 1) % 0x1_0000_0000) as u32;
        lemma_one_call(mid, index, tcs.last());
        lemma_run_two(
            s,
            crate::wire::chat::whole_calls_events(init),
            crate::wire::chat::whole_call_events(index, tcs.last()),
        );
        assert(tcs.map_values(f) =~= init.map_values(f).push(tool_block(tcs.last())));
        assert(settled(s).final_blocks + init.map_values(f).push(tool_block(tcs.last())) =~= (
        settled(s).final_blocks + init.map_values(f)).push(tool_block(tcs.last())));
    }
}

/// What the message thinks and says.
proof fn lemma_texts(s: AnthropicView, d: Json)
    requires
        s.tools.len() == 0,
        s.started,
        s.thinking_index is None,
        s.text_index is None,
        s.thinking_text.len() == 0,
        s.text_text.len() == 0,
        s.final_blocks.len() == 0,
    ensures
        ({
            let t = crate::wire::anthropic_laws::run(s, crate::wire::chat::text_events(d)).state;
            &&& t.tools.len() == 0
            &&& t.started
            &&& t.message_id == s.message_id && t.model == s.model && t.usage == s.usage
            &&& t.any_tool == s.any_tool
            &&& settled(t).final_blocks == spoken_blocks(Some(d))
        }),
{
    let m = Some(d);
    let evs = crate::wire::chat::text_events(d);
    let e1 = EventView::ReasoningDelta { text: thought(m) };
    let e2 = EventView::TextDelta { text: told(m) };
    let s1 = s.step(e1).state;
    lemma_run_one(s, e1);
    lemma_run_one(s, e2);
    lemma_run_one(s1, e2);
    lemma_run_two(s, seq![e1], seq![e2]);
    assert(s.thinking_text + thought(m) =~= thought(m));
    assert(s.text_text + told(m) =~= told(m));
    assert(s.final_blocks =~= Seq::empty());
    if thought(m).len() > 0 && told(m).len() > 0 {
        assert(evs =~= seq![e1] + seq![e2]);
        let t = s1.step(e2).state;
        assert(settled(t).final_blocks =~= spoken_blocks(m));
    } else if thought(m).len() > 0 {
        assert(evs =~= seq![e1]);
        assert(settled(s1).final_blocks =~= spoken_blocks(m));
    } else if told(m).len() > 0 {
        assert(evs =~= seq![e2]);
        assert(settled(s.step(e2).state).final_blocks =~= spoken_blocks(m));
    } else {
        assert(evs =~= Seq::empty());
        assert(settled(s).final_blocks =~= spoken_blocks(m));
    }
}

/// A whole upstream answer is carried over as it is: the Anthropic message has its
/// reasoning, its text and its tool calls as blocks, in that order, under the given id;
/// it stops for tool use exactly when there are calls, and has the answer's token counts.
pub proof fn whole_answers_become_messages(resp: Json, response_id: Seq<char>)
    ensures
        crate::server::messages_answer_of(resp, response_id) == (AnthropicView {
            message_id: response_id,
            model: resp.str_or_empty("model"@),
            any_tool: calls_of(message_of(resp)).len() > 0,
            usage: counts_of(resp),
            final_blocks: content_blocks(message_of(resp)),
            ..AnthropicView::initial()
        }).final_message(),
{
    let s0 = AnthropicView::initial();
    let evs = crate::wire::chat::completion_events(resp, response_id);
    let created = EventView::Created { response_id, model: resp.str_or_empty("model"@) };
    let m = message_of(resp);
    let s1 = s0.step(created).state;
    lemma_run_one(s0, created);
    let usage = crate::wire::chat::usage_events(resp);
    let (body, s3) = match m {
        Some(d) => {
            let texts = crate::wire::chat::text_events(d);
            let calls = crate::wire::chat::whole_calls_events(calls_of(m));
            let s2 = crate::wire::anthropic_laws::run(s1, texts).state;
            lemma_texts(s1, d);
            lemma_all_calls(s2, calls_of(m));
            lemma_run_two(s1, texts, calls);
            (texts + calls, crate::wire::anthropic_laws::run(s2, calls).state)
        },
        None => {
            assert(settled(s1).final_blocks =~= content_blocks(m));
            (Seq::empty(), s1)
        },
    };
    assert(settled(s3).final_blocks =~= content_blocks(m));
    lemma_run_two(s0, seq![created], body);
    let s4 = crate::wire::anthropic_laws::run(s3, usage).state;
    lemma_run_two(s0, seq![created] + body, usage);
    if usage.len() > 0 {
        lemma_run_one(s3, usage[0]);
        assert(usage =~= seq![usage[0]]);
    }
    assert(settled(s4).final_blocks == settled(s3).final_blocks);
    assert(s4.usage == counts_of(resp));
    lemma_run_two(s0, seq![created] + body + usage, seq![EventView::Completed]);
    lemma_run_one(s4, EventView::Completed);
    assert(evs =~= seq![created] + body + usage + seq![EventView::Completed]);
    assert(s4.tools =~= Seq::empty());
    let end = s4.step(EventView::Completed).state;
    assert(end.final_blocks == settled(s4).final_blocks);
}

/// The function-call item of an upstream tool call. A call that the upstream gave no
/// identifier goes by that of its item.
pub open spec fn call_item(tc: Json, id: Seq<char>) -> Json {
    crate::wire::responses::call_json(
        id,
        crate::wire::responses::call_id_or(tc.str_or_empty("id"@), id),
        crate::wire::chat::function_str(tc, "name"@),
        crate::wire::chat::function_str(tc, "arguments"@),
        "completed"@,
    )
}

/// What the message reasons and says, as output items under the given identifiers.
pub open spec fn spoken_items(m: Option<Json>, rid: Seq<char>, mid: Seq<char>) -> Seq<Json> {
    (if thought(m).len() > 0 {
        seq![crate::wire::responses::reasoning_json(rid, thought(m))]
    } else {
        Seq::empty()
    }) + (if told(m).len() > 0 {
        seq![crate::wire::responses::message_json(mid, told(m))]
    } else {
        Seq::empty()
    })
}

/// Function-call items under the given identifiers.
pub open spec fn call_items(tcs: Seq<Json>, ids: Seq<Seq<char>>) -> Seq<Json> {
    Seq::new(tcs.len(), |i: int| call_item(tcs[i], ids[i]))
}

/// The output of the message: its reasoning, its text, and its tool calls, in that order.
pub open spec fn output_items(
    m: Option<Json>,
    rid: Seq<char>,
    mid: Seq<char>,
    ids: Seq<Seq<char>>,
) -> Seq<Json> {
    spoken_items(m, rid, mid) + call_items(calls_of(m), ids)
}

/// Whether the identifiers of the output items are fresh ones of their kinds.
pub open spec fn items_named(
    m: Option<Json>,
    rid: Seq<char>,
    mid: Seq<char>,
    ids: Seq<Seq<char>>,
) -> bool {
    &&& thought(m).len() > 0 ==> crate::wire::is_id("rs"@, rid)
    &&& told(m).len() > 0 ==> crate::wire::is_id("msg"@, mid)
    &&& ids.len() == calls_of(m).len()
    &&& forall|i: int| 0 <= i < ids.len() ==> crate::wire::is_id("fc"@, #[trigger] ids[i])
}

/// The state with its reasoning and message items closed.
spec fn settled_items(s: ResponsesView) -> ResponsesView {
    ResponsesStep { state: s, frames: Seq::empty() }.close_reasoning().close_message().state
}

#[verifier::spinoff_prover]
#[verifier::rlimit(60)]
proof fn lemma_items_run_two(
    s: ResponsesView,
    a: Seq<EventView>,
    b: Seq<EventView>,
    ids: Seq<Seq<char>>,
)
    requires
        ids.len() == a.len() + b.len(),
    ensures
        crate::wire::responses_laws::run(s, a + b, ids) == crate::wire::responses_laws::run(
            crate::wire::responses_laws::run(s, a, ids.take(a.len() as int)),
            b,
            ids.skip(a.len() as int),
        ),
    decreases b.len(),
{
    let n = a.len() as int;
    if b.len() == 0 {
        assert(a + b =~= a);
        assert(ids.take(n) =~= ids);
    } else {
        let c = b.drop_last();
        let less = ids.drop_last();
        lemma_items_run_two(s, a, c, less);
        assert((a + b).drop_last() =~= a + c);
        assert((a + b).last() == b.last());
        crate::wire::responses_laws::lemma_later_ids_do_not_matter(s, a + c, less, ids);
        assert(less.take(n) =~= ids.take(n));
        let mid = crate::wire::responses_laws::run(s, a, ids.take(n));
        crate::wire::responses_laws::lemma_later_ids_do_not_matter(
            mid,
            c,
            less.skip(n),
            ids.skip(n),
        );
    }
}

proof fn lemma_named_at(s: ResponsesView, evs: Seq<EventView>, ids: Seq<Seq<char>>, i: int)
    requires
        crate::wire::responses_laws::named(s, evs, ids),
        0 <= i < evs.len(),
        crate::wire::responses::opens_item(
            crate::wire::responses_laws::run(s, evs.take(i), ids),
            evs[i],
        ),
    ensures
        crate::wire::is_id(crate::wire::responses::item_prefix(evs[i]), ids[i]),
{
    reveal(crate::wire::responses_laws::named);
}

proof fn lemma_named_len(s: ResponsesView, evs: Seq<EventView>, ids: Seq<Seq<char>>)
    requires
        crate::wire::responses_laws::named(s, evs, ids),
    ensures
        ids.len() == evs.len(),
{
    reveal(crate::wire::responses_laws::named);
}

/// The state before the event `i` of `b`, where `b` follows `a`.
#[verifier::spinoff_prover]
#[verifier::rlimit(60)]
proof fn lemma_state_within(
    s: ResponsesView,
    a: Seq<EventView>,
    b: Seq<EventView>,
    ids: Seq<Seq<char>>,
    i: int,
)
    requires
        ids.len() == a.len() + b.len(),
        0 <= i < b.len(),
    ensures
        crate::wire::responses_laws::run(s, (a + b).take(a.len() + i), ids)
            == crate::wire::responses_laws::run(
            crate::wire::responses_laws::run(s, a, ids.take(a.len() as int)),
            b.take(i),
            ids.skip(a.len() as int),
        ),
{
    let n = a.len() as int;
    let part = a + b.take(i);
    let some = ids.take(n + i);
    assert((a + b).take(n + i) =~= part);
    lemma_items_run_two(s, a, b.take(i), some);
    assert(some.take(n) =~= ids.take(n));
    crate::wire::responses_laws::lemma_later_ids_do_not_matter(s, part, some, ids);
    crate::wire::responses_laws::lemma_later_ids_do_not_matter(
        crate::wire::responses_laws::run(s, a, ids.take(n)),
        b.take(i),
        some.skip(n),
        ids.skip(n),
    );
}

proof fn lemma_named_head(
    s: ResponsesView,
    a: Seq<EventView>,
    b: Seq<EventView>,
    ids: Seq<Seq<char>>,
)
    requires
        crate::wire::responses_laws::named(s, a + b, ids),
    ensures
        crate::wire::responses_laws::named(s, a, ids.take(a.len() as int)),
{
    let head = ids.take(a.len() as int);
    lemma_named_len(s, a + b, ids);
    assert forall|i: int|
        0 <= i < a.len() && crate::wire::responses::opens_item(
            crate::wire::responses_laws::run(s, a.take(i), head),
            a[i],
        ) implies crate::wire::is_id(crate::wire::responses::item_prefix(a[i]), #[trigger] head[i]) by {
        assert((a + b).take(i) =~= a.take(i));
        assert((a + b)[i] == a[i]);
        crate::wire::responses_laws::lemma_later_ids_do_not_matter(s, a.take(i), head, ids);
        lemma_named_at(s, a + b, ids, i);
    }
    reveal(crate::wire::responses_laws::named);
}

#[verifier::spinoff_prover]
#[verifier::rlimit(60)]
proof fn lemma_named_two(
    s: ResponsesView,
    a: Seq<EventView>,
    b: Seq<EventView>,
    ids: Seq<Seq<char>>,
)
    requires
        crate::wire::responses_laws::named(s, a + b, ids),
    ensures
        ids.len() == a.len() + b.len(),
        crate::wire::responses_laws::named(s, a, ids.take(a.len() as int)),
        crate::wire::responses_laws::named(
            crate::wire::responses_laws::run(s, a, ids.take(a.len() as int)),
            b,
            ids.skip(a.len() as int),
        ),
{
    let n = a.len() as int;
    let tail = ids.skip(n);
    let mid = crate::wire::responses_laws::run(s, a, ids.take(n));
    lemma_named_len(s, a + b, ids);
    lemma_named_head(s, a, b, ids);
    assert forall|i: int|
        0 <= i < b.len() && crate::wire::responses::opens_item(
            crate::wire::responses_laws::run(mid, b.take(i), tail),
            b[i],
        ) implies crate::wire::is_id(crate::wire::responses::item_prefix(b[i]), #[trigger] tail[i]) by {
        assert((a + b)[n + i] == b[i]);
        lemma_state_within(s, a, b, ids, i);
        lemma_named_at(s, a + b, ids, n + i);
    }
    reveal(crate::wire::responses_laws::named);
}

proof fn lemma_items_run_one(s: ResponsesView, ev: EventView, ids: Seq<Seq<char>>)
    requires
        ids.len() == 1,
    ensures
        crate::wire::responses_laws::run(s, seq![ev], ids) == s.after(ev, ids[0]),
        crate::wire::responses_laws::named(s, seq![ev], ids) && crate::wire::responses::opens_item(
            s,
            ev,
        ) ==> crate::wire::is_id(crate::wire::responses::item_prefix(ev), ids[0]),
{
    let evs = seq![ev];
    assert(evs.drop_last() =~= Seq::empty());
    assert(evs.take(0) =~= Seq::empty());
    reveal_with_fuel(crate::wire::responses_laws::run, 2);
    assert(evs[0] == ev);
    if crate::wire::responses_laws::named(s, evs, ids) && crate::wire::responses::opens_item(s, ev) {
        lemma_named_at(s, evs, ids, 0);
    }
}

/// One call of a whole message: it closes what was open and adds its item.
proof fn lemma_one_call_item(s: ResponsesView, index: u32, tc: Json, ids: Seq<Seq<char>>)
    requires
        s.tools.len() == 0,
        crate::wire::responses_laws::named(
            s,
            crate::wire::chat::whole_call_events(index, tc),
            ids,
        ),
    ensures
        crate::wire::is_id("fc"@, ids[0]),
        ({
            let t = crate::wire::responses_laws::run(
                s,
                crate::wire::chat::whole_call_events(index, tc),
                ids,
            );
            &&& t.tools.len() == 0
            &&& t.reasoning_item is None && t.message_item is None
            &&& t.response_id == s.response_id && t.model == s.model && t.usage == s.usage
            &&& t.final_items == settled_items(s).final_items.push(call_item(tc, ids[0]))
        }),
{
    let call_id = tc.str_or_empty("id"@);
    let name = crate::wire::chat::function_str(tc, "name"@);
    let args = crate::wire::chat::function_str(tc, "arguments"@);
    let e1 = EventView::ToolCallStart { index, call_id, name };
    let e2 = EventView::ToolCallArgsDelta { index, delta: args };
    let e3 = EventView::ToolCallDone { index };
    let evs = crate::wire::chat::whole_call_events(index, tc);
    lemma_named_len(s, evs, ids);
    let i1 = ids.take(1);
    let s1 = s.after(e1, ids[0]);
    lemma_items_run_one(s, e1, i1);
    assert(s.tools =~= Seq::empty());
    let t1 = ToolItemView {
        id: ids[0],
        output_index: s.next_output_index,
        call_id: crate::wire::responses::call_id_or(call_id, ids[0]),
        name,
        args: Seq::empty(),
    };
    assert(s1.tools =~= seq![(index, t1)]);
    assert(s1.tools.drop_last() =~= Seq::empty());
    if args.len() > 0 {
        let i2 = ids.subrange(1, 2);
        let i3 = ids.skip(2);
        assert(evs =~= seq![e1] + seq![e2] + seq![e3]);
        lemma_named_two(s, seq![e1] + seq![e2], seq![e3], ids);
        lemma_named_two(s, seq![e1], seq![e2], ids.take(2));
        assert(ids.take(2).take(1) =~= i1);
        assert(ids.take(2).skip(1) =~= i2);
        let s2 = s1.after(e2, i2[0]);
        let t2 = ToolItemView { args: t1.args + args, ..t1 };
        assert(t1.args + args =~= args);
        assert(s2.tools =~= seq![(index, t2)]);
        assert(s2.tools.drop_last() =~= Seq::empty());
        lemma_items_run_one(s1, e2, i2);
        lemma_items_run_one(s2, e3, i3);
        lemma_items_run_two(s, seq![e1], seq![e2], ids.take(2));
        lemma_items_run_two(s, seq![e1] + seq![e2], seq![e3], ids);
    } else {
        let i3 = ids.skip(1);
        assert(args =~= Seq::empty());
        assert(evs =~= seq![e1] + seq![e3]);
        lemma_named_two(s, seq![e1], seq![e3], ids);
        lemma_items_run_one(s1, e3, i3);
        lemma_items_run_two(s, seq![e1], seq![e3], ids);
    }
}

/// The calls of a whole message, one after the other; gives the identifiers of their items.
#[verifier::spinoff_prover]
#[verifier::rlimit(60)]
proof fn lemma_all_call_items(s: ResponsesView, tcs: Seq<Json>, ids: Seq<Seq<char>>) -> (r: Seq<
    Seq<char>,
>)
    requires
        s.tools.len() == 0,
        crate::wire::responses_laws::named(s, crate::wire::chat::whole_calls_events(tcs), ids),
    ensures
        r.len() == tcs.len(),
        forall|i: int| 0 <= i < r.len() ==> crate::wire::is_id("fc"@, #[trigger] r[i]),
        ({
            let t = crate::wire::responses_laws::run(
                s,
                crate::wire::chat::whole_calls_events(tcs),
                ids,
            );
            &&& t.tools.len() == 0
            &&& t.response_id == s.response_id && t.model == s.model && t.usage == s.usage
            &&& settled_items(t).final_items == settled_items(s).final_items + call_items(tcs, r)
        }),
    decreases tcs.len(),
{
    if tcs.len() == 0 {
        let r: Seq<Seq<char>> = Seq::empty();
        assert(settled_items(s).final_items + call_items(tcs, r) =~= settled_items(s).final_items);
        r
    } else {
        let init = tcs.drop_last();
        let a = crate::wire::chat::whole_calls_events(init);
        let index = ((tcs.len() - 1) % 0x1_0000_0000) as u32;
        let b = crate::wire::chat::whole_call_events(index, tcs.last());
        let n = a.len() as int;
        lemma_named_two(s, a, b, ids);
        let before = lemma_all_call_items(s, init, ids.take(n));
        let mid = crate::wire::responses_laws::run(s, a, ids.take(n));
        lemma_one_call_item(mid, index, tcs.last(), ids.skip(n));
        lemma_items_run_two(s, a, b, ids);
        let r = before.push(ids.skip(n)[0]);
        assert(settled_items(s).final_items + call_items(tcs, r) =~= (settled_items(s).final_items
            + call_items(init, before)).push(call_item(tcs.last(), ids.skip(n)[0])));
        r
    }
}

/// What the message reasons and says; gives the identifiers of the two items.
proof fn lemma_text_items(s: ResponsesView, d: Json, ids: Seq<Seq<char>>) -> (r: (
    Seq<char>,
    Seq<char>,
))
    requires
        s.tools.len() == 0,
        s.reasoning_item is None,
        s.message_item is None,
        s.reasoning_text.len() == 0,
        s.message_text.len() == 0,
        s.final_items.len() == 0,
        crate::wire::responses_laws::named(s, crate::wire::chat::text_events(d), ids),
    ensures
        thought(Some(d)).len() > 0 ==> crate::wire::is_id("rs"@, r.0),
        told(Some(d)).len() > 0 ==> crate::wire::is_id("msg"@, r.1),
        ({
            let t = crate::wire::responses_laws::run(s, crate::wire::chat::text_events(d), ids);
            &&& t.tools.len() == 0
            &&& t.response_id == s.response_id && t.model == s.model && t.usage == s.usage
            &&& settled_items(t).final_items == spoken_items(Some(d), r.0, r.1)
        }),
{
    let m = Some(d);
    let evs = crate::wire::chat::text_events(d);
    lemma_named_len(s, evs, ids);
    let e1 = EventView::ReasoningDelta { text: thought(m) };
    let e2 = EventView::TextDelta { text: told(m) };
    assert(s.reasoning_text + thought(m) =~= thought(m));
    assert(s.message_text + told(m) =~= told(m));
    assert(s.final_items =~= Seq::empty());
    if thought(m).len() > 0 && told(m).len() > 0 {
        assert(evs =~= seq![e1] + seq![e2]);
        lemma_named_two(s, seq![e1], seq![e2], ids);
        lemma_items_run_two(s, seq![e1], seq![e2], ids);
        lemma_items_run_one(s, e1, ids.take(1));
        let s1 = s.after(e1, ids[0]);
        lemma_items_run_one(s1, e2, ids.skip(1));
        let t = s1.after(e2, ids[1]);
        assert(settled_items(t).final_items =~= spoken_items(m, ids[0], ids[1]));
        (ids[0], ids[1])
    } else if thought(m).len() > 0 {
        assert(evs =~= seq![e1]);
        lemma_items_run_one(s, e1, ids);
        assert(settled_items(s.after(e1, ids[0])).final_items =~= spoken_items(m, ids[0], ids[0]));
        (ids[0], ids[0])
    } else if told(m).len() > 0 {
        assert(evs =~= seq![e2]);
        lemma_items_run_one(s, e2, ids);
        assert(settled_items(s.after(e2, ids[0])).final_items =~= spoken_items(m, ids[0], ids[0]));
        (ids[0], ids[0])
    } else {
        assert(evs =~= Seq::empty());
        let none: Seq<char> = Seq::empty();
        assert(settled_items(s).final_items =~= spoken_items(m, none, none));
        (none, none)
    }
}

/// The events of the message of a whole answer.
spec fn body_events(m: Option<Json>) -> Seq<EventView> {
    match m {
        Some(d) => crate::wire::chat::text_events(d) + crate::wire::chat::whole_calls_events(
            calls_of(m),
        ),
        None => Seq::empty(),
    }
}

/// The message of a whole answer; gives the identifiers of its items.
proof fn lemma_body_items(s: ResponsesView, m: Option<Json>, all: Seq<Seq<char>>) -> (r: (
    Seq<char>,
    Seq<char>,
    Seq<Seq<char>>,
))
    requires
        s.tools.len() == 0,
        s.reasoning_item is None,
        s.message_item is None,
        s.reasoning_text.len() == 0,
        s.message_text.len() == 0,
        s.final_items.len() == 0,
        crate::wire::responses_laws::named(s, body_events(m), all),
    ensures
        items_named(m, r.0, r.1, r.2),
        ({
            let t = crate::wire::responses_laws::run(s, body_events(m), all);
            &&& t.tools.len() == 0
            &&& t.response_id == s.response_id && t.model == s.model && t.usage == s.usage
            &&& settled_items(t).final_items == output_items(m, r.0, r.1, r.2)
        }),
{
    match m {
        Some(d) => {
            let texts = crate::wire::chat::text_events(d);
            let calls = crate::wire::chat::whole_calls_events(calls_of(m));
            let k = texts.len() as int;
            lemma_named_two(s, texts, calls, all);
            lemma_items_run_two(s, texts, calls, all);
            let (rid, mid) = lemma_text_items(s, d, all.take(k));
            let s2 = crate::wire::responses_laws::run(s, texts, all.take(k));
            let ids = lemma_all_call_items(s2, calls_of(m), all.skip(k));
            (rid, mid, ids)
        },
        None => {
            let none: Seq<char> = Seq::empty();
            let ids: Seq<Seq<char>> = Seq::empty();
            assert(s.final_items =~= output_items(m, none, none, ids));
            (none, none, ids)
        },
    }
}

/// The end of a whole answer: its token counts and its completion.
proof fn lemma_end_items(
    s: ResponsesView,
    resp: Json,
    ids: Seq<Seq<char>>,
)
    requires
        s.tools.len() == 0,
        s.usage is None,
        ids.len() == crate::wire::chat::usage_events(resp).len() + 1,
    ensures
        ({
            let t = crate::wire::responses_laws::run(
                s,
                crate::wire::chat::usage_events(resp) + seq![EventView::Completed],
                ids,
            );
            &&& t.response_id == s.response_id && t.model == s.model
            &&& t.usage == counts_of(resp)
            &&& t.final_items == settled_items(s).final_items
        }),
{
    let usage = crate::wire::chat::usage_events(resp);
    let last = seq![EventView::Completed];
    let n = usage.len() as int;
    lemma_items_run_two(s, usage, last, ids);
    let mid = crate::wire::responses_laws::run(s, usage, ids.take(n));
    if usage.len() > 0 {
        assert(usage =~= seq![usage[0]]);
        lemma_items_run_one(s, usage[0], ids.take(n));
    }
    lemma_items_run_one(mid, EventView::Completed, ids.skip(n));
    assert(mid.tools =~= Seq::empty());
    assert(settled_items(mid).final_items == settled_items(s).final_items);
}

/// A whole upstream answer is carried over as it is: the Responses object has its
/// reasoning, its text and its tool calls as output items, in that order and under fresh
/// identifiers, and the answer's token counts.
pub proof fn whole_answers_become_responses(resp: Json, response_id: Seq<char>, answer: Json)
    requires
        crate::server::is_responses_answer(resp, response_id, answer),
    ensures
        exists|rid: Seq<char>, mid: Seq<char>, ids: Seq<Seq<char>>| #[trigger]
            items_named(message_of(resp), rid, mid, ids) && answer == (ResponsesView {
                response_id,
                model: resp.str_or_empty("model"@),
                usage: counts_of(resp),
                final_items: output_items(message_of(resp), rid, mid, ids),
                ..ResponsesView::initial()
            }).completed_response(),
{
    let s0 = ResponsesView::initial();
    let evs = crate::wire::chat::completion_events(resp, response_id);
    let all = choose|ids: Seq<Seq<char>>| #[trigger]
        crate::wire::responses_laws::named(s0, evs, ids) && answer
            == crate::wire::responses_laws::run(s0, evs, ids).completed_response();
    let created = EventView::Created { response_id, model: resp.str_or_empty("model"@) };
    let m = message_of(resp);
    let body = body_events(m);
    let tail = crate::wire::chat::usage_events(resp) + seq![EventView::Completed];
    let head = seq![created] + body;
    assert(evs =~= head + tail);
    let n = head.len() as int;
    lemma_named_two(s0, head, tail, all);
    lemma_items_run_two(s0, head, tail, all);
    let front = all.take(n);
    lemma_named_two(s0, seq![created], body, front);
    lemma_items_run_two(s0, seq![created], body, front);
    lemma_items_run_one(s0, created, front.take(1));
    let s1 = s0.after(created, front[0]);
    let (rid, mid, ids) = lemma_body_items(s1, m, front.skip(1));
    let s2 = crate::wire::responses_laws::run(s1, body, front.skip(1));
    lemma_end_items(s2, resp, all.skip(n));
    assert(items_named(m, rid, mid, ids));
}

} // verus!
