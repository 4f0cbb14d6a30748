//! What the frames of a Responses stream say: each event's text, name and place is found in
//! the frames that the event gives.

use vstd::prelude::*;

use crate::canonical::EventView;
use crate::json::Json;
use crate::wire::responses::{ItemView, ResponsesStep, ResponsesView, ToolItemView};
use crate::wire::FrameView;

verus! {

proof fn lemma_short_keys()
    ensures
        "id"@.len() == 2,
        "type"@.len() == 4,
        "item"@.len() == 4,
        "text"@.len() == 4,
        "part"@.len() == 4,
        "role"@.len() == 4,
        "name"@.len() == 4,
        "code"@.len() == 4,
        "type"@ != "item"@,
        "type"@ != "text"@,
        "type"@ != "part"@,
        "type"@ != "role"@,
        "type"@ != "name"@,
        "delta"@.len() == 5,
        "model"@.len() == 5,
        "usage"@.len() == 5,
        "error"@.len() == 5,
        "model"@ != "usage"@,
        "status"@.len() == 6,
        "object"@.len() == 6,
        "output"@.len() == 6,
        "status"@ != "object"@,
        "status"@ != "output"@,
        "object"@ != "output"@,
{
    reveal_strlit("id");
    reveal_strlit("type");
    reveal_strlit("item");
    reveal_strlit("text");
    reveal_strlit("part");
    reveal_strlit("role");
    reveal_strlit("name");
    reveal_strlit("code");
    reveal_strlit("delta");
    reveal_strlit("model");
    reveal_strlit("usage");
    reveal_strlit("error");
    reveal_strlit("status");
    reveal_strlit("object");
    reveal_strlit("output");
    assert("type"@[1] == 'y' && "item"@[1] == 't' && "text"@[1] == 'e' && "part"@[1] == 'a');
    assert("role"@[1] == 'o' && "name"@[1] == 'a');
    assert("model"@[0] == 'm' && "usage"@[0] == 'u');
    assert("status"@[0] == 's' && "object"@[1] == 'b' && "output"@[1] == 'u');
    assert("object"@[0] == 'o' && "output"@[0] == 'o');
}

proof fn lemma_long_keys()
    ensures
        "item_id"@.len() == 7,
        "content"@.len() == 7,
        "summary"@.len() == 7,
        "call_id"@.len() == 7,
        "message"@.len() == 7,
        "response"@.len() == 8,
        "arguments"@.len() == 9,
        "annotations"@.len() == 11,
        "output_index"@.len() == 12,
        "content_index"@.len() == 13,
        "summary_index"@.len() == 13,
        "sequence_number"@.len() == 15,
{
    reveal_strlit("item_id");
    reveal_strlit("content");
    reveal_strlit("summary");
    reveal_strlit("call_id");
    reveal_strlit("message");
    reveal_strlit("response");
    reveal_strlit("arguments");
    reveal_strlit("annotations");
    reveal_strlit("output_index");
    reveal_strlit("content_index");
    reveal_strlit("summary_index");
    reveal_strlit("sequence_number");
}

/// Whether a frame is a `name` frame.
pub open spec fn is_frame(f: FrameView, name: Seq<char>) -> bool {
    f.event == name && f.data.get("type"@) == Some(Json::Str(name))
}

/// Whether a `name` frame is about the item `id`, which has the place `place`.
pub open spec fn is_about(f: FrameView, name: Seq<char>, id: Seq<char>, place: nat) -> bool {
    &&& is_frame(f, name)
    &&& f.data.get("item_id"@) == Some(Json::Str(id))
    &&& f.data.get("output_index"@) == Some(Json::num(place as u64))
}

/// Whether a frame opens or closes the item that `j` is, at `place`.
pub open spec fn carries(f: FrameView, name: Seq<char>, place: nat, j: Json) -> bool {
    &&& is_frame(f, name)
    &&& f.data.get("output_index"@) == Some(Json::num(place as u64))
    &&& f.data.get("item"@) == Some(j)
}

/// Whether `j` is a piece of output text that says `text`.
pub open spec fn says_text(j: Option<Json>, text: Seq<char>) -> bool {
    j matches Some(p) && {
        &&& p.get("type"@) == Some(Json::Str("output_text"@))
        &&& p.get("text"@) == Some(Json::Str(text))
        &&& p.get("annotations"@) == Some(Json::Arr(Seq::empty()))
    }
}

/// Whether `j` is the reasoning item `id`, whose one summary is `text`.
pub open spec fn is_reasoning(j: Json, id: Seq<char>, text: Seq<char>) -> bool {
    &&& j.get("type"@) == Some(Json::Str("reasoning"@))
    &&& j.get("id"@) == Some(Json::Str(id))
    &&& j.get("summary"@) matches Some(Json::Arr(a)) && a.len() == 1 && a[0].get("type"@) == Some(
        Json::Str("summary_text"@),
    ) && a[0].get("text"@) == Some(Json::Str(text))
}

/// Whether `j` is the finished message item `id`, whose one piece says `text`.
pub open spec fn is_message(j: Json, id: Seq<char>, text: Seq<char>) -> bool {
    &&& j.get("type"@) == Some(Json::Str("message"@))
    &&& j.get("id"@) == Some(Json::Str(id))
    &&& j.get("role"@) == Some(Json::Str("assistant"@))
    &&& j.get("status"@) == Some(Json::Str("completed"@))
    &&& j.get("content"@) matches Some(Json::Arr(a)) && a.len() == 1 && says_text(Some(a[0]), text)
}

/// Whether `j` is the function-call item `id`.
pub open spec fn is_call(
    j: Json,
    id: Seq<char>,
    call_id: Seq<char>,
    name: Seq<char>,
    args: Seq<char>,
    status: Seq<char>,
) -> bool {
    &&& j.get("type"@) == Some(Json::Str("function_call"@))
    &&& j.get("id"@) == Some(Json::Str(id))
    &&& j.get("call_id"@) == Some(Json::Str(call_id))
    &&& j.get("name"@) == Some(Json::Str(name))
    &&& j.get("arguments"@) == Some(Json::Str(args))
    &&& j.get("status"@) == Some(Json::Str(status))
}

/// Whether the two frames from `k` on close a reasoning item: they give its whole text, and
/// the item `j`.
pub open spec fn close_reasoning_at(
    f: Seq<FrameView>,
    k: int,
    item: ItemView,
    text: Seq<char>,
    j: Json,
) -> bool {
    &&& is_about(f[k], "response.reasoning_summary_text.done"@, item.id, item.output_index)
    &&& f[k].data.get("summary_index"@) == Some(Json::num(0))
    &&& f[k].data.get("text"@) == Some(Json::Str(text))
    &&& carries(f[k + 1], "response.output_item.done"@, item.output_index, j)
    &&& is_reasoning(j, item.id, text)
}

/// Whether the three frames from `k` on close a message item: they give its whole text, its
/// one piece, and the item `j`.
pub open spec fn close_message_at(
    f: Seq<FrameView>,
    k: int,
    item: ItemView,
    text: Seq<char>,
    j: Json,
) -> bool {
    &&& is_about(f[k], "response.output_text.done"@, item.id, item.output_index)
    &&& f[k].data.get("content_index"@) == Some(Json::num(0))
    &&& f[k].data.get("text"@) == Some(Json::Str(text))
    &&& is_about(f[k + 1], "response.content_part.done"@, item.id, item.output_index)
    &&& f[k + 1].data.get("content_index"@) == Some(Json::num(0))
    &&& says_text(f[k + 1].data.get("part"@), text)
    &&& carries(f[k + 2], "response.output_item.done"@, item.output_index, j)
    &&& is_message(j, item.id, text)
}

/// Whether the two frames from `k` on close a function call: they give its whole arguments,
/// and the item `j`.
pub open spec fn close_call_at(f: Seq<FrameView>, k: int, t: ToolItemView, j: Json) -> bool {
    &&& is_about(f[k], "response.function_call_arguments.done"@, t.id, t.output_index)
    &&& f[k].data.get("arguments"@) == Some(Json::Str(t.args))
    &&& carries(f[k + 1], "response.output_item.done"@, t.output_index, j)
    &&& is_call(j, t.id, t.call_id, t.name, t.args, "completed"@)
}

/// The creation gives one frame, with the response that has begun: its identifier and model
/// are those of the event, and it has no output yet.
pub proof fn creation_is_told(
    s: ResponsesView,
    response_id: Seq<char>,
    model: Seq<char>,
    id: Seq<char>,
)
    ensures
        ({
            let f = s.frames(EventView::Created { response_id, model }, id);
            let t = s.after(EventView::Created { response_id, model }, id);
            &&& f.len() == 1
            &&& is_frame(f[0], "response.created"@)
            &&& f[0].data.get2("response"@, "id"@) == Some(Json::Str(response_id))
            &&& f[0].data.get2("response"@, "object"@) == Some(Json::Str("response"@))
            &&& f[0].data.get2("response"@, "status"@) == Some(Json::Str("in_progress"@))
            &&& f[0].data.get2("response"@, "model"@) == Some(Json::Str(model))
            &&& f[0].data.get2("response"@, "output"@) == Some(Json::Arr(Seq::empty()))
            &&& t == (ResponsesView { response_id, model, seq: s.seq + 1, ..s })
        }),
{
    lemma_short_keys();
    lemma_long_keys();
}

/// A piece of reasoning gives a frame with exactly this piece, as the last of its frames. It
/// is about the open reasoning item; where there is none, one is opened before, at the next
/// place and under the name given for it.
pub proof fn reasoning_is_told(s: ResponsesView, text: Seq<char>, id: Seq<char>)
    ensures
        ({
            let f = s.frames(EventView::ReasoningDelta { text }, id);
            let t = s.after(EventView::ReasoningDelta { text }, id);
            let n = s.next_output_index;
            let item = match s.reasoning_item {
                Some(item) => item,
                None => ItemView { id, output_index: n },
            };
            &&& f.len() == if s.reasoning_item is Some {
                1int
            } else {
                2int
            }
            &&& s.reasoning_item is None ==> {
                let j = f[0].data.get("item"@)->0;
                &&& carries(f[0], "response.output_item.added"@, n, j)
                &&& j.get("type"@) == Some(Json::Str("reasoning"@))
                &&& j.get("id"@) == Some(Json::Str(id))
                &&& j.get("summary"@) == Some(Json::Arr(Seq::empty()))
            }
            &&& is_about(
                f.last(),
                "response.reasoning_summary_text.delta"@,
                item.id,
                item.output_index,
            )
            &&& f.last().data.get("summary_index"@) == Some(Json::num(0))
            &&& f.last().data.get("delta"@) == Some(Json::Str(text))
            &&& t.reasoning_item == Some(item)
            &&& t.reasoning_text == s.reasoning_text + text
            &&& t == (ResponsesView {
                reasoning_item: t.reasoning_item,
                reasoning_text: t.reasoning_text,
                next_output_index: (n + f.len() - 1) as nat,
                seq: s.seq + f.len(),
                ..s
            })
        }),
{
    lemma_short_keys();
    lemma_long_keys();
}

/// A piece of text gives a frame with exactly this piece, as the last of its frames. It is
/// about the open message item; where there is none, one is opened before, at the next place
/// and under the name given for it, with one piece that is empty yet. A reasoning item that
/// is open is closed first.
pub proof fn text_is_told(s: ResponsesView, text: Seq<char>, id: Seq<char>)
    ensures
        ({
            let f = s.frames(EventView::TextDelta { text }, id);
            let t = s.after(EventView::TextDelta { text }, id);
            let n = s.next_output_index;
            let item = match s.message_item {
                Some(item) => item,
                None => ItemView { id, output_index: n },
            };
            let k: int = if s.reasoning_item is Some {
                2
            } else {
                0
            };
            let m: int = if s.message_item is Some {
                0
            } else {
                2
            };
            &&& f.len() == k + m + 1
            &&& s.reasoning_item matches Some(r) ==> t.final_items.len() == s.final_items.len() + 1
                && close_reasoning_at(f, 0, r, s.reasoning_text, t.final_items.last())
            &&& s.message_item is None ==> {
                let j = f[k].data.get("item"@)->0;
                &&& carries(f[k], "response.output_item.added"@, n, j)
                &&& j.get("type"@) == Some(Json::Str("message"@))
                &&& j.get("id"@) == Some(Json::Str(id))
                &&& j.get("role"@) == Some(Json::Str("assistant"@))
                &&& j.get("status"@) == Some(Json::Str("in_progress"@))
                &&& j.get("content"@) == Some(Json::Arr(Seq::empty()))
                &&& is_about(f[k + 1], "response.content_part.added"@, id, n)
                &&& f[k + 1].data.get("content_index"@) == Some(Json::num(0))
                &&& says_text(f[k + 1].data.get("part"@), Seq::empty())
            }
            &&& is_about(f.last(), "response.output_text.delta"@, item.id, item.output_index)
            &&& f.last().data.get("content_index"@) == Some(Json::num(0))
            &&& f.last().data.get("delta"@) == Some(Json::Str(text))
            &&& t.message_item == Some(item)
            &&& t.message_text == s.message_text + text
            &&& t == (ResponsesView {
                reasoning_item: None,
                message_item: t.message_item,
                message_text: t.message_text,
                final_items: if k == 0 {
                    s.final_items
                } else {
                    s.final_items.push(t.final_items.last())
                },
                next_output_index: if m == 0 {
                    n
                } else {
                    n + 1
                },
                seq: s.seq + f.len(),
                ..s
            })
        }),
{
    lemma_short_keys();
    lemma_long_keys();
    let st = ResponsesStep { state: s, frames: Seq::empty() }.close_reasoning();
    assert(st.frames.len() == if s.reasoning_item is Some {
        2int
    } else {
        0int
    });
}

/// The start of a call closes the reasoning and the message that are open, in this order,
/// and opens an item for the call at the next place, under the name given for it: with the
/// call's identifier, or the item's where the call has none, with its function's name, and
/// with no arguments yet.
pub proof fn calls_are_told(
    s: ResponsesView,
    index: u32,
    call_id: Seq<char>,
    name: Seq<char>,
    id: Seq<char>,
)
    ensures
        ({
            let f = s.frames(EventView::ToolCallStart { index, call_id, name }, id);
            let t = s.after(EventView::ToolCallStart { index, call_id, name }, id);
            let n = s.next_output_index;
            let goes_by = if call_id.len() > 0 {
                call_id
            } else {
                id
            };
            let k: int = if s.reasoning_item is Some {
                2
            } else {
                0
            };
            let m: int = if s.message_item is Some {
                3
            } else {
                0
            };
            let i = s.final_items.len() as int;
            &&& f.len() == k + m + 1
            &&& s.reasoning_item matches Some(r) ==> close_reasoning_at(
                f,
                0,
                r,
                s.reasoning_text,
                t.final_items[i],
            )
            &&& s.message_item matches Some(r) ==> close_message_at(
                f,
                k,
                r,
                s.message_text,
                t.final_items.last(),
            )
            &&& t.final_items.len() == s.final_items.len() + (if k == 0 {
                0int
            } else {
                1int
            }) + (if m == 0 {
                0int
            } else {
                1int
            })
            &&& t.final_items.take(i) == s.final_items
            &&& carries(
                f.last(),
                "response.output_item.added"@,
                n,
                f.last().data.get("item"@)->0,
            )
            &&& is_call(
                f.last().data.get("item"@)->0,
                id,
                goes_by,
                name,
                Seq::empty(),
                "in_progress"@,
            )
            &&& t == (ResponsesView {
                reasoning_item: None,
                message_item: None,
                final_items: t.final_items,
                next_output_index: n + 1,
                tools: crate::wire::slots::slot_set(
                    s.tools,
                    index,
                    ToolItemView {
                        id,
                        output_index: n,
                        call_id: goes_by,
                        name,
                        args: Seq::empty(),
                    },
                ),
                seq: s.seq + f.len(),
                ..s
            })
        }),
{
    lemma_short_keys();
    lemma_long_keys();
    let a = ResponsesStep { state: s, frames: Seq::empty() }.close_reasoning();
    let b = a.close_message();
    assert(a.frames.len() == if s.reasoning_item is Some {
        2int
    } else {
        0int
    });
    assert(b.frames.len() == a.frames.len() + if s.message_item is Some {
        3int
    } else {
        0int
    });
    assert(b.state.final_items.take(s.final_items.len() as int) =~= s.final_items);
}

/// A piece of arguments gives one frame, with exactly this piece, about the item of the open
/// call that has its index, whose arguments grow by it; without such a call it gives nothing
/// and changes nothing.
pub proof fn arguments_are_told(s: ResponsesView, index: u32, delta: Seq<char>, id: Seq<char>)
    ensures
        ({
            let f = s.frames(EventView::ToolCallArgsDelta { index, delta }, id);
            let t = s.after(EventView::ToolCallArgsDelta { index, delta }, id);
            match crate::wire::slots::slot_get(s.tools, index) {
                None => f.len() == 0 && t == s,
                Some(c) => {
                    &&& f.len() == 1
                    &&& is_about(
                        f[0],
                        "response.function_call_arguments.delta"@,
                        c.id,
                        c.output_index,
                    )
                    &&& f[0].data.get("delta"@) == Some(Json::Str(delta))
                    &&& t == (ResponsesView {
                        tools: crate::wire::slots::slot_set(
                            s.tools,
                            index,
                            ToolItemView { args: c.args + delta, ..c },
                        ),
                        seq: s.seq + 1,
                        ..s
                    })
                },
            }
        }),
{
    lemma_short_keys();
    lemma_long_keys();
}

/// The end of a call closes the open call that has its index, with all its arguments;
/// without such a call it gives nothing and changes nothing.
pub proof fn finished_calls_are_told(s: ResponsesView, index: u32, id: Seq<char>)
    ensures
        ({
            let f = s.frames(EventView::ToolCallDone { index }, id);
            let t = s.after(EventView::ToolCallDone { index }, id);
            match crate::wire::slots::slot_get(s.tools, index) {
                None => f.len() == 0 && t == s,
                Some(c) => {
                    &&& f.len() == 2
                    &&& close_call_at(f, 0, c, t.final_items.last())
                    &&& t == (ResponsesView {
                        tools: crate::wire::slots::slot_remove(s.tools, index),
                        final_items: s.final_items.push(t.final_items.last()),
                        seq: s.seq + 2,
                        ..s
                    })
                },
            }
        }),
{
    lemma_short_keys();
    lemma_long_keys();
}

/// An error gives one frame, which says that the response has failed, with the error's
/// status and message; nothing else changes.
pub proof fn failures_are_told(s: ResponsesView, message: Seq<char>, status: u16, id: Seq<char>)
    ensures
        ({
            let f = s.frames(EventView::Error { message, status }, id);
            &&& f.len() == 1
            &&& is_frame(f[0], "response.failed"@)
            &&& f[0].data.get2("response"@, "id"@) == Some(Json::Str(s.response_id))
            &&& f[0].data.get2("response"@, "status"@) == Some(Json::Str("failed"@))
            &&& f[0].data.get("response"@)->0.get2("error"@, "code"@) == Some(
                Json::num(status as u64),
            )
            &&& f[0].data.get("response"@)->0.get2("error"@, "message"@) == Some(Json::Str(message))
            &&& s.after(EventView::Error { message, status }, id) == (ResponsesView {
                seq: s.seq + 1,
                ..s
            })
        }),
{
    lemma_short_keys();
    lemma_long_keys();
}

proof fn lemma_finished_calls(st: ResponsesStep, ts: Seq<(u32, ToolItemView)>)
    ensures
        ({
            let e = st.finish_tools(ts);
            let n = st.frames.len() as int;
            let i = st.state.final_items.len() as int;
            &&& e.frames.len() == n + 2 * ts.len()
            &&& e.frames.take(n) == st.frames
            &&& e.state.final_items.len() == i + ts.len()
            &&& e.state.final_items.take(i) == st.state.final_items
            &&& e.state == (ResponsesView { final_items: e.state.final_items, ..st.state })
            &&& forall|q: int|
                #![trigger ts[q]]
                0 <= q < ts.len() ==> close_call_at(
                    e.frames,
                    n + 2 * q,
                    ts[q].1,
                    e.state.final_items[i + q],
                )
        }),
    decreases ts.len(),
{
    lemma_short_keys();
    lemma_long_keys();
    let n = st.frames.len() as int;
    let i = st.state.final_items.len() as int;
    if ts.len() == 0 {
        assert(st.frames.take(n) =~= st.frames);
        assert(st.state.final_items.take(i) =~= st.state.final_items);
    } else {
        let ts2 = ts.drop_last();
        lemma_finished_calls(st, ts2);
        let d = st.finish_tools(ts2);
        let e = st.finish_tools(ts);
        assert(e.frames.take(n) =~= d.frames.take(n));
        assert(e.state.final_items.take(i) =~= d.state.final_items.take(i));
        assert forall|q: int| #![trigger ts[q]] 0 <= q < ts.len() implies close_call_at(
            e.frames,
            n + 2 * q,
            ts[q].1,
            e.state.final_items[i + q],
        ) by {
            if q < ts2.len() {
                assert(ts2[q] == ts[q]);
                assert(e.frames[n + 2 * q] == d.frames[n + 2 * q]);
                assert(e.frames[n + 2 * q + 1] == d.frames[n + 2 * q + 1]);
                assert(e.state.final_items[i + q] == d.state.final_items[i + q]);
            }
        }
    }
}

proof fn lemma_numbered_close(f: Seq<FrameView>, n: nat, k: int, t: ToolItemView, j: Json)
    requires
        0 <= k,
        k + 1 < f.len(),
        close_call_at(f, k, t, j),
    ensures
        close_call_at(crate::wire::responses::numbered(f, n), k, t, j),
{
    lemma_short_keys();
    lemma_long_keys();
}

/// The completion closes what is open: the reasoning, the message, and the calls in the
/// order of their indices, each with all its text or arguments. Its last frame completes the
/// response.
pub proof fn completion_is_told(s: ResponsesView, id: Seq<char>)
    ensures
        ({
            let f = s.frames(EventView::Completed, id);
            let t = s.after(EventView::Completed, id);
            let k: int = if s.reasoning_item is Some {
                2
            } else {
                0
            };
            let m: int = if s.message_item is Some {
                3
            } else {
                0
            };
            let i = s.final_items.len() as int;
            let i2 = i + (if k == 0 {
                0int
            } else {
                1int
            });
            let i3 = i2 + (if m == 0 {
                0int
            } else {
                1int
            });
            &&& f.len() == k + m + 2 * s.tools.len() + 1
            &&& t.final_items.len() == i3 + s.tools.len()
            &&& t.final_items.take(i) == s.final_items
            &&& s.reasoning_item matches Some(r) ==> close_reasoning_at(
                f,
                0,
                r,
                s.reasoning_text,
                t.final_items[i],
            )
            &&& s.message_item matches Some(r) ==> close_message_at(
                f,
                k,
                r,
                s.message_text,
                t.final_items[i2],
            )
            &&& forall|q: int|
                #![trigger s.tools[q]]
                0 <= q < s.tools.len() ==> close_call_at(
                    f,
                    k + m + 2 * q,
                    s.tools[q].1,
                    t.final_items[i3 + q],
                )
            &&& is_frame(f.last(), "response.completed"@)
            &&& t == (ResponsesView {
                reasoning_item: None,
                message_item: None,
                tools: Seq::empty(),
                final_items: t.final_items,
                seq: s.seq + f.len(),
                ..s
            })
        }),
{
    lemma_short_keys();
    lemma_long_keys();
    let a = ResponsesStep { state: s, frames: Seq::empty() }.close_reasoning();
    let b = a.close_message();
    assert(a.frames.len() == if s.reasoning_item is Some {
        2int
    } else {
        0int
    });
    assert(b.frames.len() == a.frames.len() + if s.message_item is Some {
        3int
    } else {
        0int
    });
    let c = ResponsesStep { state: ResponsesView { tools: Seq::empty(), ..b.state }, ..b };
    let d = c.finish_tools(s.tools);
    lemma_finished_calls(c, s.tools);
    let n = b.frames.len() as int;
    assert forall|q: int| 0 <= q < n implies #[trigger] d.frames[q] == b.frames[q] by {
        assert(d.frames.take(n)[q] == b.frames[q]);
    }
    let x = b.state.final_items.len() as int;
    assert forall|q: int| 0 <= q < x implies #[trigger] d.state.final_items[q]
        == b.state.final_items[q] by {
        assert(d.state.final_items.take(x)[q] == b.state.final_items[q]);
    }
    assert(d.state.final_items.take(s.final_items.len() as int) =~= s.final_items);
    let e = s.raw_step(EventView::Completed, id);
    let f = s.frames(EventView::Completed, id);
    assert(b.state.tools == s.tools);
    assert(e.frames.len() == d.frames.len() + 1);
    assert forall|q: int| #![trigger s.tools[q]] 0 <= q < s.tools.len() implies close_call_at(
        f,
        n + 2 * q,
        s.tools[q].1,
        d.state.final_items[x + q],
    ) by {
        assert(e.frames[n + 2 * q] == d.frames[n + 2 * q]);
        assert(e.frames[n + 2 * q + 1] == d.frames[n + 2 * q + 1]);
        lemma_numbered_close(e.frames, s.seq, n + 2 * q, s.tools[q].1, d.state.final_items[x + q]);
    }
}

/// The counts are kept, for the response that the stream comes to; they give no frame.
pub proof fn usage_is_kept(
    s: ResponsesView,
    input_tokens: u32,
    output_tokens: u32,
    total_tokens: u32,
    cached_input_tokens: u32,
    reasoning_tokens: u32,
    id: Seq<char>,
)
    ensures
        ({
            let ev = EventView::Usage {
                input_tokens,
                output_tokens,
                total_tokens,
                cached_input_tokens,
                reasoning_tokens,
            };
            let t = s.after(ev, id);
            let usage = t.completed_response().get("usage"@)->0;
            &&& s.frames(ev, id).len() == 0
            &&& t == (ResponsesView { usage: t.usage, ..s })
            &&& usage.get("input_tokens"@) == Some(Json::num(input_tokens as u64))
            &&& usage.get("output_tokens"@) == Some(Json::num(output_tokens as u64))
            &&& usage.get("total_tokens"@) == Some(Json::num(total_tokens as u64))
            &&& usage.get2("input_tokens_details"@, "cached_tokens"@) == Some(
                Json::num(cached_input_tokens as u64),
            )
            &&& usage.get2("output_tokens_details"@, "reasoning_tokens"@) == Some(
                Json::num(reasoning_tokens as u64),
            )
        }),
{
    lemma_short_keys();
    lemma_usage_keys();
}

proof fn lemma_usage_keys()
    ensures
        "input_tokens"@.len() == 12,
        "total_tokens"@.len() == 12,
        "input_tokens"@ != "total_tokens"@,
        "output_tokens"@.len() == 13,
        "input_tokens_details"@.len() == 20,
        "output_tokens_details"@.len() == 21,
{
    reveal_strlit("input_tokens");
    reveal_strlit("total_tokens");
    reveal_strlit("output_tokens");
    reveal_strlit("input_tokens_details");
    reveal_strlit("output_tokens_details");
    assert("input_tokens"@[0] == 'i' && "total_tokens"@[0] == 't');
}

/// The response that a stream comes to has the identifier and the model that it was created
/// with, is completed, and has the items that are done as its output; where nothing was
/// counted, all its counts are zero.
pub proof fn responses_are_whole(s: ResponsesView)
    ensures
        ({
            let r = s.completed_response();
            let usage = r.get("usage"@)->0;
            &&& r.get("id"@) == Some(Json::Str(s.response_id))
            &&& r.get("object"@) == Some(Json::Str("response"@))
            &&& r.get("status"@) == Some(Json::Str("completed"@))
            &&& r.get("model"@) == Some(Json::Str(s.model))
            &&& r.get("output"@) == Some(Json::Arr(s.final_items))
            &&& s.usage is None ==> {
                &&& usage.get("input_tokens"@) == Some(Json::num(0))
                &&& usage.get("output_tokens"@) == Some(Json::num(0))
                &&& usage.get("total_tokens"@) == Some(Json::num(0))
                &&& usage.get2("input_tokens_details"@, "cached_tokens"@) == Some(Json::num(0))
                &&& usage.get2("output_tokens_details"@, "reasoning_tokens"@) == Some(Json::num(0))
            }
        }),
{
    lemma_short_keys();
    lemma_usage_keys();
}

/// The pieces that the `name` frames give, in a row.
pub open spec fn pieces(frames: Seq<FrameView>, name: Seq<char>) -> Seq<char>
    decreases frames.len(),
{
    if frames.len() == 0 {
        Seq::empty()
    } else if frames.last().event == name {
        pieces(frames.drop_last(), name) + frames.last().data.str_or_empty("delta"@)
    } else {
        pieces(frames.drop_last(), name)
    }
}

pub proof fn lemma_pieces_add(a: Seq<FrameView>, b: Seq<FrameView>, name: Seq<char>)
    ensures
        pieces(a + b, name) == pieces(a, name) + pieces(b, name),
    decreases b.len(),
{
    if b.len() == 0 {
        assert(a + b =~= a);
        assert(pieces(a, name) + Seq::<char>::empty() =~= pieces(a, name));
    } else {
        lemma_pieces_add(a, b.drop_last(), name);
        assert((a + b).drop_last() =~= a + b.drop_last());
        assert((a + b).last() == b.last());
        if b.last().event == name {
            let d = b.last().data.str_or_empty("delta"@);
            assert(pieces(a, name) + pieces(b.drop_last(), name) + d =~= pieces(a, name) + (pieces(
                b.drop_last(),
                name,
            ) + d));
        }
    }
}

pub proof fn lemma_no_pieces(f: Seq<FrameView>, name: Seq<char>)
    requires
        forall|p: int| 0 <= p < f.len() ==> (#[trigger] f[p]).event != name,
    ensures
        pieces(f, name) == Seq::<char>::empty(),
    decreases f.len(),
{
    if f.len() > 0 {
        let g = f.drop_last();
        assert forall|p: int| 0 <= p < g.len() implies (#[trigger] g[p]).event != name by {
            assert(g[p] == f[p]);
        }
        lemma_no_pieces(g, name);
        assert(f[f.len() - 1] == f.last());
    }
}

/// The pieces are those of the last frame alone.
pub proof fn lemma_last_piece(f: Seq<FrameView>, name: Seq<char>)
    requires
        f.len() > 0,
        f.last().event == name,
        forall|p: int| 0 <= p < f.len() - 1 ==> (#[trigger] f[p]).event != name,
    ensures
        pieces(f, name) == f.last().data.str_or_empty("delta"@),
{
    let g = f.drop_last();
    assert forall|p: int| 0 <= p < g.len() implies (#[trigger] g[p]).event != name by {
        assert(g[p] == f[p]);
    }
    lemma_no_pieces(g, name);
    assert(Seq::<char>::empty() + f.last().data.str_or_empty("delta"@) =~= f.last().data.str_or_empty(
        "delta"@,
    ));
}

/// Whether the name is that of a frame that gives no piece.
spec fn is_plain(name: Seq<char>) -> bool {
    ||| name == "response.created"@
    ||| name == "response.output_item.added"@
    ||| name == "response.output_item.done"@
    ||| name == "response.content_part.added"@
    ||| name == "response.content_part.done"@
    ||| name == "response.output_text.done"@
    ||| name == "response.reasoning_summary_text.done"@
    ||| name == "response.function_call_arguments.done"@
    ||| name == "response.completed"@
    ||| name == "response.failed"@
}

proof fn lemma_frame_names()
    ensures
        "response.output_text.delta"@ != "response.reasoning_summary_text.delta"@,
        "response.output_text.delta"@ != "response.function_call_arguments.delta"@,
        "response.reasoning_summary_text.delta"@ != "response.function_call_arguments.delta"@,
        !is_plain("response.output_text.delta"@),
        !is_plain("response.reasoning_summary_text.delta"@),
        !is_plain("response.function_call_arguments.delta"@),
{
    reveal_strlit("response.output_item.added");
    reveal_strlit("response.output_item.done");
    reveal_strlit("response.created");
    reveal_strlit("response.reasoning_summary_text.delta");
    reveal_strlit("response.reasoning_summary_text.done");
    reveal_strlit("response.content_part.added");
    reveal_strlit("response.output_text.delta");
    reveal_strlit("response.output_text.done");
    reveal_strlit("response.content_part.done");
    reveal_strlit("response.function_call_arguments.delta");
    reveal_strlit("response.function_call_arguments.done");
    reveal_strlit("response.completed");
    reveal_strlit("response.failed");
    assert("response.output_item.added"@.len() == 26);
    assert("response.output_item.done"@.len() == 25);
    assert("response.created"@.len() == 16);
    assert("response.reasoning_summary_text.delta"@.len() == 37);
    assert("response.reasoning_summary_text.done"@.len() == 36);
    assert("response.content_part.added"@.len() == 27);
    assert("response.content_part.done"@.len() == 26);
    assert("response.output_text.delta"@.len() == 26);
    assert("response.output_text.done"@.len() == 25);
    assert("response.function_call_arguments.delta"@.len() == 38);
    assert("response.function_call_arguments.done"@.len() == 37);
    assert("response.completed"@.len() == 18);
    assert("response.failed"@.len() == 15);
    assert("response.output_item.added"@[16] == 'i');
    assert("response.output_text.delta"@[16] == 't');
    assert("response.output_text.delta"@[9] == 'o');
    assert("response.content_part.done"@[9] == 'c');
    assert("response.reasoning_summary_text.delta"@[9] == 'r');
    assert("response.function_call_arguments.done"@[9] == 'f');
}

/// What an event adds to the pieces under `name`.
spec fn own_piece(ev: EventView, name: Seq<char>) -> Seq<char> {
    match ev {
        EventView::TextDelta { text } if name == "response.output_text.delta"@ => text,
        EventView::ReasoningDelta {
            text,
        } if name == "response.reasoning_summary_text.delta"@ => text,
        _ => Seq::empty(),
    }
}

proof fn lemma_completion_is_plain(s: ResponsesView, id: Seq<char>, p: int)
    requires
        0 <= p < s.frames(EventView::Completed, id).len(),
    ensures
        is_plain(s.frames(EventView::Completed, id)[p].event),
{
    completion_is_told(s, id);
    let k: int = if s.reasoning_item is Some {
        2
    } else {
        0
    };
    let m: int = if s.message_item is Some {
        3
    } else {
        0
    };
    let f = s.frames(EventView::Completed, id);
    if k + m <= p && p < f.len() - 1 {
        let q = (p - k - m) / 2;
        let t = s.tools[q];
        assert(p == k + m + 2 * q || p == k + m + 2 * q + 1);
        assert(is_plain(f[k + m + 2 * q].event) && is_plain(f[k + m + 2 * q + 1].event));
    }
}

proof fn lemma_own_pieces(s: ResponsesView, ev: EventView, id: Seq<char>, name: Seq<char>)
    requires
        name == "response.output_text.delta"@ || name == "response.reasoning_summary_text.delta"@,
    ensures
        pieces(s.frames(ev, id), name) == own_piece(ev, name),
{
    lemma_frame_names();
    let f = s.frames(ev, id);
    match ev {
        EventView::Created { response_id, model } => {
            creation_is_told(s, response_id, model, id);
            lemma_no_pieces(f, name);
        },
        EventView::ReasoningDelta { text } => {
            reasoning_is_told(s, text, id);
            if name == f.last().event {
                lemma_last_piece(f, name);
            } else {
                lemma_no_pieces(f, name);
            }
        },
        EventView::TextDelta { text } => {
            text_is_told(s, text, id);
            if name == f.last().event {
                lemma_last_piece(f, name);
            } else {
                lemma_no_pieces(f, name);
            }
        },
        EventView::ToolCallStart { index, call_id, name: n } => {
            calls_are_told(s, index, call_id, n, id);
            lemma_no_pieces(f, name);
        },
        EventView::ToolCallArgsDelta { index, delta } => {
            arguments_are_told(s, index, delta, id);
            lemma_no_pieces(f, name);
        },
        EventView::ToolCallDone { index } => {
            finished_calls_are_told(s, index, id);
            lemma_no_pieces(f, name);
        },
        EventView::Usage { .. } => {
            lemma_no_pieces(f, name);
        },
        EventView::Completed => {
            assert forall|p: int| 0 <= p < f.len() implies (#[trigger] f[p]).event != name by {
                lemma_completion_is_plain(s, id, p);
            }
            lemma_no_pieces(f, name);
        },
        EventView::Error { message, status } => {
            failures_are_told(s, message, status, id);
            lemma_no_pieces(f, name);
        },
    }
}

/// What is said is streamed whole, once and in order: the pieces of text in the frames, in a
/// row, are the texts of the events, in a row; and so is the reasoning.
pub proof fn texts_are_streamed_whole(
    s: ResponsesView,
    evs: Seq<EventView>,
    ids: Seq<Seq<char>>,
)
    ensures
        pieces(
            crate::wire::responses_laws::run_frames(s, evs, ids),
            "response.output_text.delta"@,
        ) == crate::canonical::said(evs),
        pieces(
            crate::wire::responses_laws::run_frames(s, evs, ids),
            "response.reasoning_summary_text.delta"@,
        ) == crate::canonical::reasoned(evs),
    decreases evs.len(),
{
    if evs.len() > 0 {
        let init = evs.drop_last();
        let id = ids[evs.len() - 1];
        let mid = crate::wire::responses_laws::run(s, init, ids);
        let before = crate::wire::responses_laws::run_frames(s, init, ids);
        let last = mid.frames(evs.last(), id);
        texts_are_streamed_whole(s, init, ids);
        lemma_pieces_add(before, last, "response.output_text.delta"@);
        lemma_pieces_add(before, last, "response.reasoning_summary_text.delta"@);
        lemma_own_pieces(mid, evs.last(), id, "response.output_text.delta"@);
        lemma_own_pieces(mid, evs.last(), id, "response.reasoning_summary_text.delta"@);
        lemma_frame_names();
    }
}

/// A stream begins with nothing said, nothing open and nothing counted, and its frames are
/// numbered from zero on.
pub proof fn streams_begin_empty()
    ensures
        ({
            let s = ResponsesView::initial();
            &&& s.response_id.len() == 0 && s.model.len() == 0
            &&& s.next_output_index == 0 && s.seq == 0
            &&& s.reasoning_item is None && s.message_item is None && s.tools.len() == 0
            &&& s.reasoning_text.len() == 0 && s.message_text.len() == 0
            &&& s.usage is None && s.final_items.len() == 0
        }),
{
}

/// The pieces of arguments for an index since its last call was started, in a row.
pub open spec fn argued(evs: Seq<EventView>, index: u32) -> Seq<char>
    decreases evs.len(),
{
    if evs.len() == 0 {
        Seq::empty()
    } else {
        match evs.last() {
            EventView::ToolCallStart { index: k, .. } if k == index => Seq::empty(),
            EventView::ToolCallArgsDelta { index: k, delta } if k == index => argued(
                evs.drop_last(),
                index,
            ) + delta,
            _ => argued(evs.drop_last(), index),
        }
    }
}

/// The identifier and the name that the last call under an index was started with.
pub open spec fn last_start(evs: Seq<EventView>, index: u32) -> Option<(Seq<char>, Seq<char>)>
    decreases evs.len(),
{
    if evs.len() == 0 {
        None
    } else {
        match evs.last() {
            EventView::ToolCallStart { index: k, call_id, name } if k == index => Some(
                (call_id, name),
            ),
            _ => last_start(evs.drop_last(), index),
        }
    }
}

/// An open call has the name it was started with, its own identifier where it was given one,
/// and all pieces of its arguments since then, in a row.
pub proof fn calls_are_gathered_whole(evs: Seq<EventView>, ids: Seq<Seq<char>>, index: u32)
    ensures
        crate::wire::slots::slots_ascending(
            crate::wire::responses_laws::run(ResponsesView::initial(), evs, ids).tools,
        ),
        crate::wire::slots::slot_get(
            crate::wire::responses_laws::run(ResponsesView::initial(), evs, ids).tools,
            index,
        ) matches Some(t) ==> {
            &&& t.args == argued(evs, index)
            &&& last_start(evs, index) matches Some(c) && t.name == c.1 && (c.0.len() > 0
                ==> t.call_id == c.0) && (c.0.len() == 0 ==> t.call_id == t.id)
        },
    decreases evs.len(),
{
    let s = ResponsesView::initial();
    if evs.len() > 0 {
        let init = evs.drop_last();
        let id = ids[evs.len() - 1];
        let ev = evs.last();
        let mid = crate::wire::responses_laws::run(s, init, ids);
        calls_are_gathered_whole(init, ids, index);
        crate::wire::responses_laws::lemma_tools_stay_ascending(mid, ev, id);
        match ev {
            EventView::ToolCallStart { index: k, call_id, name } => {
                calls_are_told(mid, k, call_id, name, id);
                let t = ToolItemView {
                    id,
                    output_index: mid.next_output_index,
                    call_id: if call_id.len() > 0 {
                        call_id
                    } else {
                        id
                    },
                    name,
                    args: Seq::empty(),
                };
                crate::wire::slots::slots_are_a_map(mid.tools, k, t, index);
            },
            EventView::ToolCallArgsDelta { index: k, delta } => {
                if let Some(t) = crate::wire::slots::slot_get(mid.tools, k) {
                    let u = ToolItemView { args: t.args + delta, ..t };
                    crate::wire::slots::slots_are_a_map(mid.tools, k, u, index);
                }
            },
            EventView::ToolCallDone { index: k } => {
                if let Some(t) = crate::wire::slots::slot_get(mid.tools, k) {
                    crate::wire::slots::slots_are_a_map(mid.tools, k, t, index);
                }
            },
            EventView::Completed => {
                completion_is_told(mid, id);
            },
            _ => {},
        }
    }
}

} // verus!
