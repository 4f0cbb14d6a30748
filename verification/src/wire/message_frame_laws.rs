//! What the frames of a Messages stream say: each event's text, name and place is found in
//! the frames that the event gives.

use vstd::prelude::*;

use crate::canonical::EventView;
use crate::json::Json;
use crate::wire::anthropic::{AnthropicStep, AnthropicView, ToolBlockView};
use crate::wire::FrameView;

verus! {

proof fn lemma_keys()
    ensures
        "id"@.len() == 2,
        "type"@.len() == 4,
        "text"@.len() == 4,
        "role"@.len() == 4,
        "name"@.len() == 4,
        "code"@.len() == 4,
        "type"@ != "text"@,
        "type"@ != "role"@,
        "type"@ != "name"@,
        "type"@ != "code"@,
        "index"@.len() == 5,
        "delta"@.len() == 5,
        "model"@.len() == 5,
        "usage"@.len() == 5,
        "input"@.len() == 5,
        "error"@.len() == 5,
        "index"@ != "delta"@,
        "delta"@ != "usage"@,
        "model"@ != "usage"@,
        "content"@.len() == 7,
        "message"@.len() == 7,
        "thinking"@.len() == 8,
        "signature"@.len() == 9,
        "stop_reason"@.len() == 11,
        "partial_json"@.len() == 12,
        "content_block"@.len() == 13,
        "stop_sequence"@.len() == 13,
        "input_tokens"@.len() == 12,
        "output_tokens"@.len() == 13,
        "cache_read_input_tokens"@.len() == 23,
{
    reveal_strlit("id");
    reveal_strlit("type");
    reveal_strlit("text");
    reveal_strlit("role");
    reveal_strlit("name");
    reveal_strlit("code");
    reveal_strlit("index");
    reveal_strlit("delta");
    reveal_strlit("model");
    reveal_strlit("usage");
    reveal_strlit("input");
    reveal_strlit("error");
    reveal_strlit("content");
    reveal_strlit("message");
    reveal_strlit("thinking");
    reveal_strlit("signature");
    reveal_strlit("stop_reason");
    reveal_strlit("partial_json");
    reveal_strlit("content_block");
    reveal_strlit("stop_sequence");
    reveal_strlit("input_tokens");
    reveal_strlit("output_tokens");
    reveal_strlit("cache_read_input_tokens");
    assert("type"@[1] == 'y' && "text"@[1] == 'e' && "role"@[1] == 'o' && "name"@[1] == 'a');
    assert("code"@[1] == 'o');
    assert("index"@[0] == 'i' && "delta"@[0] == 'd' && "usage"@[0] == 'u' && "model"@[0] == 'm');
}

/// Whether a frame is a `name` frame.
pub open spec fn is_frame(f: FrameView, name: Seq<char>) -> bool {
    f.event == name && f.data.get("type"@) == Some(Json::Str(name))
}

/// Whether a `name` frame is about the content block `index`.
pub open spec fn is_about(f: FrameView, name: Seq<char>, index: nat) -> bool {
    is_frame(f, name) && f.data.get("index"@) == Some(Json::num(index as u64))
}

/// Whether a frame opens the block `index`, of the given type, with `value` under `key`.
pub open spec fn opens(
    f: FrameView,
    index: nat,
    kind: Seq<char>,
    key: Seq<char>,
    value: Json,
) -> bool {
    &&& is_about(f, "content_block_start"@, index)
    &&& f.data.get2("content_block"@, "type"@) == Some(Json::Str(kind))
    &&& f.data.get2("content_block"@, key) == Some(value)
}

/// Whether a frame gives a piece of the block `index`: `text`, under `key`.
pub open spec fn gives(
    f: FrameView,
    index: nat,
    kind: Seq<char>,
    key: Seq<char>,
    text: Seq<char>,
) -> bool {
    &&& is_about(f, "content_block_delta"@, index)
    &&& f.data.get2("delta"@, "type"@) == Some(Json::Str(kind))
    &&& f.data.get2("delta"@, key) == Some(Json::Str(text))
}

/// Whether `j` is a thinking block that says `text`, signed with the placeholder.
pub open spec fn is_thinking(j: Json, text: Seq<char>) -> bool {
    &&& j.get("type"@) == Some(Json::Str("thinking"@))
    &&& j.get("thinking"@) == Some(Json::Str(text))
    &&& j.get("signature"@) == Some(Json::Str("bridge-unsigned"@))
}

/// Whether `j` is a text block that says `text`.
pub open spec fn is_text(j: Json, text: Seq<char>) -> bool {
    &&& j.get("type"@) == Some(Json::Str("text"@))
    &&& j.get("text"@) == Some(Json::Str(text))
}

/// Whether `j` is the tool-use block of a call. Its input is the arguments read as JSON, or
/// an empty object where they are none.
pub open spec fn is_use(j: Json, t: ToolBlockView) -> bool {
    &&& j.get("type"@) == Some(Json::Str("tool_use"@))
    &&& j.get("id"@) == Some(Json::Str(t.id))
    &&& j.get("name"@) == Some(Json::Str(t.name))
    &&& match crate::json::json_parse(t.args) {
        Some(input) => j.get("input"@) == Some(input),
        None => j.get("input"@) == Some(Json::Obj(Map::empty())),
    }
}

/// Whether the two frames from `k` on close the thinking block `index`.
pub open spec fn close_thinking_at(f: Seq<FrameView>, k: int, index: nat) -> bool {
    &&& gives(f[k], index, "signature_delta"@, "signature"@, "bridge-unsigned"@)
    &&& is_about(f[k + 1], "content_block_stop"@, index)
}

/// Whether a frame begins the message: it is the assistant's, has its identifier and its
/// model, and no content, stop reason or usage yet.
pub open spec fn begins(f: FrameView, id: Seq<char>, model: Seq<char>) -> bool {
    let m = f.data.get("message"@)->0;
    &&& is_frame(f, "message_start"@)
    &&& f.data.get("message"@) is Some
    &&& m.get("id"@) == Some(Json::Str(id))
    &&& m.get("type"@) == Some(Json::Str("message"@))
    &&& m.get("role"@) == Some(Json::Str("assistant"@))
    &&& m.get("model"@) == Some(Json::Str(model))
    &&& m.get("content"@) == Some(Json::Arr(Seq::empty()))
    &&& m.get("stop_reason"@) == Some(Json::Null)
    &&& m.get("stop_sequence"@) == Some(Json::Null)
    &&& m.get2("usage"@, "input_tokens"@) == Some(Json::num(0))
    &&& m.get2("usage"@, "output_tokens"@) == Some(Json::num(0))
}

/// One where `b` holds.
pub open spec fn count(b: bool) -> int {
    if b {
        1
    } else {
        0
    }
}

/// The creation begins the message, unless it has begun, with the identifier and the model
/// of the event.
pub proof fn creation_is_told(s: AnthropicView, response_id: Seq<char>, model: Seq<char>)
    ensures
        ({
            let out = s.step(EventView::Created { response_id, model });
            &&& out.frames.len() == count(!s.started)
            &&& !s.started ==> begins(out.frames[0], response_id, model)
            &&& out.state == (AnthropicView {
                message_id: response_id,
                model,
                started: true,
                ..s
            })
        }),
{
    lemma_keys();
}

/// A piece of reasoning gives a frame with exactly this piece, as the last of its frames. It
/// is about the open thinking block; where there is none, one is opened before, at the next
/// index. A message that has not begun begins first.
pub proof fn thinking_is_told(s: AnthropicView, text: Seq<char>)
    ensures
        ({
            let out = s.step(EventView::ReasoningDelta { text });
            let f = out.frames;
            let k = count(!s.started);
            let m = count(s.thinking_index is None);
            let index = match s.thinking_index {
                Some(i) => i,
                None => s.next_index,
            };
            &&& f.len() == k + m + 1
            &&& !s.started ==> begins(f[0], s.message_id, s.model)
            &&& s.thinking_index is None ==> opens(
                f[k],
                index,
                "thinking"@,
                "thinking"@,
                Json::Str(Seq::empty()),
            )
            &&& gives(f.last(), index, "thinking_delta"@, "thinking"@, text)
            &&& out.state == (AnthropicView {
                started: true,
                next_index: (s.next_index + m) as nat,
                thinking_index: Some(index),
                thinking_text: s.thinking_text + text,
                ..s
            })
        }),
{
    lemma_keys();
    let a = AnthropicStep { state: s, frames: Seq::empty() }.start();
    assert(a.frames.len() == count(!s.started));
}

/// A piece of text gives a frame with exactly this piece, as the last of its frames. It is
/// about the open text block; where there is none, one is opened before, at the next index.
/// A message that has not begun begins first, and a thinking block that is open is then
/// closed, with all its text.
pub proof fn text_is_told(s: AnthropicView, text: Seq<char>)
    ensures
        ({
            let out = s.step(EventView::TextDelta { text });
            let t = out.state;
            let f = out.frames;
            let k = count(!s.started);
            let c = count(s.thinking_index is Some);
            let m = count(s.text_index is None);
            let index = match s.text_index {
                Some(i) => i,
                None => s.next_index,
            };
            &&& f.len() == k + 2 * c + m + 1
            &&& !s.started ==> begins(f[0], s.message_id, s.model)
            &&& s.thinking_index matches Some(i) ==> close_thinking_at(f, k, i) && is_thinking(
                t.final_blocks.last(),
                s.thinking_text,
            )
            &&& s.text_index is None ==> opens(
                f[k + 2 * c],
                index,
                "text"@,
                "text"@,
                Json::Str(Seq::empty()),
            )
            &&& gives(f.last(), index, "text_delta"@, "text"@, text)
            &&& t == (AnthropicView {
                started: true,
                next_index: (s.next_index + m) as nat,
                thinking_index: None,
                text_index: Some(index),
                text_text: s.text_text + text,
                final_blocks: if s.thinking_index is Some {
                    s.final_blocks.push(t.final_blocks.last())
                } else {
                    s.final_blocks
                },
                ..s
            })
        }),
{
    lemma_keys();
    let a = AnthropicStep { state: s, frames: Seq::empty() }.start();
    let b = a.close_thinking();
    assert(a.frames.len() == count(!s.started));
    assert(b.frames.len() == a.frames.len() + 2 * count(s.thinking_index is Some));
}

/// The start of a call closes the thinking and the text that are open, in this order, and
/// opens a tool-use block at the next index: with the call's identifier, with its function's
/// name, and with no input yet.
pub proof fn calls_are_told(s: AnthropicView, index: u32, call_id: Seq<char>, name: Seq<char>)
    ensures
        ({
            let out = s.step(EventView::ToolCallStart { index, call_id, name });
            let t = out.state;
            let f = out.frames;
            let k = count(!s.started);
            let c = count(s.thinking_index is Some);
            let m = count(s.text_index is Some);
            let i = s.final_blocks.len() as int;
            &&& f.len() == k + 2 * c + m + 1
            &&& !s.started ==> begins(f[0], s.message_id, s.model)
            &&& s.thinking_index matches Some(x) ==> close_thinking_at(f, k, x) && is_thinking(
                t.final_blocks[i],
                s.thinking_text,
            )
            &&& s.text_index matches Some(x) ==> is_about(
                f[k + 2 * c],
                "content_block_stop"@,
                x,
            ) && is_text(t.final_blocks.last(), s.text_text)
            &&& t.final_blocks.len() == i + c + m
            &&& t.final_blocks.take(i) == s.final_blocks
            &&& opens(f.last(), s.next_index, "tool_use"@, "input"@, Json::Obj(Map::empty()))
            &&& f.last().data.get2("content_block"@, "id"@) == Some(Json::Str(call_id))
            &&& f.last().data.get2("content_block"@, "name"@) == Some(Json::Str(name))
            &&& t == (AnthropicView {
                started: true,
                next_index: s.next_index + 1,
                thinking_index: None,
                text_index: None,
                any_tool: true,
                final_blocks: t.final_blocks,
                tools: crate::wire::slots::slot_set(
                    s.tools,
                    index,
                    ToolBlockView { index: s.next_index, id: call_id, name, args: Seq::empty() },
                ),
                ..s
            })
        }),
{
    lemma_keys();
    let a = AnthropicStep { state: s, frames: Seq::empty() }.start();
    let b = a.close_thinking();
    let d = b.close_text();
    assert(a.frames.len() == count(!s.started));
    assert(b.frames.len() == a.frames.len() + 2 * count(s.thinking_index is Some));
    assert(d.frames.len() == b.frames.len() + count(s.text_index is Some));
    assert(d.state.final_blocks.take(s.final_blocks.len() as int) =~= s.final_blocks);
}

/// A piece of arguments gives one frame, with exactly this piece, about the block of the
/// open call that has its index, whose arguments grow by it; without such a call it gives
/// nothing and changes nothing.
pub proof fn arguments_are_told(s: AnthropicView, index: u32, delta: Seq<char>)
    ensures
        ({
            let out = s.step(EventView::ToolCallArgsDelta { index, delta });
            match crate::wire::slots::slot_get(s.tools, index) {
                None => out.frames.len() == 0 && out.state == s,
                Some(t) => {
                    &&& out.frames.len() == 1
                    &&& gives(out.frames[0], t.index, "input_json_delta"@, "partial_json"@, delta)
                    &&& out.state == (AnthropicView {
                        tools: crate::wire::slots::slot_set(
                            s.tools,
                            index,
                            ToolBlockView { args: t.args + delta, ..t },
                        ),
                        ..s
                    })
                },
            }
        }),
{
    lemma_keys();
}

/// The end of a call closes the block of the open call that has its index, with all its
/// arguments; without such a call it gives nothing and changes nothing.
pub proof fn finished_calls_are_told(s: AnthropicView, index: u32)
    ensures
        ({
            let out = s.step(EventView::ToolCallDone { index });
            match crate::wire::slots::slot_get(s.tools, index) {
                None => out.frames.len() == 0 && out.state == s,
                Some(t) => {
                    &&& out.frames.len() == 1
                    &&& is_about(out.frames[0], "content_block_stop"@, t.index)
                    &&& is_use(out.state.final_blocks.last(), t)
                    &&& out.state == (AnthropicView {
                        tools: crate::wire::slots::slot_remove(s.tools, index),
                        final_blocks: s.final_blocks.push(out.state.final_blocks.last()),
                        ..s
                    })
                },
            }
        }),
{
    lemma_keys();
    assert(Json::obj() == Json::Obj(Map::empty()));
}

/// An error gives one frame, with the error's message and status; nothing changes.
pub proof fn failures_are_told(s: AnthropicView, message: Seq<char>, status: u16)
    ensures
        ({
            let out = s.step(EventView::Error { message, status });
            &&& out.frames.len() == 1
            &&& is_frame(out.frames[0], "error"@)
            &&& out.frames[0].data.get2("error"@, "type"@) == Some(Json::Str("api_error"@))
            &&& out.frames[0].data.get2("error"@, "message"@) == Some(Json::Str(message))
            &&& out.frames[0].data.get2("error"@, "code"@) == Some(Json::num(status as u64))
            &&& out.state == s
        }),
{
    lemma_keys();
}

proof fn lemma_finished_calls(st: AnthropicStep, ts: Seq<(u32, ToolBlockView)>)
    ensures
        ({
            let e = st.finish_tools(ts);
            let n = st.frames.len() as int;
            let i = st.state.final_blocks.len() as int;
            &&& e.frames.len() == n + ts.len()
            &&& e.frames.take(n) == st.frames
            &&& e.state.final_blocks.len() == i + ts.len()
            &&& e.state.final_blocks.take(i) == st.state.final_blocks
            &&& e.state == (AnthropicView { final_blocks: e.state.final_blocks, ..st.state })
            &&& forall|q: int|
                #![trigger ts[q]]
                0 <= q < ts.len() ==> is_about(
                    e.frames[n + q],
                    "content_block_stop"@,
                    ts[q].1.index,
                ) && is_use(e.state.final_blocks[i + q], ts[q].1)
        }),
    decreases ts.len(),
{
    lemma_keys();
    assert(Json::obj() == Json::Obj(Map::empty()));
    let n = st.frames.len() as int;
    let i = st.state.final_blocks.len() as int;
    if ts.len() == 0 {
        assert(st.frames.take(n) =~= st.frames);
        assert(st.state.final_blocks.take(i) =~= st.state.final_blocks);
    } else {
        let ts2 = ts.drop_last();
        lemma_finished_calls(st, ts2);
        let d = st.finish_tools(ts2);
        let e = st.finish_tools(ts);
        assert(e.frames.take(n) =~= d.frames.take(n));
        assert(e.state.final_blocks.take(i) =~= d.state.final_blocks.take(i));
        assert forall|q: int| #![trigger ts[q]] 0 <= q < ts.len() implies is_about(
            e.frames[n + q],
            "content_block_stop"@,
            ts[q].1.index,
        ) && is_use(e.state.final_blocks[i + q], ts[q].1) by {
            if q < ts2.len() {
                assert(ts2[q] == ts[q]);
                assert(e.frames[n + q] == d.frames[n + q]);
                assert(e.state.final_blocks[i + q] == d.state.final_blocks[i + q]);
            }
        }
    }
}

/// The completion closes what is open: the thinking, the text, and the calls in the order of
/// their indices, each with all its text or arguments. Its last two frames give the stop
/// reason with the usage, and end the message.
pub proof fn completion_is_told(s: AnthropicView)
    ensures
        ({
            let out = s.step(EventView::Completed);
            let t = out.state;
            let f = out.frames;
            let c = count(s.thinking_index is Some);
            let m = count(s.text_index is Some);
            let n = 2 * c + m + s.tools.len();
            let i = s.final_blocks.len() as int;
            &&& f.len() == n + 2
            &&& s.thinking_index matches Some(x) ==> close_thinking_at(f, 0, x) && is_thinking(
                t.final_blocks[i],
                s.thinking_text,
            )
            &&& s.text_index matches Some(x) ==> is_about(f[2 * c], "content_block_stop"@, x)
                && is_text(t.final_blocks[i + c], s.text_text)
            &&& forall|q: int|
                #![trigger s.tools[q]]
                0 <= q < s.tools.len() ==> is_about(
                    f[2 * c + m + q],
                    "content_block_stop"@,
                    s.tools[q].1.index,
                ) && is_use(t.final_blocks[i + c + m + q], s.tools[q].1)
            &&& t.final_blocks.len() == i + c + m + s.tools.len()
            &&& t.final_blocks.take(i) == s.final_blocks
            &&& is_frame(f[n], "message_delta"@)
            &&& f[n].data.get2("delta"@, "stop_reason"@) == Some(
                Json::Str(
                    if s.any_tool {
                        "tool_use"@
                    } else {
                        "end_turn"@
                    },
                ),
            )
            &&& f[n].data.get2("delta"@, "stop_sequence"@) == Some(Json::Null)
            &&& is_frame(f[n + 1], "message_stop"@)
            &&& t == (AnthropicView {
                thinking_index: None,
                text_index: None,
                tools: Seq::empty(),
                final_blocks: t.final_blocks,
                ..s
            })
        }),
{
    lemma_keys();
    let a = AnthropicStep { state: s, frames: Seq::empty() }.close_thinking();
    let b = a.close_text();
    assert(a.frames.len() == 2 * count(s.thinking_index is Some));
    assert(b.frames.len() == a.frames.len() + count(s.text_index is Some));
    let c = AnthropicStep { state: AnthropicView { tools: Seq::empty(), ..b.state }, ..b };
    let d = c.finish_tools(s.tools);
    lemma_finished_calls(c, s.tools);
    let n = b.frames.len() as int;
    assert forall|q: int| 0 <= q < n implies #[trigger] d.frames[q] == b.frames[q] by {
        assert(d.frames.take(n)[q] == b.frames[q]);
    }
    let x = b.state.final_blocks.len() as int;
    assert forall|q: int| 0 <= q < x implies #[trigger] d.state.final_blocks[q]
        == b.state.final_blocks[q] by {
        assert(d.state.final_blocks.take(x)[q] == b.state.final_blocks[q]);
    }
    assert(d.state.final_blocks.take(s.final_blocks.len() as int) =~= s.final_blocks);
    assert(b.state.tools == s.tools);
    let f = s.step(EventView::Completed).frames;
    assert(f.len() == d.frames.len() + 2);
    assert forall|q: int| 0 <= q < d.frames.len() implies #[trigger] f[q] == d.frames[q] by {}
    assert forall|q: int| #![trigger s.tools[q]] 0 <= q < s.tools.len() implies is_about(
        f[n + q],
        "content_block_stop"@,
        s.tools[q].1.index,
    ) by {
        assert(f[n + q] == d.frames[n + q]);
    }
}

/// The counts are kept, for the end of the message: the input counts what was not read from
/// the cache. They give no frame.
pub proof fn usage_is_kept(
    s: AnthropicView,
    input_tokens: u32,
    output_tokens: u32,
    total_tokens: u32,
    cached_input_tokens: u32,
    reasoning_tokens: u32,
)
    ensures
        ({
            let out = s.step(
                EventView::Usage {
                    input_tokens,
                    output_tokens,
                    total_tokens,
                    cached_input_tokens,
                    reasoning_tokens,
                },
            );
            let u = out.state.usage_json();
            &&& out.frames.len() == 0
            &&& out.state == (AnthropicView { usage: out.state.usage, ..s })
            &&& input_tokens >= cached_input_tokens ==> u.get("input_tokens"@) == Some(
                Json::num((input_tokens - cached_input_tokens) as u64),
            )
            &&& input_tokens < cached_input_tokens ==> u.get("input_tokens"@) == Some(Json::num(0))
            &&& u.get("output_tokens"@) == Some(Json::num(output_tokens as u64))
            &&& u.get("cache_read_input_tokens"@) == Some(Json::num(cached_input_tokens as u64))
        }),
{
    lemma_keys();
}

/// The message that a stream comes to is the assistant's, has the identifier and the model
/// that it was created with and the blocks that are done; it stopped for the use of tools
/// where there was one, and at the end of the turn otherwise. Where nothing was counted, all
/// its counts are zero.
pub proof fn messages_are_whole(s: AnthropicView)
    ensures
        ({
            let m = s.final_message();
            let u = m.get("usage"@)->0;
            &&& m.get("id"@) == Some(Json::Str(s.message_id))
            &&& m.get("type"@) == Some(Json::Str("message"@))
            &&& m.get("role"@) == Some(Json::Str("assistant"@))
            &&& m.get("model"@) == Some(Json::Str(s.model))
            &&& m.get("content"@) == Some(Json::Arr(s.final_blocks))
            &&& s.any_tool ==> m.get("stop_reason"@) == Some(Json::Str("tool_use"@))
            &&& !s.any_tool ==> m.get("stop_reason"@) == Some(Json::Str("end_turn"@))
            &&& m.get("stop_sequence"@) == Some(Json::Null)
            &&& m.get("usage"@) == Some(s.usage_json())
            &&& s.usage is None ==> {
                &&& u.get("input_tokens"@) == Some(Json::num(0))
                &&& u.get("output_tokens"@) == Some(Json::num(0))
                &&& u.get("cache_read_input_tokens"@) == Some(Json::num(0))
            }
        }),
{
    lemma_keys();
}

/// The pieces that the frames give under `key`, in pieces of the given kind, in a row.
pub open spec fn pieces(frames: Seq<FrameView>, kind: Seq<char>, key: Seq<char>) -> Seq<char>
    decreases frames.len(),
{
    if frames.len() == 0 {
        Seq::empty()
    } else {
        let d = frames.last().data.get("delta"@)->0;
        pieces(frames.drop_last(), kind, key) + (if frames.last().event == "content_block_delta"@
            && d.get("type"@) == Some(Json::Str(kind)) {
            d.str_or_empty(key)
        } else {
            Seq::empty()
        })
    }
}

proof fn lemma_pieces_add(a: Seq<FrameView>, b: Seq<FrameView>, kind: Seq<char>, key: Seq<char>)
    ensures
        pieces(a + b, kind, key) == pieces(a, kind, key) + pieces(b, kind, key),
    decreases b.len(),
{
    if b.len() == 0 {
        assert(a + b =~= a);
        assert(pieces(a, kind, key) + Seq::<char>::empty() =~= pieces(a, kind, key));
    } else {
        lemma_pieces_add(a, b.drop_last(), kind, key);
        assert((a + b).drop_last() =~= a + b.drop_last());
        assert((a + b).last() == b.last());
        let x = pieces(a, kind, key);
        let y = pieces(b.drop_last(), kind, key);
        let one = pieces(seq![b.last()], kind, key);
        assert(seq![b.last()].drop_last() =~= Seq::empty());
        let z = b.last().data.get("delta"@)->0.str_or_empty(key);
        assert(x + y + z =~= x + (y + z));
        assert(x + y + Seq::<char>::empty() =~= x + (y + Seq::<char>::empty()));
    }
}

/// Whether a frame gives no piece of the kind.
spec fn silent(f: FrameView, kind: Seq<char>) -> bool {
    f.event != "content_block_delta"@ || f.data.get2("delta"@, "type"@) != Some(Json::Str(kind))
}

proof fn lemma_no_pieces(f: Seq<FrameView>, kind: Seq<char>, key: Seq<char>)
    requires
        forall|p: int| 0 <= p < f.len() ==> silent(#[trigger] f[p], kind),
        forall|p: int|
            0 <= p < f.len() && (#[trigger] f[p]).event == "content_block_delta"@ ==> f[p].data.get(
                "delta"@,
            ) is Some,
    ensures
        pieces(f, kind, key) == Seq::<char>::empty(),
    decreases f.len(),
{
    if f.len() > 0 {
        let g = f.drop_last();
        assert forall|p: int| 0 <= p < g.len() implies silent(#[trigger] g[p], kind) && (
        g[p].event == "content_block_delta"@ ==> g[p].data.get("delta"@) is Some) by {
            assert(g[p] == f[p]);
        }
        lemma_no_pieces(g, kind, key);
        assert(silent(f[f.len() - 1], kind));
        assert(Seq::<char>::empty() + Seq::<char>::empty() =~= Seq::<char>::empty());
    }
}

proof fn lemma_last_piece(
    f: Seq<FrameView>,
    index: nat,
    kind: Seq<char>,
    key: Seq<char>,
    text: Seq<char>,
)
    requires
        f.len() > 0,
        gives(f.last(), index, kind, key, text),
        forall|p: int| 0 <= p < f.len() - 1 ==> silent(#[trigger] f[p], kind),
        forall|p: int|
            0 <= p < f.len() - 1 && (#[trigger] f[p]).event == "content_block_delta"@
                ==> f[p].data.get("delta"@) is Some,
    ensures
        pieces(f, kind, key) == text,
{
    let g = f.drop_last();
    assert forall|p: int| 0 <= p < g.len() implies silent(#[trigger] g[p], kind) && (g[p].event
        == "content_block_delta"@ ==> g[p].data.get("delta"@) is Some) by {
        assert(g[p] == f[p]);
    }
    lemma_no_pieces(g, kind, key);
    assert(Seq::<char>::empty() + text =~= text);
}

proof fn lemma_names()
    ensures
        "text_delta"@.len() == 10,
        "thinking_delta"@.len() == 14,
        "signature_delta"@.len() == 15,
        "input_json_delta"@.len() == 16,
        "content_block_delta"@.len() == 19,
        "content_block_delta"@ != "content_block_start"@,
        "content_block_stop"@.len() == 18,
        "message_start"@.len() == 13,
        "message_delta"@.len() == 13,
        "message_stop"@.len() == 12,
        "error"@.len() == 5,
{
    reveal_strlit("text_delta");
    reveal_strlit("thinking_delta");
    reveal_strlit("signature_delta");
    reveal_strlit("input_json_delta");
    reveal_strlit("content_block_delta");
    reveal_strlit("content_block_start");
    reveal_strlit("content_block_stop");
    reveal_strlit("message_start");
    reveal_strlit("message_delta");
    reveal_strlit("message_stop");
    reveal_strlit("error");
    assert("content_block_delta"@[14] == 'd' && "content_block_start"@[14] == 's');
}

proof fn lemma_own_pieces(s: AnthropicView, ev: EventView)
    ensures
        pieces(s.step(ev).frames, "text_delta"@, "text"@) == (match ev {
            EventView::TextDelta { text } => text,
            _ => Seq::empty(),
        }),
        pieces(s.step(ev).frames, "thinking_delta"@, "thinking"@) == (match ev {
            EventView::ReasoningDelta { text } => text,
            _ => Seq::empty(),
        }),
{
    lemma_names();
    let f = s.step(ev).frames;
    match ev {
        EventView::Created { response_id, model } => {
            creation_is_told(s, response_id, model);
            lemma_no_pieces(f, "text_delta"@, "text"@);
            lemma_no_pieces(f, "thinking_delta"@, "thinking"@);
        },
        EventView::ReasoningDelta { text } => {
            thinking_is_told(s, text);
            let index = match s.thinking_index {
                Some(i) => i,
                None => s.next_index,
            };
            lemma_last_piece(f, index, "thinking_delta"@, "thinking"@, text);
            lemma_no_pieces(f, "text_delta"@, "text"@);
        },
        EventView::TextDelta { text } => {
            text_is_told(s, text);
            let index = match s.text_index {
                Some(i) => i,
                None => s.next_index,
            };
            lemma_last_piece(f, index, "text_delta"@, "text"@, text);
            lemma_no_pieces(f, "thinking_delta"@, "thinking"@);
        },
        EventView::ToolCallStart { index, call_id, name } => {
            calls_are_told(s, index, call_id, name);
            lemma_no_pieces(f, "text_delta"@, "text"@);
            lemma_no_pieces(f, "thinking_delta"@, "thinking"@);
        },
        EventView::ToolCallArgsDelta { index, delta } => {
            arguments_are_told(s, index, delta);
            lemma_no_pieces(f, "text_delta"@, "text"@);
            lemma_no_pieces(f, "thinking_delta"@, "thinking"@);
        },
        EventView::ToolCallDone { index } => {
            finished_calls_are_told(s, index);
            lemma_no_pieces(f, "text_delta"@, "text"@);
            lemma_no_pieces(f, "thinking_delta"@, "thinking"@);
        },
        EventView::Usage { .. } => {
            lemma_no_pieces(f, "text_delta"@, "text"@);
            lemma_no_pieces(f, "thinking_delta"@, "thinking"@);
        },
        EventView::Completed => {
            completion_is_told(s);
            let c = count(s.thinking_index is Some);
            let m = count(s.text_index is Some);
            assert forall|p: int| 0 <= p < f.len() implies silent(#[trigger] f[p], "text_delta"@)
                && silent(f[p], "thinking_delta"@) && (f[p].event == "content_block_delta"@
                ==> f[p].data.get("delta"@) is Some) by {
                if 2 * c + m <= p && p < f.len() - 2 {
                    let t = s.tools[p - 2 * c - m];
                }
            }
            lemma_no_pieces(f, "text_delta"@, "text"@);
            lemma_no_pieces(f, "thinking_delta"@, "thinking"@);
        },
        EventView::Error { message, status } => {
            failures_are_told(s, message, status);
            lemma_no_pieces(f, "text_delta"@, "text"@);
            lemma_no_pieces(f, "thinking_delta"@, "thinking"@);
        },
    }
}

/// What is said is streamed whole, once and in order: the pieces of text in the frames, in a
/// row, are the texts of the events, in a row; and so is the reasoning.
pub proof fn texts_are_streamed_whole(s: AnthropicView, evs: Seq<EventView>)
    ensures
        pieces(crate::wire::anthropic_laws::run(s, evs).frames, "text_delta"@, "text"@)
            == crate::canonical::said(evs),
        pieces(crate::wire::anthropic_laws::run(s, evs).frames, "thinking_delta"@, "thinking"@)
            == crate::canonical::reasoned(evs),
    decreases evs.len(),
{
    if evs.len() > 0 {
        let init = evs.drop_last();
        let before = crate::wire::anthropic_laws::run(s, init);
        let last = before.state.step(evs.last());
        texts_are_streamed_whole(s, init);
        lemma_pieces_add(before.frames, last.frames, "text_delta"@, "text"@);
        lemma_pieces_add(before.frames, last.frames, "thinking_delta"@, "thinking"@);
        lemma_own_pieces(before.state, evs.last());
    }
}

/// A stream begins with nothing said, nothing open and nothing counted, before its message
/// has begun.
pub proof fn streams_begin_empty()
    ensures
        ({
            let s = AnthropicView::initial();
            &&& s.message_id.len() == 0 && s.model.len() == 0
            &&& !s.started && !s.any_tool
            &&& s.next_index == 0
            &&& s.thinking_index is None && s.text_index is None && s.tools.len() == 0
            &&& s.thinking_text.len() == 0 && s.text_text.len() == 0
            &&& s.usage is None && s.final_blocks.len() == 0
        }),
{
}

/// An open call has the identifier and the name it was started with, and all pieces of its
/// arguments since then, in a row.
pub proof fn calls_are_gathered_whole(evs: Seq<EventView>, index: u32)
    ensures
        crate::wire::slots::slots_ascending(
            crate::wire::anthropic_laws::run(AnthropicView::initial(), evs).state.tools,
        ),
        crate::wire::slots::slot_get(
            crate::wire::anthropic_laws::run(AnthropicView::initial(), evs).state.tools,
            index,
        ) matches Some(t) ==> {
            &&& t.args == crate::wire::frame_laws::argued(evs, index)
            &&& crate::wire::frame_laws::last_start(evs, index) == Some((t.id, t.name))
        },
    decreases evs.len(),
{
    let s = AnthropicView::initial();
    if evs.len() > 0 {
        let init = evs.drop_last();
        let ev = evs.last();
        let mid = crate::wire::anthropic_laws::run(s, init).state;
        calls_are_gathered_whole(init, index);
        match ev {
            EventView::ToolCallStart { index: k, call_id, name } => {
                calls_are_told(mid, k, call_id, name);
                let t = ToolBlockView {
                    index: mid.next_index,
                    id: call_id,
                    name,
                    args: Seq::empty(),
                };
                crate::wire::slots::slots_are_a_map(mid.tools, k, t, index);
            },
            EventView::ToolCallArgsDelta { index: k, delta } => {
                if let Some(t) = crate::wire::slots::slot_get(mid.tools, k) {
                    let u = ToolBlockView { args: t.args + delta, ..t };
                    crate::wire::slots::slots_are_a_map(mid.tools, k, u, index);
                }
            },
            EventView::ToolCallDone { index: k } => {
                if let Some(t) = crate::wire::slots::slot_get(mid.tools, k) {
                    crate::wire::slots::slots_are_a_map(mid.tools, k, t, index);
                }
            },
            EventView::Completed => {
                completion_is_told(mid);
            },
            _ => {},
        }
    }
}

} // verus!
