//! How the content blocks of a stream of Anthropic Messages frames follow each other.

use vstd::prelude::*;

use crate::canonical::EventView;
use crate::json::Json;
use crate::wire::anthropic::{AnthropicStep, AnthropicView, ToolBlockView};
use crate::wire::ledger::{Ledger, Marks};
use crate::wire::FrameView;

verus! {

/// How the frames speak of content blocks.
pub open spec fn block_marks() -> Marks {
    Marks {
        open: "content_block_start"@,
        close: "content_block_stop"@,
        key: "index"@,
        pieces: Set::empty().insert("content_block_delta"@),
    }
}

/// Whether the optional block is the block `k`.
pub open spec fn is_block(o: Option<nat>, k: int) -> bool {
    o matches Some(n) && n == k
}

/// Whether one of the open tool-use blocks is the block `k`.
pub open spec fn has_tool(ts: Seq<(u32, ToolBlockView)>, k: int) -> bool {
    exists|slot: u32|
        (#[trigger] crate::wire::slots::slot_get(ts, slot)) matches Some(t) && t.index == k
}

/// The blocks that are open.
pub open spec fn open_blocks(s: AnthropicView) -> Set<int> {
    Set::new(
        |k: int| is_block(s.thinking_index, k) || is_block(s.text_index, k) || has_tool(s.tools, k),
    )
}

/// No two open blocks have one number, and all numbers are below the next one.
spec fn apart(s: AnthropicView) -> bool {
    &&& crate::wire::slots::slots_ascending(s.tools)
    &&& s.thinking_index matches Some(n) ==> n < s.next_index && !is_block(s.text_index, n as int)
    &&& s.text_index matches Some(n) ==> n < s.next_index
    &&& forall|slot: u32|
        (#[trigger] crate::wire::slots::slot_get(s.tools, slot)) matches Some(t) ==> t.index
            < s.next_index && !is_block(s.thinking_index, t.index as int) && !is_block(
            s.text_index,
            t.index as int,
        )
    &&& forall|a: u32, b: u32|
        a != b && (#[trigger] crate::wire::slots::slot_get(s.tools, a)) is Some && (
        #[trigger] crate::wire::slots::slot_get(s.tools, b)) is Some
            ==> crate::wire::slots::slot_get(s.tools, a)->0.index != crate::wire::slots::slot_get(
            s.tools,
            b,
        )->0.index
}

/// The ledger accounts for the frames `base` and those of the step.
spec fn kept(base: Seq<FrameView>, st: AnthropicStep, l: Ledger) -> bool {
    &&& apart(st.state)
    &&& crate::wire::ledger::tallies(
        block_marks(),
        base + st.frames,
        st.state.next_index as int,
        open_blocks(st.state),
        l,
    )
}

proof fn lemma_names()
    ensures
        crate::wire::ledger::distinct_marks(block_marks()),
        forall|f: FrameView| #[trigger] crate::wire::ledger::aside(block_marks(), f) <== f.event
            == "message_start"@ || f.event == "message_delta"@ || f.event == "message_stop"@
            || f.event == "error"@,
        forall|n: nat, j: Json|
            crate::wire::ledger::well_typed(#[trigger] crate::wire::anthropic::start_frame(n, j)),
        forall|n: nat, j: Json|
            crate::wire::ledger::well_typed(#[trigger] crate::wire::anthropic::delta_frame(n, j)),
        forall|n: nat|
            crate::wire::ledger::well_typed(#[trigger] crate::wire::anthropic::stop_frame(n)),
        forall|n: nat, j: Json|
            (#[trigger] crate::wire::anthropic::start_frame(n, j)).data.get("index"@)
                == crate::wire::ledger::place(n as int),
        forall|n: nat, j: Json|
            (#[trigger] crate::wire::anthropic::delta_frame(n, j)).data.get("index"@)
                == crate::wire::ledger::place(n as int),
        forall|n: nat|
            (#[trigger] crate::wire::anthropic::stop_frame(n)).data.get("index"@)
                == crate::wire::ledger::place(n as int),
        "type"@.len() == 4,
        "message"@.len() == 7,
        "error"@.len() == 5,
        "usage"@.len() == 5,
        "delta"@.len() == 5,
{
    reveal_strlit("type");
    reveal_strlit("index");
    reveal_strlit("content_block");
    reveal_strlit("delta");
    reveal_strlit("message");
    reveal_strlit("usage");
    reveal_strlit("error");
    reveal_strlit("content_block_start");
    reveal_strlit("content_block_stop");
    reveal_strlit("content_block_delta");
    reveal_strlit("message_start");
    reveal_strlit("message_delta");
    reveal_strlit("message_stop");
    assert("content_block_start"@.len() == 19);
    assert("content_block_delta"@.len() == 19);
    assert("content_block_stop"@.len() == 18);
    assert("message_start"@.len() == 13);
    assert("message_delta"@.len() == 13);
    assert("message_stop"@.len() == 12);
    assert("content_block_start"@[14] == 's');
    assert("content_block_delta"@[14] == 'd');
    assert("index"@[0] == 'i');
    assert("delta"@[0] == 'd');
    assert("content_block"@.len() == 13);
}

proof fn lemma_aside(base: Seq<FrameView>, st: AnthropicStep, f: FrameView, l: Ledger)
    requires
        kept(base, st, l),
        crate::wire::ledger::aside(block_marks(), f),
        crate::wire::ledger::well_typed(f),
    ensures
        kept(base, st.push(f), l),
{
    assert(base + st.push(f).frames =~= (base + st.frames).push(f));
    crate::wire::ledger::lemma_aside(
        block_marks(),
        base + st.frames,
        f,
        st.state.next_index as int,
        open_blocks(st.state),
        l,
    );
}

proof fn lemma_start(base: Seq<FrameView>, st: AnthropicStep, l: Ledger)
    requires
        kept(base, st, l),
    ensures
        kept(base, st.start(), l),
{
    if !st.state.started {
        lemma_names();
        let next = AnthropicStep { state: AnthropicView { started: true, ..st.state }, ..st };
        assert(open_blocks(next.state) =~= open_blocks(st.state));
        lemma_aside(base, next, st.start().frames.last(), l);
        assert(next.push(st.start().frames.last()) == st.start());
    }
}

/// A frame that opens the block after those so far.
proof fn lemma_open(base: Seq<FrameView>, st: AnthropicStep, next: AnthropicView, j: Json, l: Ledger) -> (r:
    Ledger)
    requires
        kept(base, st, l),
        apart(next),
        next.next_index == st.state.next_index + 1,
        open_blocks(next) =~= open_blocks(st.state).insert(st.state.next_index as int),
    ensures
        kept(
            base,
            AnthropicStep { state: next, ..st }.push(
                crate::wire::anthropic::start_frame(st.state.next_index, j),
            ),
            r,
        ),
{
    lemma_names();
    let f = crate::wire::anthropic::start_frame(st.state.next_index, j);
    let out = AnthropicStep { state: next, ..st }.push(f);
    assert(base + out.frames =~= (base + st.frames).push(f));
    crate::wire::ledger::lemma_open(
        block_marks(),
        base + st.frames,
        f,
        st.state.next_index as int,
        open_blocks(st.state),
        l,
    )
}

/// A frame with a piece of an open block.
proof fn lemma_piece(base: Seq<FrameView>, st: AnthropicStep, n: nat, j: Json, l: Ledger)
    requires
        kept(base, st, l),
        open_blocks(st.state).contains(n as int),
    ensures
        kept(base, st.push(crate::wire::anthropic::delta_frame(n, j)), l),
{
    lemma_names();
    let f = crate::wire::anthropic::delta_frame(n, j);
    assert(base + st.push(f).frames =~= (base + st.frames).push(f));
    assert(block_marks().pieces.contains(f.event));
    crate::wire::ledger::lemma_piece(
        block_marks(),
        base + st.frames,
        f,
        st.state.next_index as int,
        open_blocks(st.state),
        n as int,
        l,
    );
}

/// A frame that closes an open block.
proof fn lemma_close(base: Seq<FrameView>, st: AnthropicStep, next: AnthropicView, n: nat, l: Ledger) -> (r:
    Ledger)
    requires
        kept(base, st, l),
        apart(next),
        open_blocks(st.state).contains(n as int),
        next.next_index == st.state.next_index,
        open_blocks(next) =~= open_blocks(st.state).remove(n as int),
    ensures
        kept(
            base,
            AnthropicStep { state: next, ..st }.push(crate::wire::anthropic::stop_frame(n)),
            r,
        ),
{
    lemma_names();
    let f = crate::wire::anthropic::stop_frame(n);
    let out = AnthropicStep { state: next, ..st }.push(f);
    assert(base + out.frames =~= (base + st.frames).push(f));
    crate::wire::ledger::lemma_close(
        block_marks(),
        base + st.frames,
        f,
        st.state.next_index as int,
        open_blocks(st.state),
        n as int,
        l,
    )
}

proof fn lemma_open_thinking(base: Seq<FrameView>, st: AnthropicStep, l: Ledger) -> (r: Ledger)
    requires
        kept(base, st, l),
    ensures
        kept(base, st.open_thinking(), r),
{
    let s = st.state;
    if s.thinking_index is Some {
        l
    } else {
        let next = st.open_thinking().state;
        assert(open_blocks(next) =~= open_blocks(s).insert(s.next_index as int));
        lemma_open(
            base,
            st,
            next,
            crate::wire::anthropic::typed("thinking"@).with("thinking"@, Json::Str(Seq::empty())),
            l,
        )
    }
}

proof fn lemma_open_text(base: Seq<FrameView>, st: AnthropicStep, l: Ledger) -> (r: Ledger)
    requires
        kept(base, st, l),
    ensures
        kept(base, st.open_text(), r),
{
    let s = st.state;
    if s.text_index is Some {
        l
    } else {
        let next = st.open_text().state;
        assert(open_blocks(next) =~= open_blocks(s).insert(s.next_index as int));
        lemma_open(
            base,
            st,
            next,
            crate::wire::anthropic::typed("text"@).with("text"@, Json::Str(Seq::empty())),
            l,
        )
    }
}

proof fn lemma_close_thinking(base: Seq<FrameView>, st: AnthropicStep, l: Ledger) -> (r: Ledger)
    requires
        kept(base, st, l),
    ensures
        kept(base, st.close_thinking(), r),
{
    let s = st.state;
    match s.thinking_index {
        None => l,
        Some(n) => {
            let out = st.close_thinking();
            let delta = crate::wire::anthropic::typed("signature_delta"@).with(
                "signature"@,
                Json::Str(crate::wire::anthropic::thinking_signature()),
            );
            lemma_piece(base, st, n, delta, l);
            let mid = st.push(crate::wire::anthropic::delta_frame(n, delta));
            assert(open_blocks(out.state) =~= open_blocks(s).remove(n as int));
            lemma_close(base, mid, out.state, n, l)
        },
    }
}

proof fn lemma_close_text(base: Seq<FrameView>, st: AnthropicStep, l: Ledger) -> (r: Ledger)
    requires
        kept(base, st, l),
    ensures
        kept(base, st.close_text(), r),
{
    let s = st.state;
    match s.text_index {
        None => l,
        Some(n) => {
            let out = st.close_text();
            assert(open_blocks(out.state) =~= open_blocks(s).remove(n as int));
            lemma_close(base, st, out.state, n, l)
        },
    }
}

/// Closing the first `n` of the open tool-use blocks.
proof fn lemma_finish_tools(
    base: Seq<FrameView>,
    st: AnthropicStep,
    ts: Seq<(u32, ToolBlockView)>,
    n: int,
    live: Set<int>,
    l: Ledger,
) -> (r: Ledger)
    requires
        0 <= n <= ts.len(),
        crate::wire::ledger::tallies(
            block_marks(),
            base + st.frames,
            st.state.next_index as int,
            live,
            l,
        ),
        forall|i: int| 0 <= i < ts.len() ==> live.contains((#[trigger] ts[i]).1.index as int),
        forall|i: int, j: int|
            0 <= i < j < ts.len() ==> (#[trigger] ts[i]).1.index != (#[trigger] ts[j]).1.index,
    ensures
        ({
            let out = st.finish_tools(ts.take(n));
            &&& out.state == (AnthropicView { final_blocks: out.state.final_blocks, ..st.state })
            &&& crate::wire::ledger::tallies(
                block_marks(),
                base + out.frames,
                st.state.next_index as int,
                live.filter(
                    |k: int| forall|i: int| 0 <= i < n ==> (#[trigger] ts[i]).1.index != k,
                ),
                r,
            )
        }),
    decreases n,
{
    if n == 0 {
        assert(live.filter(
            |k: int| forall|i: int| 0 <= i < n ==> (#[trigger] ts[i]).1.index != k,
        ) =~= live);
        l
    } else {
        let l1 = lemma_finish_tools(base, st, ts, n - 1, live, l);
        lemma_names();
        assert(ts.take(n).drop_last() =~= ts.take(n - 1));
        assert(ts.take(n).last() == ts[n - 1]);
        let before = st.finish_tools(ts.take(n - 1));
        let t = ts[n - 1].1;
        let f = crate::wire::anthropic::stop_frame(t.index);
        let out = before.finish_tool(t);
        let a = live.filter(
            |k: int| forall|i: int| 0 <= i < n - 1 ==> (#[trigger] ts[i]).1.index != k,
        );
        let b = live.filter(|k: int| forall|i: int| 0 <= i < n ==> (#[trigger] ts[i]).1.index != k);
        assert(base + out.frames =~= (base + before.frames).push(f));
        assert(a.contains(t.index as int));
        assert(b =~= a.remove(t.index as int)) by {
            assert forall|k: int| b.contains(k) <==> #[trigger] a.remove(t.index as int).contains(
                k,
            ) by {
                if b.contains(k) {
                    assert(ts[n - 1].1.index != k);
                }
            }
        }
        crate::wire::ledger::lemma_close(
            block_marks(),
            base + before.frames,
            f,
            st.state.next_index as int,
            a,
            t.index as int,
            l1,
        )
    }
}

proof fn lemma_close_open_tools(base: Seq<FrameView>, st: AnthropicStep, l: Ledger) -> (r: Ledger)
    requires
        kept(base, st, l),
        st.state.thinking_index is None,
        st.state.text_index is None,
    ensures
        kept(base, st.close_open_tools(), r),
        open_blocks(st.close_open_tools().state) == Set::<int>::empty(),
{
    let ts = st.state.tools;
    let live = open_blocks(st.state);
    let e = AnthropicStep { state: AnthropicView { tools: Seq::empty(), ..st.state }, ..st };
    assert forall|i: int| 0 <= i < ts.len() implies live.contains(
        (#[trigger] ts[i]).1.index as int,
    ) by {
        crate::wire::slots::lemma_slot_at(ts, i);
        assert(has_tool(ts, ts[i].1.index as int));
    }
    assert forall|i: int, j: int| 0 <= i < j < ts.len() implies (#[trigger] ts[i]).1.index != (
    #[trigger] ts[j]).1.index by {
        crate::wire::slots::lemma_slot_at(ts, i);
        crate::wire::slots::lemma_slot_at(ts, j);
    }
    let r = lemma_finish_tools(base, e, ts, ts.len() as int, live, l);
    assert(ts.take(ts.len() as int) =~= ts);
    let out = st.close_open_tools();
    let n = ts.len();
    let rest = live.filter(|k: int| forall|i: int| 0 <= i < n ==> (#[trigger] ts[i]).1.index != k);
    assert forall|k: int| !(#[trigger] rest.contains(k)) by {
        if live.contains(k) {
            let slot = choose|slot: u32|
                (#[trigger] crate::wire::slots::slot_get(ts, slot)) matches Some(t) && t.index == k;
            let i = crate::wire::slots::lemma_slot_found(ts, slot);
            assert(ts[i].1.index == k);
        }
    }
    assert(rest =~= Set::empty());
    assert(open_blocks(out.state) =~= Set::empty());
    r
}

proof fn lemma_step(base: Seq<FrameView>, s: AnthropicView, ev: EventView, l: Ledger) -> (r: Ledger)
    requires
        kept(base, AnthropicStep { state: s, frames: Seq::empty() }, l),
        !crate::wire::anthropic_laws::restarts_open_call(s, ev),
    ensures
        kept(base, s.step(ev), r),
{
    lemma_names();
    let st = AnthropicStep { state: s, frames: Seq::empty() };
    let out = s.step(ev);
    match ev {
        EventView::Created { response_id, model } => {
            let a = AnthropicStep {
                state: AnthropicView { message_id: response_id, model, ..s },
                ..st
            };
            assert(open_blocks(a.state) =~= open_blocks(s));
            lemma_start(base, a, l);
            l
        },
        EventView::ReasoningDelta { text } => {
            lemma_start(base, st, l);
            let l1 = lemma_open_thinking(base, st.start(), l);
            let o = st.start().open_thinking();
            let a = AnthropicStep { state: out.state, ..o };
            assert(open_blocks(a.state) =~= open_blocks(o.state));
            let n = o.state.thinking_index->0;
            assert(open_blocks(a.state).contains(n as int));
            lemma_piece(
                base,
                a,
                n,
                crate::wire::anthropic::typed("thinking_delta"@).with("thinking"@, Json::Str(text)),
                l1,
            );
            l1
        },
        EventView::TextDelta { text } => {
            lemma_start(base, st, l);
            let l1 = lemma_close_thinking(base, st.start(), l);
            let l2 = lemma_open_text(base, st.start().close_thinking(), l1);
            let o = st.start().close_thinking().open_text();
            let a = AnthropicStep { state: out.state, ..o };
            assert(open_blocks(a.state) =~= open_blocks(o.state));
            let n = o.state.text_index->0;
            assert(open_blocks(a.state).contains(n as int));
            lemma_piece(
                base,
                a,
                n,
                crate::wire::anthropic::typed("text_delta"@).with("text"@, Json::Str(text)),
                l2,
            );
            l2
        },
        EventView::ToolCallStart { index, call_id, name } => {
            lemma_start(base, st, l);
            let l1 = lemma_close_thinking(base, st.start(), l);
            let l2 = lemma_close_text(base, st.start().close_thinking(), l1);
            let c = st.start().close_thinking().close_text();
            let n = c.state.next_index;
            let t = ToolBlockView { index: n, id: call_id, name, args: Seq::empty() };
            assert(c.state.tools == s.tools);
            crate::wire::slots::lemma_every_slot(s.tools, index, t);
            assert forall|k: int| has_tool(out.state.tools, k) <==> has_tool(s.tools, k) || k
                == n by {
                if has_tool(s.tools, k) {
                    let slot = choose|slot: u32|
                        (#[trigger] crate::wire::slots::slot_get(s.tools, slot)) matches Some(t)
                            && t.index == k;
                    assert(crate::wire::slots::slot_get(out.state.tools, slot)
                        == crate::wire::slots::slot_get(s.tools, slot));
                }
                if k == n {
                    assert(crate::wire::slots::slot_get(out.state.tools, index) == Some(t));
                }
            }
            assert(open_blocks(out.state) =~= open_blocks(c.state).insert(n as int));
            lemma_open(
                base,
                c,
                out.state,
                crate::wire::anthropic::typed("tool_use"@).with("id"@, Json::Str(call_id)).with(
                    "name"@,
                    Json::Str(name),
                ).with("input"@, Json::obj()),
                l2,
            )
        },
        EventView::ToolCallArgsDelta { index, delta } => {
            match crate::wire::slots::slot_get(s.tools, index) {
                None => l,
                Some(t) => {
                    let u = ToolBlockView { args: t.args + delta, ..t };
                    crate::wire::slots::lemma_every_slot(s.tools, index, u);
                    assert forall|k: int| has_tool(out.state.tools, k) <==> has_tool(s.tools, k) by {
                        if has_tool(s.tools, k) {
                            let slot = choose|slot: u32|
                                (#[trigger] crate::wire::slots::slot_get(s.tools, slot)) matches Some(t)
                                    && t.index == k;
                            assert(crate::wire::slots::slot_get(out.state.tools, slot) matches Some(x)
                                && x.index == k);
                        }
                    }
                    let a = AnthropicStep { state: out.state, ..st };
                    assert(open_blocks(a.state) =~= open_blocks(s));
                    assert(has_tool(s.tools, t.index as int));
                    assert(open_blocks(s).contains(t.index as int));
                    assert(apart(a.state));
                    lemma_piece(
                        base,
                        a,
                        t.index,
                        crate::wire::anthropic::typed("input_json_delta"@).with(
                            "partial_json"@,
                            Json::Str(delta),
                        ),
                        l,
                    );
                    l
                },
            }
        },
        EventView::ToolCallDone { index } => {
            match crate::wire::slots::slot_get(s.tools, index) {
                None => l,
                Some(t) => {
                    crate::wire::slots::lemma_every_slot(s.tools, index, t);
                    assert forall|k: int| has_tool(out.state.tools, k) <==> has_tool(s.tools, k)
                        && k != t.index by {
                        if has_tool(s.tools, k) && k != t.index {
                            let slot = choose|slot: u32|
                                (#[trigger] crate::wire::slots::slot_get(s.tools, slot)) matches Some(t)
                                    && t.index == k;
                            assert(crate::wire::slots::slot_get(out.state.tools, slot)
                                == crate::wire::slots::slot_get(s.tools, slot));
                        }
                    }
                    assert(has_tool(s.tools, t.index as int));
                    assert(open_blocks(out.state) =~= open_blocks(s).remove(t.index as int));
                    lemma_close(base, st, out.state, t.index, l)
                },
            }
        },
        EventView::Usage { .. } => {
            assert(open_blocks(out.state) =~= open_blocks(s));
            l
        },
        EventView::Completed => {
            let l1 = lemma_close_thinking(base, st, l);
            let l2 = lemma_close_text(base, st.close_thinking(), l1);
            let c = st.close_thinking().close_text();
            let l3 = lemma_close_open_tools(base, c, l2);
            let d = c.close_open_tools();
            let n = d.frames.len() as int;
            let f1 = out.frames[n];
            let f2 = out.frames[n + 1];
            lemma_aside(base, d, f1, l3);
            lemma_aside(base, d.push(f1), f2, l3);
            assert(d.push(f1).push(f2) == out);
            l3
        },
        EventView::Error { .. } => {
            lemma_aside(base, st, out.frames.last(), l);
            assert(st.push(out.frames.last()) == out);
            l
        },
    }
}

proof fn lemma_run(evs: Seq<EventView>) -> (l: Ledger)
    requires
        crate::wire::anthropic_laws::no_restarts(AnthropicView::initial(), evs),
    ensures
        kept(
            Seq::empty(),
            crate::wire::anthropic_laws::run(AnthropicView::initial(), evs),
            l,
        ),
    decreases evs.len(),
{
    let s = AnthropicView::initial();
    let none = Seq::<FrameView>::empty();
    if evs.len() == 0 {
        let l = Ledger { opens: Seq::empty(), closes: Map::empty() };
        crate::wire::ledger::lemma_nothing_yet(block_marks(), l);
        assert(none + none =~= none);
        assert(open_blocks(s) =~= Set::empty());
        l
    } else {
        let init = evs.drop_last();
        let n = evs.len() - 1;
        assert(init =~= evs.take(n));
        assert forall|i: int| 0 <= i < init.len() implies !crate::wire::anthropic_laws::restarts_open_call(
            crate::wire::anthropic_laws::run(s, init.take(i)).state,
            #[trigger] init[i],
        ) by {
            assert(init.take(i) =~= evs.take(i));
            assert(init[i] == evs[i]);
        }
        let l = lemma_run(init);
        let before = crate::wire::anthropic_laws::run(s, init);
        let ev = evs.last();
        assert(ev == evs[n]);
        assert(none + before.frames =~= before.frames);
        assert(before.frames + none =~= before.frames);
        let r = lemma_step(before.frames, before.state, ev, l);
        let all = crate::wire::anthropic_laws::run(s, evs);
        assert(none + all.frames =~= before.frames + before.state.step(ev).frames);
        r
    }
}

/// In a completed stream the content blocks are opened under the indices zero, one, two
/// and so on, in that order. Each is closed exactly once, after it was opened and before
/// the message's stop reason is given, nothing else is closed, and every piece of a block
/// comes while the block is open. The type in a frame's data is the frame's event name.
/// Streams that start a call under the index of a call that is still open are left out,
/// since the older call's block is then never closed.
pub proof fn blocks_open_in_order_and_close_once(evs: Seq<EventView>) -> (l: Ledger)
    requires
        evs.len() > 0,
        evs.last() is Completed,
        crate::wire::anthropic_laws::no_restarts(AnthropicView::initial(), evs),
    ensures
        ({
            let out = crate::wire::anthropic_laws::run(AnthropicView::initial(), evs);
            let n = out.frames.len();
            &&& n >= 2
            &&& out.frames[n - 2].event == "message_delta"@
            &&& crate::wire::ledger::tallies(
                block_marks(),
                out.frames,
                out.state.next_index as int,
                Set::empty(),
                l,
            )
            &&& forall|k: int| 0 <= k < out.state.next_index ==> #[trigger] l.closes[k] < n - 2
        }),
{
    let l = lemma_run(evs);
    let s = AnthropicView::initial();
    let before = crate::wire::anthropic_laws::run(s, evs.drop_last());
    let out = crate::wire::anthropic_laws::run(s, evs);
    crate::wire::anthropic_laws::completion_closes_everything(before.state);
    crate::wire::anthropic_laws::completion_ends_the_message(before.state);
    assert(open_blocks(out.state) =~= Set::empty()) by {
        assert forall|k: int| !has_tool(out.state.tools, k) by {
            assert forall|slot: u32| crate::wire::slots::slot_get(
                out.state.tools,
                slot,
            ) is None by {}
        }
    }
    assert(Seq::<FrameView>::empty() + out.frames =~= out.frames);
    lemma_names();
    let n = out.frames.len();
    reveal_strlit("message_delta");
    reveal_strlit("message_stop");
    reveal_strlit("content_block_stop");
    assert forall|k: int| 0 <= k < out.state.next_index implies #[trigger] l.closes[k] < n - 2 by {
        assert(l.closes.dom().contains(k));
        assert(out.frames[l.closes[k]].event == "content_block_stop"@);
        assert("content_block_stop"@.len() == 18);
        assert("message_delta"@.len() == 13);
        assert("message_stop"@.len() == 12);
    }
    l
}

/// A frame name other than those that begin and end a message.
spec fn inner(name: Seq<char>) -> bool {
    name != "message_start"@ && name != "message_delta"@ && name != "message_stop"@
}

spec fn all_inner(frames: Seq<FrameView>) -> bool {
    forall|p: int| 0 <= p < frames.len() ==> inner((#[trigger] frames[p]).event)
}

proof fn lemma_inner_names()
    ensures
        inner("content_block_start"@),
        inner("content_block_stop"@),
        inner("content_block_delta"@),
        inner("error"@),
        "message_start"@ != "message_delta"@,
        "message_start"@ != "message_stop"@,
        "message_delta"@ != "message_stop"@,
{
    reveal_strlit("error");
    reveal_strlit("content_block_start");
    reveal_strlit("content_block_stop");
    reveal_strlit("content_block_delta");
    reveal_strlit("message_start");
    reveal_strlit("message_delta");
    reveal_strlit("message_stop");
    assert("content_block_start"@.len() == 19);
    assert("content_block_delta"@.len() == 19);
    assert("content_block_stop"@.len() == 18);
    assert("error"@.len() == 5);
    assert("message_start"@.len() == 13);
    assert("message_delta"@.len() == 13);
    assert("message_stop"@.len() == 12);
    assert("message_start"@[8] == 's');
    assert("message_delta"@[8] == 'd');
}

proof fn lemma_closing_is_inner(st: AnthropicStep, ts: Seq<(u32, ToolBlockView)>)
    requires
        all_inner(st.frames),
    ensures
        all_inner(st.close_thinking().frames),
        all_inner(st.close_text().frames),
        all_inner(st.open_thinking().frames),
        all_inner(st.open_text().frames),
        all_inner(st.finish_tools(ts).frames),
        st.finish_tools(ts).state.started == st.state.started,
    decreases ts.len(),
{
    lemma_inner_names();
    if ts.len() > 0 {
        lemma_closing_is_inner(st, ts.drop_last());
    }
}

/// Once a message has begun, only its completion gives frames that end it, and none
/// begins it again.
proof fn lemma_step_is_inner(s: AnthropicView, ev: EventView)
    requires
        s.started,
    ensures
        s.step(ev).state.started,
        !(ev is Completed) ==> all_inner(s.step(ev).frames),
        ev is Completed ==> s.step(ev).frames.len() >= 2 && all_inner(
            s.step(ev).frames.take(s.step(ev).frames.len() - 2),
        ),
{
    lemma_inner_names();
    let st = AnthropicStep { state: s, frames: Seq::empty() };
    let out = s.step(ev);
    let none = Seq::<(u32, ToolBlockView)>::empty();
    lemma_closing_is_inner(st, none);
    lemma_closing_is_inner(st.close_thinking(), none);
    match ev {
        EventView::Completed => {
            let c = st.close_thinking().close_text();
            let e = AnthropicStep { state: AnthropicView { tools: Seq::empty(), ..c.state }, ..c };
            lemma_closing_is_inner(e, c.state.tools);
            assert(out.frames.take(out.frames.len() - 2) =~= e.finish_tools(c.state.tools).frames);
        },
        _ => {},
    }
}

proof fn lemma_begun(evs: Seq<EventView>)
    requires
        evs.len() > 0,
        evs[0] is Created,
        forall|i: int| 0 <= i < evs.len() ==> !((#[trigger] evs[i]) is Completed),
    ensures
        ({
            let out = crate::wire::anthropic_laws::run(AnthropicView::initial(), evs);
            &&& out.state.started
            &&& out.frames.len() > 0
            &&& out.frames[0].event == "message_start"@
            &&& all_inner(out.frames.skip(1))
        }),
    decreases evs.len(),
{
    let s = AnthropicView::initial();
    let init = evs.drop_last();
    let before = crate::wire::anthropic_laws::run(s, init);
    let ev = evs.last();
    let out = crate::wire::anthropic_laws::run(s, evs);
    if init.len() == 0 {
        assert(ev == evs[0]);
        assert(before.frames =~= Seq::empty());
        assert(out.frames.skip(1) =~= Seq::empty());
    } else {
        assert forall|i: int| 0 <= i < init.len() implies !((#[trigger] init[i]) is Completed) by {
            assert(init[i] == evs[i]);
        }
        lemma_begun(init);
        assert(ev == evs[evs.len() - 1]);
        lemma_step_is_inner(before.state, ev);
        let last = before.state.step(ev).frames;
        assert(out.frames.skip(1) =~= before.frames.skip(1) + last);
    }
}

/// Whether the last event is the completion, and no other event is.
pub open spec fn completed_at_the_end(evs: Seq<EventView>) -> bool {
    &&& evs.len() > 0
    &&& evs.last() is Completed
    &&& forall|i: int| 0 <= i < evs.len() - 1 ==> !((#[trigger] evs[i]) is Completed)
}

/// A stream that begins with its creation and ends with its only completion has exactly
/// one frame that begins the message, and it is the first; the last two frames give the
/// stop reason and end the message, and no other frame does either. The stop reason is
/// tool use where a call was started, and the end of the turn otherwise.
pub proof fn messages_begin_and_end_once(evs: Seq<EventView>)
    requires
        completed_at_the_end(evs),
        evs[0] is Created,
    ensures
        ({
            let frames = crate::wire::anthropic_laws::run(AnthropicView::initial(), evs).frames;
            let n = frames.len();
            &&& n >= 3
            &&& frames[0].event == "message_start"@
            &&& frames[n - 2].event == "message_delta"@
            &&& frames[n - 1].event == "message_stop"@
            &&& forall|p: int|
                0 <= p < n && (#[trigger] frames[p]).event == "message_start"@ ==> p == 0
            &&& forall|p: int|
                0 <= p < n && (#[trigger] frames[p]).event == "message_delta"@ ==> p == n - 2
            &&& forall|p: int|
                0 <= p < n && (#[trigger] frames[p]).event == "message_stop"@ ==> p == n - 1
            &&& frames[n - 2].data.get2("delta"@, "stop_reason"@) == Some(
                Json::Str(
                    if exists|i: int| 0 <= i < evs.len() && (#[trigger] evs[i]) is ToolCallStart {
                        "tool_use"@
                    } else {
                        "end_turn"@
                    },
                ),
            )
        }),
{
    lemma_inner_names();
    let s = AnthropicView::initial();
    let init = evs.drop_last();
    assert(evs[0] is Created && evs.last() is Completed);
    assert(init.len() > 0);
    assert forall|i: int| 0 <= i < init.len() implies !((#[trigger] init[i]) is Completed) by {
        assert(init[i] == evs[i]);
    }
    assert(init[0] == evs[0]);
    lemma_begun(init);
    let before = crate::wire::anthropic_laws::run(s, init);
    let out = crate::wire::anthropic_laws::run(s, evs);
    lemma_step_is_inner(before.state, evs.last());
    crate::wire::anthropic_laws::completion_ends_the_message(before.state);
    crate::wire::anthropic_laws::stops_for_tool_use_iff_a_call_started(evs);
    let last = before.state.step(evs.last()).frames;
    let frames = out.frames;
    let n = frames.len();
    let m = before.frames.len();
    assert forall|p: int| 0 < p < n - 2 implies inner((#[trigger] frames[p]).event) by {
        if p < m {
            assert(frames[p] == before.frames.skip(1)[p - 1]);
        } else {
            assert(frames[p] == last.take(last.len() - 2)[p - m]);
        }
    }
    assert(frames[n - 2] == last[last.len() - 2]);
    assert(frames[n - 1] == last[last.len() - 1]);
    assert(frames[0] == before.frames[0]);
    reveal_strlit("stop_reason");
    reveal_strlit("usage");
    reveal_strlit("stop_sequence");
    assert("stop_reason"@.len() == 11);
    assert("usage"@.len() == 5);
    assert("stop_sequence"@.len() == 13);
}

} // verus!
