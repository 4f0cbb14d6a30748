//! How the output items of a stream of Responses frames follow each other.

use vstd::prelude::*;

use crate::canonical::EventView;
use crate::json::Json;
use crate::wire::ledger::{Ledger, Marks};
use crate::wire::responses::{ItemView, ResponsesStep, ResponsesView, ToolItemView};
use crate::wire::FrameView;

verus! {

/// How the frames speak of output items.
pub open spec fn item_marks() -> Marks {
    Marks {
        open: "response.output_item.added"@,
        close: "response.output_item.done"@,
        key: "output_index"@,
        pieces: Set::empty().insert("response.reasoning_summary_text.delta"@).insert(
            "response.output_text.delta"@,
        ).insert("response.function_call_arguments.delta"@),
    }
}

/// The items that the frames say are done, in the order of the frames.
pub open spec fn done_items(frames: Seq<FrameView>) -> Seq<Option<Json>>
    decreases frames.len(),
{
    if frames.len() == 0 {
        Seq::empty()
    } else if frames.last().event == "response.output_item.done"@ {
        done_items(frames.drop_last()).push(frames.last().data.get("item"@))
    } else {
        done_items(frames.drop_last())
    }
}

/// Whether the optional item is the item `k`.
pub open spec fn is_item(o: Option<ItemView>, k: int) -> bool {
    o matches Some(item) && item.output_index == k
}

/// Whether one of the open function calls is the item `k`.
pub open spec fn has_call(ts: Seq<(u32, ToolItemView)>, k: int) -> bool {
    exists|slot: u32|
        (#[trigger] crate::wire::slots::slot_get(ts, slot)) matches Some(t) && t.output_index == k
}

/// The items that are open.
pub open spec fn open_items(s: ResponsesView) -> Set<int> {
    Set::new(
        |k: int| is_item(s.reasoning_item, k) || is_item(s.message_item, k) || has_call(s.tools, k),
    )
}

/// No two open items have one place, and all places are below the next one.
spec fn apart(s: ResponsesView) -> bool {
    &&& crate::wire::slots::slots_ascending(s.tools)
    &&& s.reasoning_item matches Some(item) ==> item.output_index < s.next_output_index && !is_item(
        s.message_item,
        item.output_index as int,
    )
    &&& s.message_item matches Some(item) ==> item.output_index < s.next_output_index
    &&& forall|slot: u32|
        (#[trigger] crate::wire::slots::slot_get(s.tools, slot)) matches Some(t) ==> t.output_index
            < s.next_output_index && !is_item(s.reasoning_item, t.output_index as int) && !is_item(
            s.message_item,
            t.output_index as int,
        )
    &&& forall|a: u32, b: u32|
        a != b && (#[trigger] crate::wire::slots::slot_get(s.tools, a)) is Some && (
        #[trigger] crate::wire::slots::slot_get(s.tools, b)) is Some
            ==> crate::wire::slots::slot_get(s.tools, a)->0.output_index
            != crate::wire::slots::slot_get(s.tools, b)->0.output_index
}

/// The items that are done, as members of a frame.
pub open spec fn as_members(items: Seq<Json>) -> Seq<Option<Json>> {
    items.map_values(|j: Json| Some(j))
}

/// The ledger accounts for the frames `base` and those of the step, and the items that
/// are done are those that the frames say are done.
spec fn kept(base: Seq<FrameView>, st: ResponsesStep, l: Ledger) -> bool {
    &&& apart(st.state)
    &&& crate::wire::ledger::tallies(
        item_marks(),
        base + st.frames,
        st.state.next_output_index as int,
        open_items(st.state),
        l,
    )
    &&& as_members(st.state.final_items) == done_items(base + st.frames)
}

/// A frame that is not about the life of an item.
spec fn remark(f: FrameView) -> bool {
    crate::wire::ledger::aside(item_marks(), f) && crate::wire::ledger::well_typed(f)
}

proof fn lemma_names()
    ensures
        crate::wire::ledger::distinct_marks(item_marks()),
        forall|f: FrameView| #[trigger] crate::wire::ledger::aside(item_marks(), f) <== f.event
            == "response.created"@ || f.event == "response.reasoning_summary_text.done"@ || f.event
            == "response.content_part.added"@ || f.event == "response.output_text.done"@ || f.event
            == "response.content_part.done"@ || f.event
            == "response.function_call_arguments.done"@ || f.event == "response.completed"@
            || f.event == "response.failed"@,
        "type"@.len() == 4,
        "item"@.len() == 4,
        "type"@ != "item"@,
        "output_index"@.len() == 12,
        "item_id"@.len() == 7,
        "sequence_number"@.len() == 15,
        "summary_index"@.len() == 13,
        "content_index"@.len() == 13,
        "delta"@.len() == 5,
        "text"@.len() == 4,
        "text"@ != "type"@,
        "text"@ != "item"@,
        "part"@.len() == 4,
        "part"@ != "type"@,
        "part"@ != "item"@,
        "arguments"@.len() == 9,
        "response"@.len() == 8,
{
    reveal_strlit("type");
    reveal_strlit("item");
    reveal_strlit("text");
    reveal_strlit("part");
    reveal_strlit("delta");
    reveal_strlit("item_id");
    reveal_strlit("arguments");
    reveal_strlit("response");
    reveal_strlit("output_index");
    reveal_strlit("sequence_number");
    reveal_strlit("summary_index");
    reveal_strlit("content_index");
    assert("type"@[1] == 'y');
    assert("text"@[1] == 'e');
    assert("item"@[1] == 't');
    assert("part"@[1] == 'a');
    reveal_strlit("response.output_item.added");
    reveal_strlit("response.output_item.done");
    reveal_strlit("response.created");
    reveal_strlit("response.reasoning_summary_text.delta");
    reveal_strlit("response.reasoning_summary_text.done");
    reveal_strlit("response.content_part.added");
    reveal_strlit("response.output_text.delta");
    reveal_strlit("response.output_text.done");
    reveal_strlit("response.content_part.done");
    reveal_strlit("response.function_call_arguments.delta");
    reveal_strlit("response.function_call_arguments.done");
    reveal_strlit("response.completed");
    reveal_strlit("response.failed");
    assert("response.output_item.added"@.len() == 26);
    assert("response.output_item.done"@.len() == 25);
    assert("response.created"@.len() == 16);
    assert("response.reasoning_summary_text.delta"@.len() == 37);
    assert("response.reasoning_summary_text.done"@.len() == 36);
    assert("response.content_part.added"@.len() == 27);
    assert("response.content_part.done"@.len() == 26);
    assert("response.output_text.delta"@.len() == 26);
    assert("response.output_text.done"@.len() == 25);
    assert("response.function_call_arguments.delta"@.len() == 38);
    assert("response.function_call_arguments.done"@.len() == 37);
    assert("response.completed"@.len() == 18);
    assert("response.failed"@.len() == 15);
    assert("response.output_item.added"@[16] == 'i');
    assert("response.output_item.done"@[16] == 'i');
    assert("response.output_text.delta"@[16] == 't');
    assert("response.output_text.done"@[16] == 't');
    assert("response.output_item.added"@[9] == 'o');
    assert("response.output_text.delta"@[9] == 'o');
    assert("response.content_part.done"@[9] == 'c');
    assert("response.reasoning_summary_text.delta"@[9] == 'r');
    assert("response.function_call_arguments.done"@[9] == 'f');
}

proof fn lemma_done_push(frames: Seq<FrameView>, f: FrameView)
    ensures
        done_items(frames.push(f)) == if f.event == "response.output_item.done"@ {
            done_items(frames).push(f.data.get("item"@))
        } else {
            done_items(frames)
        },
{
    assert(frames.push(f).drop_last() =~= frames);
}

proof fn lemma_remark(base: Seq<FrameView>, st: ResponsesStep, f: FrameView, l: Ledger)
    requires
        kept(base, st, l),
        remark(f),
    ensures
        kept(base, st.push(f), l),
{
    assert(base + st.push(f).frames =~= (base + st.frames).push(f));
    lemma_done_push(base + st.frames, f);
    crate::wire::ledger::lemma_aside(
        item_marks(),
        base + st.frames,
        f,
        st.state.next_output_index as int,
        open_items(st.state),
        l,
    );
}

/// A frame that opens the item after those so far.
proof fn lemma_open(
    base: Seq<FrameView>,
    st: ResponsesStep,
    next: ResponsesView,
    j: Json,
    l: Ledger,
) -> (r: Ledger)
    requires
        kept(base, st, l),
        apart(next),
        next.next_output_index == st.state.next_output_index + 1,
        next.final_items == st.state.final_items,
        open_items(next) =~= open_items(st.state).insert(st.state.next_output_index as int),
    ensures
        kept(
            base,
            ResponsesStep { state: next, ..st }.push(
                crate::wire::responses::added_frame(st.state.next_output_index, j),
            ),
            r,
        ),
{
    lemma_names();
    let f = crate::wire::responses::added_frame(st.state.next_output_index, j);
    let out = ResponsesStep { state: next, ..st }.push(f);
    assert(base + out.frames =~= (base + st.frames).push(f));
    lemma_done_push(base + st.frames, f);
    crate::wire::ledger::lemma_open(
        item_marks(),
        base + st.frames,
        f,
        st.state.next_output_index as int,
        open_items(st.state),
        l,
    )
}

/// A frame with a piece of an open item.
proof fn lemma_piece(base: Seq<FrameView>, st: ResponsesStep, n: nat, f: FrameView, l: Ledger)
    requires
        kept(base, st, l),
        open_items(st.state).contains(n as int),
        item_marks().pieces.contains(f.event),
        f.data.get("output_index"@) == crate::wire::ledger::place(n as int),
        crate::wire::ledger::well_typed(f),
    ensures
        kept(base, st.push(f), l),
{
    lemma_names();
    assert(base + st.push(f).frames =~= (base + st.frames).push(f));
    lemma_done_push(base + st.frames, f);
    crate::wire::ledger::lemma_piece(
        item_marks(),
        base + st.frames,
        f,
        st.state.next_output_index as int,
        open_items(st.state),
        n as int,
        l,
    );
}

/// A frame that closes an open item.
proof fn lemma_close(
    base: Seq<FrameView>,
    st: ResponsesStep,
    next: ResponsesView,
    n: nat,
    j: Json,
    l: Ledger,
) -> (r: Ledger)
    requires
        kept(base, st, l),
        apart(next),
        open_items(st.state).contains(n as int),
        next.next_output_index == st.state.next_output_index,
        next.final_items == st.state.final_items.push(j),
        open_items(next) =~= open_items(st.state).remove(n as int),
    ensures
        kept(
            base,
            ResponsesStep { state: next, ..st }.push(crate::wire::responses::done_frame(n, j)),
            r,
        ),
{
    lemma_names();
    let f = crate::wire::responses::done_frame(n, j);
    let out = ResponsesStep { state: next, ..st }.push(f);
    assert(base + out.frames =~= (base + st.frames).push(f));
    lemma_done_push(base + st.frames, f);
    assert(as_members(next.final_items) =~= as_members(st.state.final_items).push(Some(j)));
    crate::wire::ledger::lemma_close(
        item_marks(),
        base + st.frames,
        f,
        st.state.next_output_index as int,
        open_items(st.state),
        n as int,
        l,
    )
}

proof fn lemma_open_reasoning(base: Seq<FrameView>, st: ResponsesStep, id: Seq<char>, l: Ledger) -> (r:
    Ledger)
    requires
        kept(base, st, l),
    ensures
        kept(base, st.open_reasoning(id), r),
{
    let s = st.state;
    if s.reasoning_item is Some {
        l
    } else {
        let next = st.open_reasoning(id).state;
        assert(open_items(next) =~= open_items(s).insert(s.next_output_index as int));
        lemma_open(
            base,
            st,
            next,
            crate::wire::responses::payload("reasoning"@).with("id"@, Json::Str(id)).with(
                "summary"@,
                Json::Arr(Seq::empty()),
            ),
            l,
        )
    }
}

proof fn lemma_open_message(base: Seq<FrameView>, st: ResponsesStep, id: Seq<char>, l: Ledger) -> (r:
    Ledger)
    requires
        kept(base, st, l),
    ensures
        kept(base, st.open_message(id), r),
{
    let s = st.state;
    if s.message_item is Some {
        l
    } else {
        lemma_names();
        let out = st.open_message(id);
        assert(open_items(out.state) =~= open_items(s).insert(s.next_output_index as int));
        let item = crate::wire::responses::payload("message"@).with("id"@, Json::Str(id)).with(
            "role"@,
            Json::Str("assistant"@),
        ).with("status"@, Json::Str("in_progress"@)).with("content"@, Json::Arr(Seq::empty()));
        let r = lemma_open(base, st, out.state, item, l);
        let mid = ResponsesStep { state: out.state, ..st }.push(
            crate::wire::responses::added_frame(s.next_output_index, item),
        );
        lemma_remark(base, mid, out.frames.last(), r);
        assert(mid.push(out.frames.last()) == out);
        r
    }
}

proof fn lemma_close_reasoning(base: Seq<FrameView>, st: ResponsesStep, l: Ledger) -> (r: Ledger)
    requires
        kept(base, st, l),
    ensures
        kept(base, st.close_reasoning(), r),
{
    let s = st.state;
    match s.reasoning_item {
        None => l,
        Some(item) => {
            lemma_names();
            let out = st.close_reasoning();
            let f = out.frames[st.frames.len() as int];
            lemma_remark(base, st, f, l);
            assert(open_items(out.state) =~= open_items(s).remove(item.output_index as int));
            let j = crate::wire::responses::reasoning_json(item.id, s.reasoning_text);
            let r = lemma_close(base, st.push(f), out.state, item.output_index, j, l);
            assert(ResponsesStep { state: out.state, ..st.push(f) }.push(
                crate::wire::responses::done_frame(item.output_index, j),
            ) == out);
            r
        },
    }
}

proof fn lemma_close_message(base: Seq<FrameView>, st: ResponsesStep, l: Ledger) -> (r: Ledger)
    requires
        kept(base, st, l),
    ensures
        kept(base, st.close_message(), r),
{
    let s = st.state;
    match s.message_item {
        None => l,
        Some(item) => {
            lemma_names();
            let out = st.close_message();
            let f1 = out.frames[st.frames.len() as int];
            let f2 = out.frames[st.frames.len() as int + 1];
            lemma_remark(base, st, f1, l);
            lemma_remark(base, st.push(f1), f2, l);
            assert(open_items(out.state) =~= open_items(s).remove(item.output_index as int));
            let j = crate::wire::responses::message_json(item.id, s.message_text);
            let st2 = st.push(f1).push(f2);
            let r = lemma_close(base, st2, out.state, item.output_index, j, l);
            assert(ResponsesStep { state: out.state, ..st2 }.push(
                crate::wire::responses::done_frame(item.output_index, j),
            ) == out);
            r
        },
    }
}

/// Closing the first `n` of the open function calls.
proof fn lemma_finish_tools(
    base: Seq<FrameView>,
    st: ResponsesStep,
    ts: Seq<(u32, ToolItemView)>,
    n: int,
    live: Set<int>,
    l: Ledger,
) -> (r: Ledger)
    requires
        0 <= n <= ts.len(),
        crate::wire::ledger::tallies(
            item_marks(),
            base + st.frames,
            st.state.next_output_index as int,
            live,
            l,
        ),
        as_members(st.state.final_items) == done_items(base + st.frames),
        forall|i: int| 0 <= i < ts.len() ==> live.contains((#[trigger] ts[i]).1.output_index as int),
        forall|i: int, j: int|
            0 <= i < j < ts.len() ==> (#[trigger] ts[i]).1.output_index != (
            #[trigger] ts[j]).1.output_index,
    ensures
        ({
            let out = st.finish_tools(ts.take(n));
            &&& out.state == (ResponsesView { final_items: out.state.final_items, ..st.state })
            &&& as_members(out.state.final_items) == done_items(base + out.frames)
            &&& crate::wire::ledger::tallies(
                item_marks(),
                base + out.frames,
                st.state.next_output_index as int,
                live.filter(
                    |k: int| forall|i: int| 0 <= i < n ==> (#[trigger] ts[i]).1.output_index != k,
                ),
                r,
            )
        }),
    decreases n,
{
    if n == 0 {
        assert(live.filter(
            |k: int| forall|i: int| 0 <= i < n ==> (#[trigger] ts[i]).1.output_index != k,
        ) =~= live);
        l
    } else {
        let l1 = lemma_finish_tools(base, st, ts, n - 1, live, l);
        lemma_names();
        assert(ts.take(n).drop_last() =~= ts.take(n - 1));
        assert(ts.take(n).last() == ts[n - 1]);
        let before = st.finish_tools(ts.take(n - 1));
        let t = ts[n - 1].1;
        let out = before.finish_tool(t);
        let j = crate::wire::responses::call_json(t.id, t.call_id, t.name, t.args, "completed"@);
        let f1 = out.frames[before.frames.len() as int];
        let f2 = crate::wire::responses::done_frame(t.output_index, j);
        let a = live.filter(
            |k: int| forall|i: int| 0 <= i < n - 1 ==> (#[trigger] ts[i]).1.output_index != k,
        );
        let b = live.filter(
            |k: int| forall|i: int| 0 <= i < n ==> (#[trigger] ts[i]).1.output_index != k,
        );
        let f0 = base + before.frames;
        assert(base + out.frames =~= f0.push(f1).push(f2));
        lemma_done_push(f0, f1);
        lemma_done_push(f0.push(f1), f2);
        assert(as_members(out.state.final_items) =~= as_members(before.state.final_items).push(
            Some(j),
        ));
        let m = st.state.next_output_index as int;
        crate::wire::ledger::lemma_aside(item_marks(), f0, f1, m, a, l1);
        assert(a.contains(t.output_index as int));
        assert(b =~= a.remove(t.output_index as int)) by {
            assert forall|k: int|
                b.contains(k) <==> #[trigger] a.remove(t.output_index as int).contains(k) by {
                if b.contains(k) {
                    assert(ts[n - 1].1.output_index != k);
                }
            }
        }
        crate::wire::ledger::lemma_close(
            item_marks(),
            f0.push(f1),
            f2,
            m,
            a,
            t.output_index as int,
            l1,
        )
    }
}

proof fn lemma_close_open_tools(base: Seq<FrameView>, st: ResponsesStep, l: Ledger) -> (r: Ledger)
    requires
        kept(base, st, l),
        st.state.reasoning_item is None,
        st.state.message_item is None,
    ensures
        kept(base, st.close_open_tools(), r),
{
    let ts = st.state.tools;
    let live = open_items(st.state);
    let e = ResponsesStep { state: ResponsesView { tools: Seq::empty(), ..st.state }, ..st };
    assert forall|i: int| 0 <= i < ts.len() implies live.contains(
        (#[trigger] ts[i]).1.output_index as int,
    ) by {
        crate::wire::slots::lemma_slot_at(ts, i);
        assert(has_call(ts, ts[i].1.output_index as int));
    }
    assert forall|i: int, j: int| 0 <= i < j < ts.len() implies (#[trigger] ts[i]).1.output_index
        != (#[trigger] ts[j]).1.output_index by {
        crate::wire::slots::lemma_slot_at(ts, i);
        crate::wire::slots::lemma_slot_at(ts, j);
    }
    let r = lemma_finish_tools(base, e, ts, ts.len() as int, live, l);
    assert(ts.take(ts.len() as int) =~= ts);
    let out = st.close_open_tools();
    let n = ts.len();
    let rest = live.filter(
        |k: int| forall|i: int| 0 <= i < n ==> (#[trigger] ts[i]).1.output_index != k,
    );
    assert forall|k: int| !(#[trigger] rest.contains(k)) by {
        if live.contains(k) {
            let slot = choose|slot: u32|
                (#[trigger] crate::wire::slots::slot_get(ts, slot)) matches Some(t)
                    && t.output_index == k;
            let i = crate::wire::slots::lemma_slot_found(ts, slot);
            assert(ts[i].1.output_index == k);
        }
    }
    assert(rest =~= Set::empty());
    assert(open_items(out.state) =~= Set::empty());
    r
}

proof fn lemma_step(base: Seq<FrameView>, s: ResponsesView, ev: EventView, id: Seq<char>, l: Ledger) -> (r:
    Ledger)
    requires
        kept(base, ResponsesStep { state: s, frames: Seq::empty() }, l),
        !crate::wire::responses_laws::restarts_open_call(s, ev),
    ensures
        kept(base, s.raw_step(ev, id), r),
{
    lemma_names();
    let st = ResponsesStep { state: s, frames: Seq::empty() };
    let out = s.raw_step(ev, id);
    match ev {
        EventView::Created { response_id, model } => {
            let a = ResponsesStep { state: out.state, ..st };
            assert(open_items(a.state) =~= open_items(s));
            lemma_remark(base, a, out.frames.last(), l);
            assert(a.push(out.frames.last()) == out);
            l
        },
        EventView::ReasoningDelta { text } => {
            let l1 = lemma_open_reasoning(base, st, id, l);
            let o = st.open_reasoning(id);
            let a = ResponsesStep { state: out.state, ..o };
            assert(open_items(a.state) =~= open_items(o.state));
            let n = o.state.reasoning_item->0.output_index;
            assert(open_items(a.state).contains(n as int));
            lemma_piece(base, a, n, out.frames.last(), l1);
            assert(a.push(out.frames.last()) == out);
            l1
        },
        EventView::TextDelta { text } => {
            let l1 = lemma_close_reasoning(base, st, l);
            let l2 = lemma_open_message(base, st.close_reasoning(), id, l1);
            let o = st.close_reasoning().open_message(id);
            let a = ResponsesStep { state: out.state, ..o };
            assert(open_items(a.state) =~= open_items(o.state));
            let n = o.state.message_item->0.output_index;
            assert(open_items(a.state).contains(n as int));
            lemma_piece(base, a, n, out.frames.last(), l2);
            assert(a.push(out.frames.last()) == out);
            l2
        },
        EventView::ToolCallStart { index, call_id, name } => {
            let l1 = lemma_close_reasoning(base, st, l);
            let l2 = lemma_close_message(base, st.close_reasoning(), l1);
            let c = st.close_reasoning().close_message();
            let n = c.state.next_output_index;
            let cid = crate::wire::responses::call_id_or(call_id, id);
            let t = ToolItemView { id, output_index: n, call_id: cid, name, args: Seq::empty() };
            assert(c.state.tools == s.tools);
            crate::wire::slots::lemma_every_slot(s.tools, index, t);
            assert forall|k: int| has_call(out.state.tools, k) <==> has_call(s.tools, k) || k
                == n by {
                if has_call(s.tools, k) {
                    let slot = choose|slot: u32|
                        (#[trigger] crate::wire::slots::slot_get(s.tools, slot)) matches Some(t)
                            && t.output_index == k;
                    assert(crate::wire::slots::slot_get(out.state.tools, slot)
                        == crate::wire::slots::slot_get(s.tools, slot));
                }
                if k == n {
                    assert(crate::wire::slots::slot_get(out.state.tools, index) == Some(t));
                }
            }
            assert(open_items(out.state) =~= open_items(c.state).insert(n as int));
            lemma_open(
                base,
                c,
                out.state,
                crate::wire::responses::call_json(id, cid, name, Seq::empty(), "in_progress"@),
                l2,
            )
        },
        EventView::ToolCallArgsDelta { index, delta } => {
            match crate::wire::slots::slot_get(s.tools, index) {
                None => l,
                Some(t) => {
                    let u = ToolItemView { args: t.args + delta, ..t };
                    crate::wire::slots::lemma_every_slot(s.tools, index, u);
                    assert forall|k: int| has_call(out.state.tools, k) <==> has_call(s.tools, k) by {
                        if has_call(s.tools, k) {
                            let slot = choose|slot: u32|
                                (#[trigger] crate::wire::slots::slot_get(s.tools, slot)) matches Some(t)
                                    && t.output_index == k;
                            assert(crate::wire::slots::slot_get(out.state.tools, slot) matches Some(x)
                                && x.output_index == k);
                        }
                    }
                    let a = ResponsesStep { state: out.state, ..st };
                    assert(open_items(a.state) =~= open_items(s));
                    assert(has_call(s.tools, t.output_index as int));
                    assert(open_items(s).contains(t.output_index as int));
                    assert(apart(a.state));
                    lemma_piece(base, a, t.output_index, out.frames.last(), l);
                    assert(a.push(out.frames.last()) == out);
                    l
                },
            }
        },
        EventView::ToolCallDone { index } => {
            match crate::wire::slots::slot_get(s.tools, index) {
                None => l,
                Some(t) => {
                    crate::wire::slots::lemma_every_slot(s.tools, index, t);
                    assert forall|k: int| has_call(out.state.tools, k) <==> has_call(s.tools, k)
                        && k != t.output_index by {
                        if has_call(s.tools, k) && k != t.output_index {
                            let slot = choose|slot: u32|
                                (#[trigger] crate::wire::slots::slot_get(s.tools, slot)) matches Some(t)
                                    && t.output_index == k;
                            assert(crate::wire::slots::slot_get(out.state.tools, slot)
                                == crate::wire::slots::slot_get(s.tools, slot));
                        }
                    }
                    assert(has_call(s.tools, t.output_index as int));
                    assert(open_items(out.state) =~= open_items(s).remove(t.output_index as int));
                    let j = crate::wire::responses::call_json(
                        t.id,
                        t.call_id,
                        t.name,
                        t.args,
                        "completed"@,
                    );
                    let f = out.frames[0];
                    lemma_remark(base, st, f, l);
                    let r = lemma_close(base, st.push(f), out.state, t.output_index, j, l);
                    assert(ResponsesStep { state: out.state, ..st.push(f) }.push(
                        crate::wire::responses::done_frame(t.output_index, j),
                    ) == out);
                    r
                },
            }
        },
        EventView::Usage { .. } => {
            assert(open_items(out.state) =~= open_items(s));
            l
        },
        EventView::Completed => {
            let l1 = lemma_close_reasoning(base, st, l);
            let l2 = lemma_close_message(base, st.close_reasoning(), l1);
            let c = st.close_reasoning().close_message();
            let l3 = lemma_close_open_tools(base, c, l2);
            let d = c.close_open_tools();
            lemma_remark(base, d, out.frames.last(), l3);
            assert(d.push(out.frames.last()) == out);
            l3
        },
        EventView::Error { .. } => {
            lemma_remark(base, st, out.frames.last(), l);
            assert(st.push(out.frames.last()) == out);
            l
        },
    }
}

proof fn lemma_done_alike(a: Seq<FrameView>, b: Seq<FrameView>)
    requires
        a.len() == b.len(),
        forall|p: int|
            0 <= p < a.len() ==> (#[trigger] b[p]).event == a[p].event && b[p].data.get("item"@)
                == a[p].data.get("item"@),
    ensures
        done_items(a) == done_items(b),
    decreases a.len(),
{
    if a.len() > 0 {
        let x = a.drop_last();
        let y = b.drop_last();
        assert forall|p: int| 0 <= p < x.len() implies (#[trigger] y[p]).event == x[p].event
            && y[p].data.get("item"@) == x[p].data.get("item"@) by {
            assert(y[p] == b[p] && x[p] == a[p]);
        }
        lemma_done_alike(x, y);
        assert(b.last() == b[b.len() - 1]);
        assert(a.last() == a[a.len() - 1]);
    }
}

proof fn lemma_run(evs: Seq<EventView>, ids: Seq<Seq<char>>) -> (l: Ledger)
    requires
        crate::wire::responses_laws::no_restarts(ResponsesView::initial(), evs, ids),
    ensures
        kept(
            crate::wire::responses_laws::run_frames(ResponsesView::initial(), evs, ids),
            ResponsesStep {
                state: crate::wire::responses_laws::run(ResponsesView::initial(), evs, ids),
                frames: Seq::empty(),
            },
            l,
        ),
    decreases evs.len(),
{
    let s = ResponsesView::initial();
    let none = Seq::<FrameView>::empty();
    if evs.len() == 0 {
        let l = Ledger { opens: Seq::empty(), closes: Map::empty() };
        crate::wire::ledger::lemma_nothing_yet(item_marks(), l);
        assert(none + none =~= none);
        assert(open_items(s) =~= Set::empty());
        assert(as_members(Seq::empty()) =~= Seq::empty());
        l
    } else {
        let init = evs.drop_last();
        let n = evs.len() - 1;
        assert(init =~= evs.take(n));
        assert forall|i: int|
            0 <= i < init.len() implies !crate::wire::responses_laws::restarts_open_call(
            crate::wire::responses_laws::run(s, init.take(i), ids),
            #[trigger] init[i],
        ) by {
            assert(init.take(i) =~= evs.take(i));
            assert(init[i] == evs[i]);
        }
        let l = lemma_run(init, ids);
        let base = crate::wire::responses_laws::run_frames(s, init, ids);
        let mid = crate::wire::responses_laws::run(s, init, ids);
        let ev = evs.last();
        assert(ev == evs[n]);
        let id = ids[n];
        let r = lemma_step(base, mid, ev, id, l);
        lemma_names();
        let raw = mid.raw_step(ev, id);
        let all = crate::wire::responses_laws::run_frames(s, evs, ids);
        let end = crate::wire::responses_laws::run(s, evs, ids);
        let a = base + raw.frames;
        assert(all + none =~= all);
        assert forall|p: int| 0 <= p < a.len() implies (#[trigger] all[p]).event == a[p].event
            && all[p].data.get("output_index"@) == a[p].data.get("output_index"@)
            && all[p].data.get("type"@) == a[p].data.get("type"@) && all[p].data.get("item"@)
            == a[p].data.get("item"@) by {
            if p < base.len() {
                assert(all[p] == a[p]);
            } else {
                let q = p - base.len();
                assert(all[p] == mid.frames(ev, id)[q]);
                assert(a[p] == raw.frames[q]);
            }
        }
        crate::wire::ledger::lemma_alike(
            item_marks(),
            a,
            all,
            mid.raw_step(ev, id).state.next_output_index as int,
            open_items(raw.state),
            r,
        );
        lemma_done_alike(a, all);
        assert(open_items(end) =~= open_items(raw.state));
        r
    }
}

/// In a completed stream the output items are opened at the places zero, one, two and so
/// on, in that order. Each is closed exactly once, after it was opened, nothing else is
/// closed, and every piece of an item comes while the item is open. The last frame
/// completes the response, whose output is the items that the frames say are done, in
/// their order, so nothing is left open, lost or repeated. The type in a frame's data is
/// the frame's event name. Streams that start a call under the index of a call that is
/// still open are left out, since the older call's item is then never closed.
pub proof fn items_open_in_order_and_close_once(evs: Seq<EventView>, ids: Seq<Seq<char>>) -> (l:
    Ledger)
    requires
        evs.len() > 0,
        evs.last() is Completed,
        crate::wire::responses_laws::no_restarts(ResponsesView::initial(), evs, ids),
    ensures
        ({
            let end = crate::wire::responses_laws::run(ResponsesView::initial(), evs, ids);
            let frames = crate::wire::responses_laws::run_frames(
                ResponsesView::initial(),
                evs,
                ids,
            );
            &&& crate::wire::ledger::tallies(
                item_marks(),
                frames,
                end.next_output_index as int,
                Set::empty(),
                l,
            )
            &&& frames.len() > 0
            &&& frames.last().event == "response.completed"@
            &&& frames.last().data.get2("response"@, "output"@) == Some(Json::Arr(end.final_items))
            &&& as_members(end.final_items) == done_items(frames)
        }),
{
    let l = lemma_run(evs, ids);
    let s = ResponsesView::initial();
    let mid = crate::wire::responses_laws::run(s, evs.drop_last(), ids);
    let id = ids[evs.len() - 1];
    crate::wire::responses_laws::completion_closes_everything(mid, id);
    crate::wire::responses_laws::completed_frame_carries_the_response(mid, id);
    let end = crate::wire::responses_laws::run(s, evs, ids);
    let frames = crate::wire::responses_laws::run_frames(s, evs, ids);
    assert(frames + Seq::<FrameView>::empty() =~= frames);
    assert(frames.last() == mid.frames(evs.last(), id).last());
    assert(open_items(end) =~= Set::empty()) by {
        assert forall|k: int| !has_call(end.tools, k) by {
            assert forall|slot: u32| crate::wire::slots::slot_get(end.tools, slot) is None by {}
        }
    }
    reveal_strlit("output");
    reveal_strlit("usage");
    assert("output"@.len() == 6);
    assert("usage"@.len() == 5);
    l
}

} // verus!
