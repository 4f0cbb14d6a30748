//! What holds of every stream of Responses frames.

use vstd::prelude::*;

use crate::canonical::EventView;
use crate::json::Json;
use crate::wire::responses::{ResponsesEmitter, ResponsesStep, ResponsesView, ToolItemView};
use crate::wire::{CanonicalEmitter, FrameView};

verus! {

/// The state after a list of events, of which the `i`th may open an item named `ids[i]`.
pub open spec fn run(s: ResponsesView, evs: Seq<EventView>, ids: Seq<Seq<char>>) -> ResponsesView
    decreases evs.len(),
{
    if evs.len() == 0 {
        s
    } else {
        run(s, evs.drop_last(), ids).after(evs.last(), ids[evs.len() - 1])
    }
}

/// The frames of a list of events.
pub open spec fn run_frames(s: ResponsesView, evs: Seq<EventView>, ids: Seq<Seq<char>>) -> Seq<
    FrameView,
>
    decreases evs.len(),
{
    if evs.len() == 0 {
        Seq::empty()
    } else {
        run_frames(s, evs.drop_last(), ids) + run(s, evs.drop_last(), ids).frames(
            evs.last(),
            ids[evs.len() - 1],
        )
    }
}

/// The frames of a stream carry consecutive sequence numbers, from the emitter's first
/// number on, whatever the events are.
pub proof fn frames_are_numbered_in_order(
    s: ResponsesView,
    evs: Seq<EventView>,
    ids: Seq<Seq<char>>,
)
    ensures
        run(s, evs, ids).seq == s.seq + run_frames(s, evs, ids).len(),
        forall|i: int|
            0 <= i < run_frames(s, evs, ids).len() ==> (#[trigger] run_frames(
                s,
                evs,
                ids,
            )[i]).data.get("sequence_number"@) == Some(Json::num((s.seq + i) as u64)),
    decreases evs.len(),
{
    if evs.len() > 0 {
        let init = evs.drop_last();
        frames_are_numbered_in_order(s, init, ids);
        let mid = run(s, init, ids);
        let id = ids[evs.len() - 1];
        let before = run_frames(s, init, ids);
        let all = run_frames(s, evs, ids);
        let last = mid.frames(evs.last(), id);
        assert forall|i: int| 0 <= i < all.len() implies (#[trigger] all[i]).data.get(
            "sequence_number"@,
        ) == Some(Json::num((s.seq + i) as u64)) by {
            if i < before.len() {
                assert(all[i] == before[i]);
            } else {
                assert(all[i] == last[i - before.len()]);
                assert(mid.seq + (i - before.len()) == s.seq + i);
            }
        }
    }
}

/// Once an answer is complete nothing is left open.
pub proof fn completion_closes_everything(s: ResponsesView, id: Seq<char>)
    ensures
        ({
            let t = s.after(EventView::Completed, id);
            t.reasoning_item is None && t.message_item is None && t.tools.len() == 0
        }),
{
    let c = ResponsesStep { state: s, frames: Seq::empty() }.close_reasoning().close_message();
    crate::wire::responses::lemma_tool_frame_count(
        ResponsesStep { state: ResponsesView { tools: Seq::empty(), ..c.state }, ..c },
        c.state.tools,
    );
}

/// The last frame of a completed answer carries the very object that the emitter
/// gives as its final response.
pub proof fn completed_frame_carries_the_response(s: ResponsesView, id: Seq<char>)
    ensures
        ({
            let f = s.frames(EventView::Completed, id);
            &&& f.len() > 0
            &&& f.last().event == "response.completed"@
            &&& f.last().data.get("response"@) == Some(
                s.after(EventView::Completed, id).completed_response(),
            )
        }),
{
    reveal_strlit("response");
    reveal_strlit("sequence_number");
    assert("response"@.len() == 8);
    assert("sequence_number"@.len() == 15);
}

/// The event starts a call whose index belongs to a call that is still open.
pub open spec fn restarts_open_call(s: ResponsesView, ev: EventView) -> bool {
    ev matches EventView::ToolCallStart { index, .. } && crate::wire::slots::slot_get(
        s.tools,
        index,
    ) is Some
}

/// Whether no event of the list starts a call whose index belongs to a call that is
/// still open.
pub open spec fn no_restarts(s: ResponsesView, evs: Seq<EventView>, ids: Seq<Seq<char>>) -> bool {
    forall|i: int|
        0 <= i < evs.len() ==> !restarts_open_call(run(s, evs.take(i), ids), #[trigger] evs[i])
}

pub proof fn lemma_tools_stay_ascending(s: ResponsesView, ev: EventView, id: Seq<char>)
    requires
        crate::wire::slots::slots_ascending(s.tools),
    ensures
        crate::wire::slots::slots_ascending(s.after(ev, id).tools),
{
    match ev {
        EventView::ToolCallStart { index, call_id, name } => {
            let c = ResponsesStep {
                state: s,
                frames: Seq::empty(),
            }.close_reasoning().close_message();
            let t = ToolItemView {
                id,
                output_index: c.state.next_output_index,
                call_id: crate::wire::responses::call_id_or(call_id, id),
                name,
                args: Seq::empty(),
            };
            crate::wire::slots::slots_are_a_map(s.tools, index, t, index);
        },
        EventView::ToolCallArgsDelta { index, delta } => {
            match crate::wire::slots::slot_get(s.tools, index) {
                None => {},
                Some(t) => {
                    crate::wire::slots::slots_are_a_map(
                        s.tools,
                        index,
                        ToolItemView { args: t.args + delta, ..t },
                        index,
                    );
                },
            }
        },
        EventView::ToolCallDone { index } => {
            match crate::wire::slots::slot_get(s.tools, index) {
                None => {},
                Some(t) => {
                    crate::wire::slots::slots_are_a_map(s.tools, index, t, index);
                },
            }
        },
        EventView::Completed => {
            completion_closes_everything(s, id);
        },
        _ => {},
    }
}

proof fn lemma_open_calls_were_started(evs: Seq<EventView>, ids: Seq<Seq<char>>, index: u32)
    ensures
        crate::wire::slots::slots_ascending(run(ResponsesView::initial(), evs, ids).tools),
        crate::wire::slots::slot_get(run(ResponsesView::initial(), evs, ids).tools, index) is Some
            ==> exists|i: int| 0 <= i < evs.len() && crate::wire::chat::starts(#[trigger] evs[i], index),
    decreases evs.len(),
{
    let s = ResponsesView::initial();
    if evs.len() > 0 {
        let init = evs.drop_last();
        let n = evs.len() - 1;
        let ev = evs.last();
        let id = ids[n];
        let mid = run(s, init, ids);
        lemma_open_calls_were_started(init, ids, index);
        lemma_tools_stay_ascending(mid, ev, id);
        let end = run(s, evs, ids);
        if crate::wire::slots::slot_get(end.tools, index) is Some {
            assert(crate::wire::slots::slot_get(mid.tools, index) is Some
                || crate::wire::chat::starts(ev, index)) by {
                lemma_step_adds_only_its_call(mid, ev, id, index);
            }
            if crate::wire::slots::slot_get(mid.tools, index) is Some {
                let i = choose|i: int|
                    0 <= i < init.len() && crate::wire::chat::starts(#[trigger] init[i], index);
                assert(crate::wire::chat::starts(evs[i], index));
            } else {
                assert(crate::wire::chat::starts(evs[n], index));
            }
        }
    }
}

proof fn lemma_step_adds_only_its_call(s: ResponsesView, ev: EventView, id: Seq<char>, index: u32)
    requires
        crate::wire::slots::slots_ascending(s.tools),
        crate::wire::slots::slot_get(s.after(ev, id).tools, index) is Some,
    ensures
        crate::wire::slots::slot_get(s.tools, index) is Some || crate::wire::chat::starts(
            ev,
            index,
        ),
{
    match ev {
        EventView::ToolCallStart { index: k, call_id, name } => {
            let c = ResponsesStep {
                state: s,
                frames: Seq::empty(),
            }.close_reasoning().close_message();
            let t = ToolItemView {
                id,
                output_index: c.state.next_output_index,
                call_id: crate::wire::responses::call_id_or(call_id, id),
                name,
                args: Seq::empty(),
            };
            crate::wire::slots::slots_are_a_map(s.tools, k, t, index);
        },
        EventView::ToolCallArgsDelta { index: k, delta } => {
            match crate::wire::slots::slot_get(s.tools, k) {
                None => {},
                Some(t) => {
                    crate::wire::slots::slots_are_a_map(
                        s.tools,
                        k,
                        ToolItemView { args: t.args + delta, ..t },
                        index,
                    );
                },
            }
        },
        EventView::ToolCallDone { index: k } => {
            match crate::wire::slots::slot_get(s.tools, k) {
                None => {},
                Some(t) => {
                    crate::wire::slots::slots_are_a_map(s.tools, k, t, index);
                },
            }
        },
        EventView::Completed => {
            completion_closes_everything(s, id);
        },
        _ => {},
    }
}

/// A list of events that starts no call twice restarts no open call.
pub proof fn fresh_calls_restart_nothing(evs: Seq<EventView>, ids: Seq<Seq<char>>)
    requires
        crate::wire::chat::distinct_starts(evs),
    ensures
        no_restarts(ResponsesView::initial(), evs, ids),
{
    let s = ResponsesView::initial();
    assert forall|k: int| 0 <= k < evs.len() implies !restarts_open_call(
        run(s, evs.take(k), ids),
        #[trigger] evs[k],
    ) by {
        if let EventView::ToolCallStart { index, .. } = evs[k] {
            lemma_open_calls_were_started(evs.take(k), ids, index);
            if restarts_open_call(run(s, evs.take(k), ids), evs[k]) {
                let i = choose|i: int|
                    0 <= i < k && crate::wire::chat::starts(#[trigger] evs.take(k)[i], index);
                assert(evs.take(k)[i] == evs[i]);
                assert(!crate::wire::chat::same_start(evs[i], evs[k]));
            }
        }
    }
}

/// Nothing of what was said or reasoned is lost or moved: the text of the message is that
/// of all text deltas, in their order, and so is the reasoning.
pub proof fn texts_are_gathered_whole(evs: Seq<EventView>, ids: Seq<Seq<char>>)
    ensures
        run(ResponsesView::initial(), evs, ids).message_text == crate::canonical::said(evs),
        run(ResponsesView::initial(), evs, ids).reasoning_text == crate::canonical::reasoned(evs),
    decreases evs.len(),
{
    let s = ResponsesView::initial();
    if evs.len() > 0 {
        let init = evs.drop_last();
        texts_are_gathered_whole(init, ids);
        let mid = run(s, init, ids);
        let a = crate::canonical::said(init);
        let b = crate::canonical::reasoned(init);
        assert(a + Seq::<char>::empty() =~= a);
        assert(b + Seq::<char>::empty() =~= b);
        if evs.last() is Completed {
            let c = ResponsesStep {
                state: mid,
                frames: Seq::empty(),
            }.close_reasoning().close_message();
            crate::wire::responses::lemma_tool_frame_count(
                ResponsesStep { state: ResponsesView { tools: Seq::empty(), ..c.state }, ..c },
                c.state.tools,
            );
        }
    }
}

/// Whether there is an identifier for every event, and a fresh one for every event that
/// opens an item.
#[verifier::opaque]
pub open spec fn named(s: ResponsesView, evs: Seq<EventView>, ids: Seq<Seq<char>>) -> bool {
    &&& ids.len() == evs.len()
    &&& forall|i: int|
        0 <= i < evs.len() && crate::wire::responses::opens_item(run(s, evs.take(i), ids), evs[i])
            ==> crate::wire::is_id(crate::wire::responses::item_prefix(evs[i]), #[trigger] ids[i])
}

/// What an emitter does on a list of events is a run of its model, under identifiers that
/// are fresh where an item is opened.
pub proof fn emitters_follow_the_model(
    evs: Seq<EventView>,
    states: Seq<ResponsesEmitter>,
    parts: Seq<Seq<FrameView>>,
) -> (ids: Seq<Seq<char>>)
    requires
        crate::wire::passes(evs, states, parts),
    ensures
        named(states[0]@, evs, ids),
        states.last()@ == run(states[0]@, evs, ids),
        crate::wire::in_a_row(parts) == run_frames(states[0]@, evs, ids),
        forall|i: int|
            0 <= i <= evs.len() ==> (#[trigger] states[i])@ == run(states[0]@, evs.take(i), ids),
    decreases evs.len(),
{
    reveal(named);
    assert(evs.take(evs.len() as int) =~= evs);
    if evs.len() == 0 {
        Seq::empty()
    } else {
        let n = evs.len() - 1;
        let init = evs.drop_last();
        let states2 = states.drop_last();
        let parts2 = parts.drop_last();
        assert forall|i: int| 0 <= i < init.len() implies (#[trigger] states2[i]).emits(
            init[i],
            states2[i + 1],
            parts2[i],
        ) by {
            assert(states[i].emits(evs[i], states[i + 1], parts[i]));
        }
        let ids2 = emitters_follow_the_model(init, states2, parts2);
        assert(states[n].emits(evs[n], states[n + 1], parts[n]));
        let s = states[n]@;
        let id = choose|id: Seq<char>|
            (crate::wire::responses::opens_item(s, evs[n]) ==> crate::wire::is_id(
                crate::wire::responses::item_prefix(evs[n]),
                id,
            )) && states[n + 1]@ == #[trigger] s.after(evs[n], id) && parts[n] == s.frames(
                evs[n],
                id,
            );
        let ids = ids2.push(id);
        lemma_later_ids_do_not_matter(states[0]@, init, ids2, ids);
        assert(evs.take(n) =~= init);
        assert forall|i: int|
            0 <= i < evs.len() && crate::wire::responses::opens_item(
                run(states[0]@, evs.take(i), ids),
                evs[i],
            ) implies crate::wire::is_id(
            crate::wire::responses::item_prefix(evs[i]),
            #[trigger] ids[i],
        ) by {
            if i < n {
                assert(evs.take(i) =~= init.take(i));
                lemma_later_ids_do_not_matter(states[0]@, init.take(i), ids2, ids);
                assert(ids[i] == ids2[i]);
            }
        }
        assert forall|i: int| 0 <= i <= evs.len() implies (#[trigger] states[i])@ == run(
            states[0]@,
            evs.take(i),
            ids,
        ) by {
            if i <= n {
                assert(states2[i] == states[i]);
                assert(init.take(i) =~= evs.take(i));
                lemma_later_ids_do_not_matter(states[0]@, init.take(i), ids2, ids);
            }
        }
        ids
    }
}

pub proof fn lemma_later_ids_do_not_matter(
    s: ResponsesView,
    evs: Seq<EventView>,
    a: Seq<Seq<char>>,
    b: Seq<Seq<char>>,
)
    requires
        evs.len() <= a.len(),
        evs.len() <= b.len(),
        forall|i: int| 0 <= i < evs.len() ==> #[trigger] a[i] == b[i],
    ensures
        run(s, evs, a) == run(s, evs, b),
        run_frames(s, evs, a) == run_frames(s, evs, b),
    decreases evs.len(),
{
    if evs.len() > 0 {
        lemma_later_ids_do_not_matter(s, evs.drop_last(), a, b);
        assert(a[evs.len() - 1] == b[evs.len() - 1]);
    }
}

proof fn lemma_step_room(s: ResponsesView, ev: EventView, id: Seq<char>)
    ensures
        s.after(ev, id).next_output_index <= s.next_output_index + 1,
        s.after(ev, id).seq + 2 * s.after(ev, id).tools.len() <= s.seq + 2 * s.tools.len() + 8,
{
    match ev {
        EventView::ToolCallStart { index, call_id, name } => {
            let c = ResponsesStep {
                state: s,
                frames: Seq::empty(),
            }.close_reasoning().close_message();
            let t = ToolItemView {
                id,
                output_index: c.state.next_output_index,
                call_id: crate::wire::responses::call_id_or(call_id, id),
                name,
                args: Seq::empty(),
            };
            crate::wire::slots::lemma_slot_counts(s.tools, index, t);
        },
        EventView::ToolCallArgsDelta { index, delta } => {
            match crate::wire::slots::slot_get(s.tools, index) {
                None => {},
                Some(t) => {
                    crate::wire::slots::lemma_slot_counts(
                        s.tools,
                        index,
                        ToolItemView { args: t.args + delta, ..t },
                    );
                },
            }
        },
        EventView::ToolCallDone { index } => {
            match crate::wire::slots::slot_get(s.tools, index) {
                None => {},
                Some(t) => {
                    crate::wire::slots::lemma_slot_counts(s.tools, index, t);
                },
            }
        },
        EventView::Completed => {
            let c = ResponsesStep {
                state: s,
                frames: Seq::empty(),
            }.close_reasoning().close_message();
            crate::wire::responses::lemma_tool_frame_count(
                ResponsesStep { state: ResponsesView { tools: Seq::empty(), ..c.state }, ..c },
                c.state.tools,
            );
        },
        _ => {},
    }
}

proof fn lemma_counters(evs: Seq<EventView>, ids: Seq<Seq<char>>)
    ensures
        run(ResponsesView::initial(), evs, ids).next_output_index <= evs.len(),
        run(ResponsesView::initial(), evs, ids).seq + 2 * run(
            ResponsesView::initial(),
            evs,
            ids,
        ).tools.len() <= 8 * evs.len(),
    decreases evs.len(),
{
    if evs.len() > 0 {
        lemma_counters(evs.drop_last(), ids);
        lemma_step_room(
            run(ResponsesView::initial(), evs.drop_last(), ids),
            evs.last(),
            ids[evs.len() - 1],
        );
    }
}

/// An emitter's counters do not come to their end before four thousand million events.
pub proof fn room_lasts(evs: Seq<EventView>, ids: Seq<Seq<char>>)
    requires
        evs.len() < u32::MAX,
    ensures
        run(ResponsesView::initial(), evs, ids).room(),
{
    lemma_counters(evs, ids);
}

} // verus!
