//! What holds of every stream of Anthropic Messages frames.

use vstd::prelude::*;

use crate::canonical::EventView;
use crate::wire::anthropic::{AnthropicEmitter, AnthropicStep, AnthropicView, ToolBlockView};
use crate::wire::{CanonicalEmitter, FrameView};

verus! {

/// The state after a list of events, and their frames.
pub open spec fn run(s: AnthropicView, evs: Seq<EventView>) -> AnthropicStep
    decreases evs.len(),
{
    if evs.len() == 0 {
        AnthropicStep { state: s, frames: Seq::empty() }
    } else {
        let before = run(s, evs.drop_last());
        let last = before.state.step(evs.last());
        AnthropicStep { state: last.state, frames: before.frames + last.frames }
    }
}

/// The event starts a call whose index belongs to a call that is still open.
pub open spec fn restarts_open_call(s: AnthropicView, ev: EventView) -> bool {
    ev matches EventView::ToolCallStart { index, .. } && crate::wire::slots::slot_get(
        s.tools,
        index,
    ) is Some
}

/// Whether no event of the list starts a call whose index belongs to a call that is
/// still open.
pub open spec fn no_restarts(s: AnthropicView, evs: Seq<EventView>) -> bool {
    forall|i: int|
        0 <= i < evs.len() ==> !restarts_open_call(run(s, evs.take(i)).state, #[trigger] evs[i])
}

/// Closing tool-use blocks changes nothing of the state but the blocks that are done.
proof fn lemma_finish_tools_state(st: AnthropicStep, ts: Seq<(u32, ToolBlockView)>)
    ensures
        st.finish_tools(ts).state == (AnthropicView {
            final_blocks: st.finish_tools(ts).state.final_blocks,
            ..st.state
        }),
    decreases ts.len(),
{
    if ts.len() > 0 {
        lemma_finish_tools_state(st, ts.drop_last());
    }
}

/// Once an answer is complete nothing is left open.
pub proof fn completion_closes_everything(s: AnthropicView)
    ensures
        ({
            let t = s.step(EventView::Completed).state;
            t.thinking_index is None && t.text_index is None && t.tools.len() == 0
        }),
{
    let c = AnthropicStep { state: s, frames: Seq::empty() }.close_thinking().close_text();
    lemma_finish_tools_state(
        AnthropicStep { state: AnthropicView { tools: Seq::empty(), ..c.state }, ..c },
        c.state.tools,
    );
}

/// A completed answer ends with its stop reason and its usage, and then with the end of
/// the message; the stop reason and the usage are those of the final message.
pub proof fn completion_ends_the_message(s: AnthropicView)
    ensures
        ({
            let out = s.step(EventView::Completed);
            let n = out.frames.len();
            &&& n >= 2
            &&& out.frames[n - 2].event == "message_delta"@
            &&& out.frames[n - 1].event == "message_stop"@
            &&& out.frames[n - 2].data.get("usage"@) == out.state.final_message().get("usage"@)
            &&& out.frames[n - 2].data.get2("delta"@, "stop_reason"@)
                == out.state.final_message().get("stop_reason"@)
        }),
{
    reveal_strlit("usage");
    reveal_strlit("delta");
    reveal_strlit("stop_reason");
    reveal_strlit("stop_sequence");
    assert("usage"@[0] == 'u');
    assert("delta"@[0] == 'd');
    assert("usage"@.len() == 5);
    assert("stop_reason"@.len() == 11);
    assert("stop_sequence"@.len() == 13);
}

/// An answer stops for tool use exactly when a tool call was started in it.
pub proof fn stops_for_tool_use_iff_a_call_started(evs: Seq<EventView>)
    ensures
        run(AnthropicView::initial(), evs).state.any_tool <==> exists|i: int|
            0 <= i < evs.len() && (#[trigger] evs[i]) is ToolCallStart,
        run(AnthropicView::initial(), evs).state.stop_reason() == "tool_use"@ <==> exists|i: int|
            0 <= i < evs.len() && (#[trigger] evs[i]) is ToolCallStart,
    decreases evs.len(),
{
    reveal_strlit("tool_use");
    reveal_strlit("end_turn");
    assert("tool_use"@[0] == 't');
    assert("end_turn"@[0] == 'e');
    if evs.len() > 0 {
        let init = evs.drop_last();
        stops_for_tool_use_iff_a_call_started(init);
        let mid = run(AnthropicView::initial(), init).state;
        let last = evs.last();
        assert(last == evs[evs.len() - 1]);
        if last is Completed {
            let c = AnthropicStep { state: mid, frames: Seq::empty() }.close_thinking().close_text();
            lemma_finish_tools_state(
                AnthropicStep { state: AnthropicView { tools: Seq::empty(), ..c.state }, ..c },
                c.state.tools,
            );
        }
        assert(mid.step(last).state.any_tool == (mid.any_tool || last is ToolCallStart));
        if mid.any_tool {
            let i = choose|i: int| 0 <= i < init.len() && (#[trigger] init[i]) is ToolCallStart;
            assert(evs[i] is ToolCallStart);
        }
        if exists|i: int| 0 <= i < evs.len() && (#[trigger] evs[i]) is ToolCallStart {
            let i = choose|i: int| 0 <= i < evs.len() && (#[trigger] evs[i]) is ToolCallStart;
            if i < init.len() {
                assert(init[i] is ToolCallStart);
            }
        }
    }
}

proof fn lemma_step_adds_only_its_call(s: AnthropicView, ev: EventView, index: u32)
    requires
        crate::wire::slots::slots_ascending(s.tools),
    ensures
        crate::wire::slots::slots_ascending(s.step(ev).state.tools),
        crate::wire::slots::slot_get(s.step(ev).state.tools, index) is Some
            ==> crate::wire::slots::slot_get(s.tools, index) is Some || crate::wire::chat::starts(
            ev,
            index,
        ),
{
    match ev {
        EventView::ToolCallStart { index: k, call_id, name } => {
            let c = AnthropicStep {
                state: s,
                frames: Seq::empty(),
            }.start().close_thinking().close_text();
            let t = ToolBlockView {
                index: c.state.next_index,
                id: call_id,
                name,
                args: Seq::empty(),
            };
            crate::wire::slots::slots_are_a_map(s.tools, k, t, index);
        },
        EventView::ToolCallArgsDelta { index: k, delta } => {
            match crate::wire::slots::slot_get(s.tools, k) {
                None => {},
                Some(t) => {
                    crate::wire::slots::slots_are_a_map(
                        s.tools,
                        k,
                        ToolBlockView { args: t.args + delta, ..t },
                        index,
                    );
                },
            }
        },
        EventView::ToolCallDone { index: k } => {
            match crate::wire::slots::slot_get(s.tools, k) {
                None => {},
                Some(t) => {
                    crate::wire::slots::slots_are_a_map(s.tools, k, t, index);
                },
            }
        },
        EventView::Completed => {
            completion_closes_everything(s);
        },
        _ => {},
    }
}

proof fn lemma_open_calls_were_started(evs: Seq<EventView>, index: u32)
    ensures
        crate::wire::slots::slots_ascending(run(AnthropicView::initial(), evs).state.tools),
        crate::wire::slots::slot_get(run(AnthropicView::initial(), evs).state.tools, index) is Some
            ==> exists|i: int| 0 <= i < evs.len() && crate::wire::chat::starts(#[trigger] evs[i], index),
    decreases evs.len(),
{
    let s = AnthropicView::initial();
    if evs.len() > 0 {
        let init = evs.drop_last();
        let n = evs.len() - 1;
        let ev = evs.last();
        let mid = run(s, init).state;
        lemma_open_calls_were_started(init, index);
        lemma_step_adds_only_its_call(mid, ev, index);
        if crate::wire::slots::slot_get(mid.step(ev).state.tools, index) is Some {
            if crate::wire::slots::slot_get(mid.tools, index) is Some {
                let i = choose|i: int|
                    0 <= i < init.len() && crate::wire::chat::starts(#[trigger] init[i], index);
                assert(crate::wire::chat::starts(evs[i], index));
            } else {
                assert(crate::wire::chat::starts(evs[n], index));
            }
        }
    }
}

/// A list of events that starts no call twice restarts no open call.
pub proof fn fresh_calls_restart_nothing(evs: Seq<EventView>)
    requires
        crate::wire::chat::distinct_starts(evs),
    ensures
        no_restarts(AnthropicView::initial(), evs),
{
    let s = AnthropicView::initial();
    assert forall|k: int| 0 <= k < evs.len() implies !restarts_open_call(
        run(s, evs.take(k)).state,
        #[trigger] evs[k],
    ) by {
        if let EventView::ToolCallStart { index, .. } = evs[k] {
            lemma_open_calls_were_started(evs.take(k), index);
            if restarts_open_call(run(s, evs.take(k)).state, evs[k]) {
                let i = choose|i: int|
                    0 <= i < k && crate::wire::chat::starts(#[trigger] evs.take(k)[i], index);
                assert(evs.take(k)[i] == evs[i]);
                assert(!crate::wire::chat::same_start(evs[i], evs[k]));
            }
        }
    }
}

/// Nothing of what was said or thought is lost or moved: the text of the message is that
/// of all text deltas, in their order, and so is the thinking.
pub proof fn texts_are_gathered_whole(evs: Seq<EventView>)
    ensures
        run(AnthropicView::initial(), evs).state.text_text == crate::canonical::said(
            evs,
        ),
        run(AnthropicView::initial(), evs).state.thinking_text
            == crate::canonical::reasoned(evs),
    decreases evs.len(),
{
    let s = AnthropicView::initial();
    if evs.len() > 0 {
        let init = evs.drop_last();
        texts_are_gathered_whole(init);
        let mid = run(s, init).state;
        let a = crate::canonical::said(init);
        let b = crate::canonical::reasoned(init);
        assert(a + Seq::<char>::empty() =~= a);
        assert(b + Seq::<char>::empty() =~= b);
        if evs.last() is Completed {
            let c = AnthropicStep { state: mid, frames: Seq::empty() }.close_thinking().close_text();
            lemma_finish_tools_state(
                AnthropicStep { state: AnthropicView { tools: Seq::empty(), ..c.state }, ..c },
                c.state.tools,
            );
        }
    }
}

/// What an emitter does on a list of events is the run of its model.
pub proof fn emitters_follow_the_model(
    evs: Seq<EventView>,
    states: Seq<AnthropicEmitter>,
    parts: Seq<Seq<FrameView>>,
)
    requires
        crate::wire::passes(evs, states, parts),
    ensures
        states.last()@ == run(states[0]@, evs).state,
        crate::wire::in_a_row(parts) == run(states[0]@, evs).frames,
        forall|i: int|
            0 <= i <= evs.len() ==> (#[trigger] states[i])@ == run(
                states[0]@,
                evs.take(i),
            ).state,
    decreases evs.len(),
{
    assert(evs.take(evs.len() as int) =~= evs);
    if evs.len() > 0 {
        let n = evs.len() - 1;
        let init = evs.drop_last();
        let states2 = states.drop_last();
        let parts2 = parts.drop_last();
        assert forall|i: int| 0 <= i < init.len() implies (#[trigger] states2[i]).emits(
            init[i],
            states2[i + 1],
            parts2[i],
        ) by {
            assert(states[i].emits(evs[i], states[i + 1], parts[i]));
        }
        emitters_follow_the_model(init, states2, parts2);
        assert(states[n].emits(evs[n], states[n + 1], parts[n]));
        assert forall|i: int| 0 <= i <= evs.len() implies (#[trigger] states[i])@ == run(
            states[0]@,
            evs.take(i),
        ).state by {
            if i <= n {
                assert(states2[i] == states[i]);
                assert(init.take(i) =~= evs.take(i));
            }
        }
    }
}

/// An emitter's counter does not come to its end before four thousand million events.
pub proof fn room_lasts(evs: Seq<EventView>)
    requires
        evs.len() < u32::MAX,
    ensures
        run(AnthropicView::initial(), evs).state.room(),
{
    lemma_counter(evs);
}

proof fn lemma_counter(evs: Seq<EventView>)
    ensures
        run(AnthropicView::initial(), evs).state.next_index <= evs.len(),
    decreases evs.len(),
{
    if evs.len() > 0 {
        lemma_counter(evs.drop_last());
        let s = run(AnthropicView::initial(), evs.drop_last()).state;
        if evs.last() is Completed {
            let c = AnthropicStep { state: s, frames: Seq::empty() }.close_thinking().close_text();
            lemma_finish_tools_state(
                AnthropicStep { state: AnthropicView { tools: Seq::empty(), ..c.state }, ..c },
                c.state.tools,
            );
        }
    }
}

} // verus!
