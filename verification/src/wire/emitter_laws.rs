//! What holds of all the frames that an emitter gives, from its first event to the
//! completion.

use vstd::prelude::*;

use crate::canonical::EventView;
use crate::json::Json;
use crate::wire::anthropic::{AnthropicEmitter, AnthropicView};
use crate::wire::ledger::Ledger;
use crate::wire::responses::{ResponsesEmitter, ResponsesView};
use crate::wire::FrameView;

verus! {

/// A new emitter of Responses frames that is fed events up to a completion, of which none
/// starts a call under the index of a call that is still open, opens its output items at
/// the places zero, one, two and so on, in that order, and closes each exactly once, after
/// it was opened. The last frame completes the response, whose output is the items that the
/// frames say are done, in their order. The type in a frame's data is the frame's event
/// name.
pub proof fn emitted_items_open_in_order_and_close_once(
    evs: Seq<EventView>,
    states: Seq<ResponsesEmitter>,
    parts: Seq<Seq<FrameView>>,
) -> (l: Ledger)
    requires
        crate::wire::passes(evs, states, parts),
        states[0]@ == ResponsesView::initial(),
        evs.len() > 0,
        evs.last() is Completed,
        forall|i: int|
            0 <= i < evs.len() ==> !crate::wire::responses_laws::restarts_open_call(
                states[i]@,
                #[trigger] evs[i],
            ),
    ensures
        ({
            let frames = crate::wire::in_a_row(parts);
            &&& crate::wire::ledger::tallies(
                crate::wire::item_laws::item_marks(),
                frames,
                l.opens.len() as int,
                Set::empty(),
                l,
            )
            &&& frames.len() > 0
            &&& frames.last().event == "response.completed"@
            &&& frames.last().data.get2("response"@, "output"@) matches Some(Json::Arr(items))
                && crate::wire::item_laws::as_members(items) == crate::wire::item_laws::done_items(
                frames,
            )
        }),
{
    let ids = crate::wire::responses_laws::emitters_follow_the_model(evs, states, parts);
    assert forall|i: int| 0 <= i < evs.len() implies !crate::wire::responses_laws::restarts_open_call(
        crate::wire::responses_laws::run(ResponsesView::initial(), evs.take(i), ids),
        #[trigger] evs[i],
    ) by {
        assert(states[i]@ == crate::wire::responses_laws::run(states[0]@, evs.take(i), ids));
    }
    crate::wire::item_laws::items_open_in_order_and_close_once(evs, ids)
}

/// A new emitter of Messages frames that is fed events up to a completion, of which none
/// starts a call under the index of a call that is still open, opens its content blocks
/// under the indices zero, one, two and so on, in that order, and closes each exactly once,
/// after it was opened and before the last two frames, which end the message. Every piece of
/// a block comes while the block is open. The type in a frame's data is the frame's event
/// name.
pub proof fn emitted_blocks_open_in_order_and_close_once(
    evs: Seq<EventView>,
    states: Seq<AnthropicEmitter>,
    parts: Seq<Seq<FrameView>>,
) -> (l: Ledger)
    requires
        crate::wire::passes(evs, states, parts),
        states[0]@ == AnthropicView::initial(),
        evs.len() > 0,
        evs.last() is Completed,
        forall|i: int|
            0 <= i < evs.len() ==> !crate::wire::anthropic_laws::restarts_open_call(
                states[i]@,
                #[trigger] evs[i],
            ),
    ensures
        ({
            let frames = crate::wire::in_a_row(parts);
            &&& crate::wire::ledger::tallies(
                crate::wire::block_laws::block_marks(),
                frames,
                l.opens.len() as int,
                Set::empty(),
                l,
            )
            &&& frames.len() >= 2
            &&& frames[frames.len() - 2].event == "message_delta"@
            &&& forall|k: int|
                0 <= k < l.opens.len() ==> #[trigger] l.closes[k] < frames.len() - 2
        }),
{
    crate::wire::anthropic_laws::emitters_follow_the_model(evs, states, parts);
    assert forall|i: int| 0 <= i < evs.len() implies !crate::wire::anthropic_laws::restarts_open_call(
        crate::wire::anthropic_laws::run(AnthropicView::initial(), evs.take(i)).state,
        #[trigger] evs[i],
    ) by {
        assert(states[i]@ == crate::wire::anthropic_laws::run(states[0]@, evs.take(i)).state);
    }
    crate::wire::block_laws::blocks_open_in_order_and_close_once(evs)
}

/// A new emitter of Messages frames that is fed events which begin with the creation and
/// end with the only completion gives exactly one frame that begins the message, as the
/// first; and the last two frames, and no others, give the stop reason and end the message.
/// The stop reason is tool use where a call was started, and the end of the turn otherwise.
pub proof fn emitted_messages_begin_and_end_once(
    evs: Seq<EventView>,
    states: Seq<AnthropicEmitter>,
    parts: Seq<Seq<FrameView>>,
)
    requires
        crate::wire::passes(evs, states, parts),
        states[0]@ == AnthropicView::initial(),
        crate::wire::block_laws::completed_at_the_end(evs),
        evs[0] is Created,
    ensures
        ({
            let frames = crate::wire::in_a_row(parts);
            let n = frames.len();
            &&& n >= 3
            &&& forall|p: int|
                0 <= p < n ==> ((#[trigger] frames[p]).event == "message_start"@ <==> p == 0)
            &&& forall|p: int|
                0 <= p < n ==> ((#[trigger] frames[p]).event == "message_delta"@ <==> p == n - 2)
            &&& forall|p: int|
                0 <= p < n ==> ((#[trigger] frames[p]).event == "message_stop"@ <==> p == n - 1)
            &&& frames[n - 2].data.get2("delta"@, "stop_reason"@) == Some(
                Json::Str(
                    if exists|i: int| 0 <= i < evs.len() && (#[trigger] evs[i]) is ToolCallStart {
                        "tool_use"@
                    } else {
                        "end_turn"@
                    },
                ),
            )
        }),
{
    crate::wire::anthropic_laws::emitters_follow_the_model(evs, states, parts);
    crate::wire::block_laws::messages_begin_and_end_once(evs);
}

} // verus!
