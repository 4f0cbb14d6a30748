//! What is heard of an upstream's stream: its lines, its items, and what they come to.

use vstd::prelude::*;

use crate::canonical::EventView;
use crate::json::Json;
use crate::sse::ItemView;
use crate::stream::{ReaderView, StreamTranslator};
use crate::wire::anthropic::AnthropicEmitter;
use crate::wire::responses::ResponsesEmitter;
use crate::wire::{CanonicalEmitter, Emission, FrameView};

verus! {

/// A line of data adds what is behind its name, and behind one space where there is one:
/// alone where nothing was gathered yet, and in a line of its own otherwise. Other lines add
/// nothing.
pub proof fn data_lines_are_gathered(data: Seq<char>, text: Seq<char>, line: Seq<char>)
    ensures
        data.len() == 0 ==> crate::sse::with_line(data, "data: "@ + text) == text,
        data.len() > 0 ==> crate::sse::with_line(data, "data: "@ + text) == data + "\n"@ + text,
        text.len() == 0 || text[0] != ' ' ==> crate::sse::with_line(data, "data:"@ + text)
            == crate::sse::with_line(data, "data: "@ + text),
        line.len() < 5 || line.take(5) != "data:"@ ==> crate::sse::with_line(data, line) == data,
{
    reveal_strlit("data: ");
    reveal_strlit("data:");
    reveal_strlit(" ");
    assert("data: "@.len() == 6 && "data:"@.len() == 5 && " "@.len() == 1);
    let a = "data: "@ + text;
    assert(a.take(5) =~= "data:"@);
    assert(a.skip(5).take(1) =~= " "@);
    assert(a.skip(5).skip(1) =~= text);
    let b = "data:"@ + text;
    assert(b.take(5) =~= "data:"@);
    assert(b.skip(5) =~= text);
    if text.len() > 0 && text[0] != ' ' {
        assert(text.take(1)[0] == text[0]);
        assert(" "@[0] == ' ');
    }
}

proof fn lemma_line_end_shift(a: Seq<char>, b: Seq<char>, i: int)
    requires
        0 <= i <= b.len(),
    ensures
        crate::sse::line_end(a + b, a.len() + i) == a.len() + crate::sse::line_end(b, i),
    decreases b.len() - i,
{
    if i < b.len() {
        assert((a + b)[a.len() + i] == b[i]);
        if b[i] != '\n' {
            lemma_line_end_shift(a, b, i + 1);
        }
    }
}

proof fn lemma_gathered_shift(data: Seq<char>, a: Seq<char>, b: Seq<char>, i: int)
    requires
        0 <= i,
    ensures
        crate::sse::gathered(data, a + b, a.len() + i) == crate::sse::gathered(data, b, i),
    decreases b.len() + 1 - i,
{
    if i < b.len() {
        lemma_line_end_shift(a, b, i);
        crate::sse::lemma_line_end(b, i);
        let k = crate::sse::line_end(b, i);
        let n = a.len() as int;
        let t = a + b;
        assert(t.subrange(n + i, n + k) =~= b.subrange(i, k));
        if i < k {
            assert(t[n + k - 1] == b[k - 1]);
            assert(t.subrange(n + i, n + k - 1) =~= b.subrange(i, k - 1));
        }
        lemma_gathered_shift(
            crate::sse::with_line(data, crate::sse::line_at(b, i, k)),
            a,
            b,
            k + 1,
        );
    }
}

proof fn lemma_first_line(line: Seq<char>, rest: Seq<char>, i: int)
    requires
        forall|j: int| 0 <= j < line.len() ==> (#[trigger] line[j]) != '\n',
        0 <= i <= line.len(),
    ensures
        crate::sse::line_end(line + seq!['\n'] + rest, i) == line.len(),
        crate::sse::line_end(line, i) == line.len(),
    decreases line.len() - i,
{
    let t = line + seq!['\n'] + rest;
    if i < line.len() {
        assert(t[i] == line[i]);
        lemma_first_line(line, rest, i + 1);
    } else {
        assert(t[i] == '\n');
    }
}

/// Lines are gathered one after the other. A carriage return at the end of a line that a
/// line feed ends does not belong to it.
pub proof fn lines_are_gathered_in_order(data: Seq<char>, line: Seq<char>, rest: Seq<char>)
    requires
        forall|j: int| 0 <= j < line.len() ==> (#[trigger] line[j]) != '\n',
    ensures
        ({
            let t = line + seq!['\n'] + rest;
            &&& line.len() == 0 || line.last() != '\r' ==> crate::sse::gathered(data, t, 0)
                == crate::sse::gathered(crate::sse::with_line(data, line), rest, 0)
            &&& line.len() > 0 && line.last() == '\r' ==> crate::sse::gathered(data, t, 0)
                == crate::sse::gathered(crate::sse::with_line(data, line.drop_last()), rest, 0)
        }),
        line.len() > 0 ==> crate::sse::gathered(data, line, 0) == crate::sse::with_line(data, line),
{
    let head = line + seq!['\n'];
    let t = head + rest;
    let n = line.len() as int;
    lemma_first_line(line, rest, 0);
    assert(t.subrange(0, n) =~= line);
    if n > 0 {
        assert(t[n - 1] == line[n - 1]);
        assert(t.subrange(0, n - 1) =~= line.drop_last());
        assert(line.subrange(0, n) =~= line);
    }
    assert(head.len() == n + 1);
    reveal_with_fuel(crate::sse::gathered, 2);
    lemma_gathered_shift(crate::sse::with_line(data, crate::sse::line_at(t, 0, n)), head, rest, 0);
}

/// A block stands for the data of its lines; for nothing where it has none; and for the end
/// where they are the end marker, whatever white space is around it.
pub proof fn blocks_stand_for_their_data(text: Seq<char>)
    ensures
        ({
            let data = crate::sse::gathered(Seq::empty(), text, 0);
            &&& data.len() == 0 ==> crate::sse::block_item(text) is None
            &&& data.len() > 0 && crate::text::trimmed(data) == "[DONE]"@
                ==> crate::sse::block_item(text) == Some(ItemView::Done)
            &&& data.len() > 0 && crate::text::trimmed(data) != "[DONE]"@
                ==> crate::sse::block_item(text) == Some(ItemView::Data(data))
        }),
{
}

/// A block ends with an empty line: two line feeds, or two with a carriage return before the
/// second.
pub proof fn blocks_end_with_an_empty_line(s: Seq<u8>)
    ensures
        crate::sse::ends_at(s + seq![10u8, 10u8], s.len() as int + 2),
        crate::sse::ends_at(s + seq![10u8, 13u8, 10u8], s.len() as int + 3),
        crate::sse::ends_at(s + seq![13u8, 10u8, 13u8, 10u8], s.len() as int + 4),
        crate::sse::ends_at(s, s.len() as int) ==> {
            ||| s == s.take(s.len() - 2) + seq![10u8, 10u8]
            ||| s == s.take(s.len() - 3) + seq![10u8, 13u8, 10u8]
        },
{
    let n = s.len() as int;
    if crate::sse::ends_at(s, n) {
        if s[n - 2] == 10 {
            let t = s.take(n - 2);
            assert(s =~= t + seq![10u8, 10u8]);
        } else {
            let t = s.take(n - 3);
            assert(s =~= t + seq![10u8, 13u8, 10u8]);
        }
    }
}

/// Line ends of both kinds are one: a carriage return before a line feed is left out, and
/// nothing else is.
pub proof fn line_ends_are_one(s: Seq<u8>, x: u8)
    ensures
        crate::sse::unix_newlines(Seq::empty()) == Seq::<u8>::empty(),
        crate::sse::unix_newlines(s + seq![13u8, 10u8]) == crate::sse::unix_newlines(s).push(10),
        x != 10 || s.len() == 0 || s.last() != 13 ==> crate::sse::unix_newlines(s.push(x))
            == crate::sse::unix_newlines(s).push(x),
{
    let t = s + seq![13u8, 10u8];
    assert(t.take(t.len() - 2) =~= s);
    assert(s.push(x).drop_last() =~= s);
}

/// Blocks are heard one after the other: the first complete one, and then what is behind it;
/// and nothing where none is complete.
pub proof fn blocks_are_heard_in_order(s: Seq<u8>, e: int)
    ensures
        crate::sse::ends_at(s, e) && (forall|x: int| x < e ==> !(#[trigger] crate::sse::ends_at(
            s,
            x,
        ))) ==> {
            &&& crate::sse::left_over(s) == crate::sse::left_over(s.skip(e))
            &&& match crate::sse::block_item(crate::sse::block_text(s.take(e))) {
                Some(item) => crate::sse::items_in(s) == seq![item] + crate::sse::items_in(
                    s.skip(e),
                ),
                None => crate::sse::items_in(s) == crate::sse::items_in(s.skip(e)),
            }
        },
        (forall|x: int| !(#[trigger] crate::sse::ends_at(s, x))) ==> crate::sse::items_in(s).len()
            == 0 && crate::sse::left_over(s) == s,
{
    crate::sse::lemma_block_end(s, 0);
    if crate::sse::ends_at(s, e) && (forall|x: int|
        x < e ==> !(#[trigger] crate::sse::ends_at(s, x))) {
        assert(crate::sse::block_end(s, 0) == Some(e));
        assert(Seq::<ItemView>::empty() + crate::sse::items_in(s.skip(e)) =~= crate::sse::items_in(
            s.skip(e),
        ));
    }
}

proof fn lemma_all_passed_on(s: ReaderView, chunk: Json)
    ensures
        crate::stream::up_to_error(s.parser.events(chunk)) == s.parser.events(chunk),
        crate::stream::has_error(s.parser.events(chunk)) <==> crate::wire::chunk_laws::has_failed(
            chunk,
        ),
{
    let evs = s.parser.events(chunk);
    crate::wire::chat::chunks_end_only_in_errors(s.parser, chunk);
    if crate::wire::chunk_laws::has_failed(chunk) {
        crate::wire::chunk_laws::failures_are_read(s.parser, chunk);
        assert(evs[0] is Error);
        assert(evs =~= seq![evs[0]]);
    } else {
        assert forall|i: int| 0 <= i < evs.len() implies !((#[trigger] evs[i]) is Error) by {}
        lemma_no_error(evs);
    }
}

proof fn lemma_no_error(evs: Seq<EventView>)
    requires
        forall|i: int| 0 <= i < evs.len() ==> !((#[trigger] evs[i]) is Error),
    ensures
        crate::stream::up_to_error(evs) == evs,
        !crate::stream::has_error(evs),
    decreases evs.len(),
{
    if evs.len() > 0 {
        let rest = evs.skip(1);
        assert(!(evs[0] is Error));
        assert forall|i: int| 0 <= i < rest.len() implies !((#[trigger] rest[i]) is Error) by {
            assert(rest[i] == evs[i + 1]);
        }
        lemma_no_error(rest);
        assert(seq![evs[0]] + rest =~= evs);
    }
}

/// An item that is a document is read as a chunk of the answer, and all its events are
/// passed on; one that is none says nothing. The end marker is the completion. Behind the
/// end nothing is said.
pub proof fn items_are_passed_on(s: ReaderView, item: ItemView)
    ensures
        ({
            let evs = s.item_events(item);
            let t = s.after_item(item);
            &&& s.ended ==> evs.len() == 0 && t == s
            &&& s.done ==> evs.len() == 0
            &&& !s.ended && !s.done && item is Done ==> {
                &&& evs == seq![EventView::Completed]
                &&& t == (ReaderView {
                    completed: true,
                    done: s.track,
                    ended: !s.track,
                    ..s
                })
            }
            &&& !s.ended && s.done && item is Done ==> t == (ReaderView { completed: true, ..s })
            &&& !s.ended ==> (item matches ItemView::Data(d) ==> {
                match crate::json::json_parse(d) {
                    None => evs.len() == 0 && t == s,
                    Some(chunk) => {
                        let failed = crate::wire::chunk_laws::has_failed(chunk);
                        let noted = ReaderView {
                            costs: t.costs,
                            prompt_tokens: t.prompt_tokens,
                            completion_tokens: t.completion_tokens,
                            ..s
                        };
                        &&& s.done ==> t == noted
                        &&& !s.done ==> evs == s.parser.events(chunk) && t == (ReaderView {
                            parser: s.parser.after(chunk),
                            completed: s.completed || failed,
                            ended: failed,
                            ..noted
                        })
                    },
                }
            })
        }),
{
    if let ItemView::Data(d) = item {
        if let Some(chunk) = crate::json::json_parse(d) {
            lemma_all_passed_on(s, chunk);
        }
    }
}

/// Where usage is tracked, the cost that a chunk states joins those before it, and the
/// tokens that it counts take the place of those before them; also behind the end marker.
/// Where it is not, nothing is taken down.
pub proof fn accounts_are_kept(s: ReaderView, d: Seq<char>, chunk: Json)
    requires
        !s.ended,
        crate::json::json_parse(d) == Some(chunk),
    ensures
        ({
            let t = s.after_item(ItemView::Data(d));
            let usage = chunk.get("usage"@);
            &&& !s.track ==> t.costs == s.costs && t.prompt_tokens == s.prompt_tokens
                && t.completion_tokens == s.completion_tokens
            &&& s.track ==> match chunk.get("cost"@) {
                Some(Json::Number(n)) => t.costs == s.costs.push(
                    crate::usage::CostView::Number(Json::Number(n)),
                ),
                Some(Json::Str(c)) => t.costs == s.costs.push(
                    crate::usage::CostView::Text(crate::text::trimmed(c)),
                ),
                _ => t.costs == s.costs,
            }
            &&& s.track ==> match usage {
                Some(u) => {
                    &&& u.get_u64("prompt_tokens"@) is Some ==> t.prompt_tokens == u.get_u64(
                        "prompt_tokens"@,
                    )
                    &&& u.get_u64("prompt_tokens"@) is None ==> t.prompt_tokens == s.prompt_tokens
                    &&& u.get_u64("completion_tokens"@) is Some ==> t.completion_tokens
                        == u.get_u64("completion_tokens"@)
                    &&& u.get_u64("completion_tokens"@) is None ==> t.completion_tokens
                        == s.completion_tokens
                },
                None => t.prompt_tokens == s.prompt_tokens && t.completion_tokens
                    == s.completion_tokens,
            }
            &&& t.track == s.track
            &&& t.waiting == s.waiting
        }),
{
}

/// Items are read one after the other.
pub proof fn items_are_read_in_order(s: ReaderView, items: Seq<ItemView>, item: ItemView)
    ensures
        s.after_items(Seq::empty()) == s,
        s.items_events(Seq::empty()).len() == 0,
        s.after_items(items.push(item)) == s.after_items(items).after_item(item),
        s.items_events(items.push(item)) == s.items_events(items) + s.after_items(
            items,
        ).item_events(item),
{
    assert(items.push(item).drop_last() =~= items);
}

/// What a stream says grows by what its next chunk says, and by nothing else: not by an item
/// that is no document, by an error, by the end marker, or by what is behind the end.
pub proof fn streams_say_what_their_chunks_say(s: ReaderView, items: Seq<ItemView>, item: ItemView)
    ensures
        ({
            let mid = s.after_items(items);
            let chunk = match item {
                ItemView::Data(d) => crate::json::json_parse(d),
                ItemView::Done => None,
            };
            let heard = !mid.ended && !mid.done && chunk is Some
                && !crate::wire::chunk_laws::has_failed(chunk->0);
            let d = crate::wire::chunk_laws::in_choice(chunk->0, "delta"@);
            let before = s.items_events(items);
            let after = s.items_events(items.push(item));
            &&& heard ==> crate::canonical::said(after) == crate::canonical::said(before)
                + crate::wire::chunk_laws::string_in(d, "content"@)
            &&& heard ==> crate::canonical::reasoned(after) == crate::canonical::reasoned(before)
                + crate::wire::chunk_laws::reasoning_in(d)
            &&& !heard ==> crate::canonical::said(after) == crate::canonical::said(before)
                && crate::canonical::reasoned(after) == crate::canonical::reasoned(before)
        }),
{
    let mid = s.after_items(items);
    let before = s.items_events(items);
    let more = mid.item_events(item);
    items_are_read_in_order(s, items, item);
    items_are_passed_on(mid, item);
    crate::wire::chunk_laws::lemma_texts_add(before, more);
    let a = crate::canonical::said(before);
    let b = crate::canonical::reasoned(before);
    assert(a + Seq::<char>::empty() =~= a);
    assert(b + Seq::<char>::empty() =~= b);
    if more.len() == 0 {
    } else if item is Done {
        reveal_with_fuel(crate::canonical::said, 2);
        reveal_with_fuel(crate::canonical::reasoned, 2);
        assert(more.drop_last() =~= Seq::empty());
        assert(Seq::<char>::empty() + Seq::<char>::empty() =~= Seq::<char>::empty());
    } else {
        let chunk = crate::json::json_parse(item->Data_0)->0;
        crate::wire::chunk_laws::chunk_texts_are_heard(mid.parser, chunk);
    }
}

/// What is said arrives: the pieces of text in the frames of a translation, in a row, are the
/// texts of the events, in a row, and so is the reasoning; where the counters of the emitter
/// have not come to their end.
pub proof fn responses_translations_say_what_was_said(
    before: StreamTranslator<ResponsesEmitter>,
    evs: Seq<EventView>,
    after: StreamTranslator<ResponsesEmitter>,
    r: Emission,
)
    requires
        crate::stream::translates(before, evs, after, r),
        after.emitter.has_room(),
    ensures
        r.taken == evs.len(),
        crate::wire::frame_laws::pieces(
            crate::text::seq_view(r.frames@),
            "response.output_text.delta"@,
        ) == crate::canonical::said(evs),
        crate::wire::frame_laws::pieces(
            crate::text::seq_view(r.frames@),
            "response.reasoning_summary_text.delta"@,
        ) == crate::canonical::reasoned(evs),
{
    let taken = evs.take(r.taken as int);
    assert(taken =~= evs);
    let (states, parts) = choose|
        states: Seq<ResponsesEmitter>,
        parts: Seq<Seq<FrameView>>,
    | #[trigger]
        crate::wire::passes(taken, states, parts) && states[0] == before.emitter && states.last()
            == after.emitter && crate::text::seq_view(r.frames@) == crate::wire::in_a_row(parts);
    let ids = crate::wire::responses_laws::emitters_follow_the_model(taken, states, parts);
    crate::wire::frame_laws::texts_are_streamed_whole(before.emitter@, evs, ids);
}

/// What is said arrives: the pieces of text in the frames of a translation, in a row, are the
/// texts of the events, in a row, and so is the reasoning; where the counter of the emitter
/// has not come to its end.
pub proof fn messages_translations_say_what_was_said(
    before: StreamTranslator<AnthropicEmitter>,
    evs: Seq<EventView>,
    after: StreamTranslator<AnthropicEmitter>,
    r: Emission,
)
    requires
        crate::stream::translates(before, evs, after, r),
        after.emitter.has_room(),
    ensures
        r.taken == evs.len(),
        crate::wire::message_frame_laws::pieces(
            crate::text::seq_view(r.frames@),
            "text_delta"@,
            "text"@,
        ) == crate::canonical::said(evs),
        crate::wire::message_frame_laws::pieces(
            crate::text::seq_view(r.frames@),
            "thinking_delta"@,
            "thinking"@,
        ) == crate::canonical::reasoned(evs),
{
    let taken = evs.take(r.taken as int);
    assert(taken =~= evs);
    let (states, parts) = choose|
        states: Seq<AnthropicEmitter>,
        parts: Seq<Seq<FrameView>>,
    | #[trigger]
        crate::wire::passes(taken, states, parts) && states[0] == before.emitter && states.last()
            == after.emitter && crate::text::seq_view(r.frames@) == crate::wire::in_a_row(parts);
    crate::wire::anthropic_laws::emitters_follow_the_model(taken, states, parts);
    crate::wire::message_frame_laws::texts_are_streamed_whole(before.emitter@, evs);
}

/// Bytes are read behind those that still wait: the items of the blocks that are complete
/// are passed on, and what is left waits.
pub proof fn bytes_are_read_behind_those_that_wait(s: ReaderView, bytes: Seq<u8>)
    requires
        !s.ended,
    ensures
        s.bytes_events(bytes) == s.items_events(crate::sse::items_in(s.waiting + bytes)),
        s.after_bytes(bytes).waiting == crate::sse::left_over(s.waiting + bytes),
        s.after_bytes(bytes).parser == s.after_items(
            crate::sse::items_in(s.waiting + bytes),
        ).parser,
{
    let items = crate::sse::items_in(s.waiting + bytes);
    crate::stream::lemma_waiting_is_not_read(
        s,
        items,
        crate::sse::left_over(s.waiting + bytes),
    );
}

/// A connection that breaks before the end is an error of the gateway, with its message, and
/// ends the stream; behind the end marker it says nothing. A stream that just ends is
/// completed, where it was not.
pub proof fn ends_are_told(s: ReaderView, message: Seq<char>)
    ensures
        !s.ended && !s.done ==> s.failure_events(message) == seq![
            EventView::Error { message, status: 502 },
        ],
        s.ended || s.done ==> s.failure_events(message).len() == 0,
        s.after_failure().ended,
        !s.ended ==> s.after_failure().completed,
        !s.completed ==> s.finish_events() == seq![EventView::Completed],
        s.completed ==> s.finish_events().len() == 0,
        s.finished() == (ReaderView { completed: true, ended: true, ..s }),
        !s.ended ==> s.after_failure() == (ReaderView { completed: true, ended: true, ..s }),
        s.ended ==> s.after_failure() == s,
{
}

/// A stream begins with nothing read, said or taken down, under the identifier given for it.
pub proof fn streams_begin_empty(response_id: Seq<char>, track: bool)
    ensures
        ({
            let s = ReaderView::initial(response_id, track);
            &&& s.waiting.len() == 0
            &&& s.parser.response_id == response_id
            &&& s.parser.model.len() == 0
            &&& !s.parser.created
            &&& s.parser.started.len() == 0
            &&& s.track == track
            &&& !s.completed && !s.done && !s.ended
            &&& s.costs.len() == 0
            &&& s.prompt_tokens is None && s.completion_tokens is None
        }),
{
}

} // verus!
