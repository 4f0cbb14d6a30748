//! The streaming pipeline: upstream bytes to canonical events, and on to the frames of
//! the client's dialect.

use vstd::prelude::*;

use crate::canonical::{CanonicalEvent, EventView};
use crate::json::{Json, JsonValue};
use crate::sse::{ItemView, SseDecoder, SseItem};
use crate::usage::{cost_text, tokens_from_usage, CostText, CostView};
use crate::wire::chat::{ChatStreamParser, ParserView};
use crate::wire::{emit_all, CanonicalEmitter, Emission};

verus! {

/// The state of a `StreamReader`.
pub struct ReaderView {
    /// Bytes of an event block that is not complete yet.
    pub waiting: Seq<u8>,
    pub parser: ParserView,
    /// Whether costs and token counts are taken down.
    pub track: bool,
    /// Whether the answer has been brought to an end.
    pub completed: bool,
    /// Whether the end marker has been seen, and only accounting is left.
    pub done: bool,
    /// Whether no further byte is read.
    pub ended: bool,
    /// The costs stated so far.
    pub costs: Seq<CostView>,
    pub prompt_tokens: Option<u64>,
    pub completion_tokens: Option<u64>,
}

/// Whether an event brings the answer to an end.
pub open spec fn terminal(ev: EventView) -> bool {
    ev is Completed || ev is Error
}

/// The events up to the first error.
pub open spec fn up_to_error(evs: Seq<EventView>) -> Seq<EventView>
    decreases evs.len(),
{
    if evs.len() == 0 {
        evs
    } else if evs[0] is Error {
        seq![evs[0]]
    } else {
        seq![evs[0]] + up_to_error(evs.skip(1))
    }
}

pub open spec fn has_error(evs: Seq<EventView>) -> bool {
    exists|i: int| 0 <= i < evs.len() && (#[trigger] evs[i]) is Error
}

/// The later of two findings.
pub open spec fn latest(new: Option<u64>, old_value: Option<u64>) -> Option<u64> {
    if new is Some {
        new
    } else {
        old_value
    }
}

impl ReaderView {
    pub open spec fn initial(response_id: Seq<char>, track: bool) -> ReaderView {
        ReaderView {
            waiting: Seq::empty(),
            parser: ParserView {
                response_id,
                model: Seq::empty(),
                created: false,
                started: Seq::empty(),
            },
            track,
            completed: false,
            done: false,
            ended: false,
            costs: Seq::empty(),
            prompt_tokens: None,
            completion_tokens: None,
        }
    }

    /// The state once the cost and the token counts of a chunk are taken down.
    pub open spec fn noting(self, chunk: Json) -> ReaderView {
        if !self.track {
            self
        } else {
            let cost = match chunk.get("cost"@) {
                Some(v) => crate::usage::cost_in(v),
                None => None,
            };
            let tokens = crate::usage::tokens_in(chunk.get("usage"@));
            ReaderView {
                costs: match cost {
                    Some(c) => self.costs.push(c),
                    None => self.costs,
                },
                prompt_tokens: latest(tokens.0, self.prompt_tokens),
                completion_tokens: latest(tokens.1, self.completion_tokens),
                ..self
            }
        }
    }

    /// The state after a chunk of the answer.
    pub open spec fn after_chunk(self, chunk: Json) -> ReaderView {
        let noted = self.noting(chunk);
        if self.done {
            noted
        } else {
            let failed = has_error(self.parser.events(chunk));
            ReaderView {
                parser: self.parser.after(chunk),
                completed: self.completed || failed,
                ended: failed,
                ..noted
            }
        }
    }

    /// The state after an item of the stream.
    pub open spec fn after_item(self, item: ItemView) -> ReaderView {
        if self.ended {
            self
        } else {
            match item {
                ItemView::Data(d) => match crate::json::json_parse(d) {
                    Some(chunk) => self.after_chunk(chunk),
                    None => self,
                },
                ItemView::Done => ReaderView {
                    completed: true,
                    done: self.done || self.track,
                    ended: !self.done && !self.track,
                    ..self
                },
            }
        }
    }

    /// The events of an item of the stream. Behind the end marker there are none.
    pub open spec fn item_events(self, item: ItemView) -> Seq<EventView> {
        if self.ended {
            Seq::empty()
        } else {
            match item {
                ItemView::Data(d) => match crate::json::json_parse(d) {
                    Some(chunk) => if self.done {
                        Seq::empty()
                    } else {
                        up_to_error(self.parser.events(chunk))
                    },
                    None => Seq::empty(),
                },
                ItemView::Done => if self.done {
                    Seq::empty()
                } else {
                    seq![EventView::Completed]
                },
            }
        }
    }

    /// The state after a list of items.
    pub open spec fn after_items(self, items: Seq<ItemView>) -> ReaderView
        decreases items.len(),
    {
        if items.len() == 0 {
            self
        } else {
            self.after_items(items.drop_last()).after_item(items.last())
        }
    }

    /// The events of a list of items.
    pub open spec fn items_events(self, items: Seq<ItemView>) -> Seq<EventView>
        decreases items.len(),
    {
        if items.len() == 0 {
            Seq::empty()
        } else {
            self.items_events(items.drop_last()) + self.after_items(items.drop_last()).item_events(
                items.last(),
            )
        }
    }

    pub open spec fn holding(self, bytes: Seq<u8>) -> ReaderView {
        ReaderView { waiting: bytes, ..self }
    }

    /// The state after some bytes.
    pub open spec fn after_bytes(self, bytes: Seq<u8>) -> ReaderView {
        if self.ended {
            self
        } else {
            self.holding(crate::sse::left_over(self.waiting + bytes)).after_items(
                crate::sse::items_in(self.waiting + bytes),
            )
        }
    }

    /// The events of some bytes.
    pub open spec fn bytes_events(self, bytes: Seq<u8>) -> Seq<EventView> {
        if self.ended {
            Seq::empty()
        } else {
            self.items_events(crate::sse::items_in(self.waiting + bytes))
        }
    }

    /// The state after the connection broke.
    pub open spec fn after_failure(self) -> ReaderView {
        if self.ended {
            self
        } else {
            ReaderView { completed: true, ended: true, ..self }
        }
    }

    /// The events of a connection that broke. Behind the end marker there are none.
    pub open spec fn failure_events(self, message: Seq<char>) -> Seq<EventView> {
        if self.ended || self.done {
            Seq::empty()
        } else {
            seq![EventView::Error { message, status: 502 }]
        }
    }

    /// The state once there is nothing more to read.
    pub open spec fn finished(self) -> ReaderView {
        ReaderView { completed: true, ended: true, ..self }
    }

    /// The events of the end of the stream: the completion, where none came before.
    pub open spec fn finish_events(self) -> Seq<EventView> {
        if self.completed {
            Seq::empty()
        } else {
            seq![EventView::Completed]
        }
    }
}

/// Reads an upstream Chat Completions stream, byte by byte, as canonical events.
pub struct StreamReader {
    decoder: SseDecoder,
    parser: ChatStreamParser,
    track: bool,
    completed: bool,
    done: bool,
    ended: bool,
    costs: Vec<CostText>,
    prompt_tokens: Option<u64>,
    completion_tokens: Option<u64>,
}

impl View for StreamReader {
    type V = ReaderView;

    closed spec fn view(&self) -> ReaderView {
        ReaderView {
            waiting: self.decoder@,
            parser: self.parser@,
            track: self.track,
            completed: self.completed,
            done: self.done,
            ended: self.ended,
            costs: crate::text::seq_view(self.costs@),
            prompt_tokens: self.prompt_tokens,
            completion_tokens: self.completion_tokens,
        }
    }
}

/// Moves the events up to the first error to the end of `out`; says whether there was one.
fn push_up_to_error(events: Vec<CanonicalEvent>, out: &mut Vec<CanonicalEvent>) -> (r: bool)
    ensures
        crate::text::seq_view(final(out)@) == crate::text::seq_view(old(out)@) + up_to_error(
            crate::text::seq_view(events@),
        ),
        r == has_error(crate::text::seq_view(events@)),
{
    broadcast use crate::text::group_views;

    let ghost view = crate::text::seq_view(events@);
    let ghost before = crate::text::seq_view(out@);
    let mut queue = events;
    let n = queue.len();
    let mut i: usize = 0;
    assert(view.skip(0) =~= view);
    while i < n
        invariant
            i <= n,
            n == view.len(),
            view == crate::text::seq_view(events@),
            before == crate::text::seq_view(old(out)@),
            queue@.len() == n - i,
            crate::text::seq_view(queue@) == view.skip(i as int),
            forall|j: int| 0 <= j < i ==> !((#[trigger] view[j]) is Error),
            crate::text::seq_view(out@) + up_to_error(view.skip(i as int)) == before + up_to_error(
                view,
            ),
        decreases n - i,
    {
        broadcast use crate::text::group_views;

        let ghost sofar = crate::text::seq_view(out@);
        let ghost rest = view.skip(i as int);
        let ghost cur = queue@;
        assert(rest[0] == view[i as int]);
        assert(rest.skip(1) =~= view.skip(i as int + 1));
        let ev = queue.remove(0);
        assert(crate::text::seq_view(cur)[0] == ev@);
        assert(crate::text::seq_view(queue@) =~= rest.skip(1));
        let failed = matches!(ev, CanonicalEvent::Error { .. });
        out.push(ev);
        assert(crate::text::seq_view(out@) == sofar.push(ev@));
        if failed {
            assert(sofar.push(ev@) =~= sofar + up_to_error(rest));
            assert(view[i as int] is Error);
            return true;
        }
        assert(sofar.push(ev@) + up_to_error(rest.skip(1)) =~= sofar + up_to_error(rest));
        i = i + 1;
    }
    assert(view.skip(i as int) =~= Seq::empty());
    assert(crate::text::seq_view(out@) + Seq::<EventView>::empty() =~= crate::text::seq_view(out@));
    false
}

impl StreamReader {
    pub fn new(response_id: String, track: bool) -> (r: Self)
        ensures
            r@ == ReaderView::initial(response_id@, track),
    {
        broadcast use crate::text::group_views;

        StreamReader {
            decoder: SseDecoder::default(),
            parser: ChatStreamParser::new(response_id),
            track,
            completed: false,
            done: false,
            ended: false,
            costs: Vec::new(),
            prompt_tokens: None,
            completion_tokens: None,
        }
    }

    fn note(&mut self, chunk: &JsonValue)
        ensures
            final(self)@ == old(self)@.noting(chunk@),
    {
        broadcast use crate::text::group_views;

        if !self.track {
            return ;
        }
        match chunk.get("cost") {
            Some(v) => match cost_text(v) {
                Some(c) => {
                    self.costs.push(c);
                },
                None => {},
            },
            None => {},
        }
        let (prompt, completion) = tokens_from_usage(chunk.get("usage"));
        if prompt.is_some() {
            self.prompt_tokens = prompt;
        }
        if completion.is_some() {
            self.completion_tokens = completion;
        }
    }

    fn on_item(&mut self, item: &SseItem, out: &mut Vec<CanonicalEvent>)
        ensures
            final(self)@ == old(self)@.after_item(item@),
            crate::text::seq_view(final(out)@) == crate::text::seq_view(old(out)@) + old(
                self,
            )@.item_events(item@),
    {
        broadcast use crate::text::group_views;

        let ghost before = crate::text::seq_view(out@);
        assert(before + Seq::<EventView>::empty() =~= before);
        if self.ended {
            return ;
        }
        match item {
            SseItem::Data(d) => match JsonValue::parse(d.as_str()) {
                Some(chunk) => {
                    self.note(&chunk);
                    if !self.done {
                        let events = self.parser.on_chunk(&chunk);
                        if push_up_to_error(events, out) {
                            self.completed = true;
                            self.ended = true;
                        }
                    }
                },
                None => {},
            },
            SseItem::Done => {
                self.completed = true;
                if !self.done {
                    out.push(CanonicalEvent::Completed);
                    assert(before.push(EventView::Completed) =~= before
                        + seq![EventView::Completed]);
                    if self.track {
                        self.done = true;
                    } else {
                        self.ended = true;
                    }
                }
            },
        }
    }

    /// The events of the next bytes of the stream.
    pub fn on_bytes(&mut self, bytes: &[u8]) -> (r: Vec<CanonicalEvent>)
        ensures
            final(self)@ == old(self)@.after_bytes(bytes@),
            crate::text::seq_view(r@) == old(self)@.bytes_events(bytes@),
    {
        broadcast use crate::text::group_views;

        let mut out: Vec<CanonicalEvent> = Vec::new();
        if self.ended {
            return out;
        }
        let ghost start = self@.holding(crate::sse::left_over(self@.waiting + bytes@));
        let items = self.decoder.push_bytes(bytes);
        let ghost view = crate::text::seq_view(items@);
        assert(self@ == start);
        let mut i: usize = 0;
        assert(view.take(0) =~= Seq::empty());
        while i < items.len()
            invariant
                i <= items@.len(),
                view == crate::text::seq_view(items@),
                self@ == start.after_items(view.take(i as int)),
                crate::text::seq_view(out@) == start.items_events(view.take(i as int)),
            decreases items@.len() - i,
        {
            assert(view.take(i as int + 1).drop_last() =~= view.take(i as int));
            assert(view.take(i as int + 1).last() == view[i as int]);
            self.on_item(&items[i], &mut out);
            i = i + 1;
        }
        assert(view.take(i as int) =~= view);
        proof {
            lemma_waiting_is_not_read(old(self)@, view, start.waiting);
        }
        out
    }

    /// The events of a connection that broke.
    pub fn on_failure(&mut self, message: &str) -> (r: Vec<CanonicalEvent>)
        ensures
            final(self)@ == old(self)@.after_failure(),
            crate::text::seq_view(r@) == old(self)@.failure_events(message@),
    {
        broadcast use crate::text::group_views;

        let mut out: Vec<CanonicalEvent> = Vec::new();
        if !self.ended && !self.done {
            out.push(CanonicalEvent::Error { message: message.to_owned(), status: 502 });
            assert(crate::text::seq_view(out@) =~= self@.failure_events(message@));
        }
        if !self.ended {
            self.completed = true;
            self.ended = true;
        }
        out
    }

    /// The events of the end of the stream.
    pub fn finish(&mut self) -> (r: Vec<CanonicalEvent>)
        ensures
            final(self)@ == old(self)@.finished(),
            crate::text::seq_view(r@) == old(self)@.finish_events(),
    {
        broadcast use crate::text::group_views;

        let mut out: Vec<CanonicalEvent> = Vec::new();
        if !self.completed {
            out.push(CanonicalEvent::Completed);
            assert(crate::text::seq_view(out@) =~= seq![EventView::Completed]);
        }
        self.completed = true;
        self.ended = true;
        out
    }

    /// Whether no further byte is read.
    pub fn is_ended(&self) -> (r: bool)
        ensures
            r == self@.ended,
    {
        self.ended
    }

    /// The costs that the stream stated, in their order.
    pub fn costs(&self) -> (r: &Vec<CostText>)
        ensures
            crate::text::seq_view(r@) == self@.costs,
    {
        &self.costs
    }

    /// The prompt and completion tokens that the stream stated last.
    pub fn tokens(&self) -> (r: (Option<u64>, Option<u64>))
        ensures
            r == (self@.prompt_tokens, self@.completion_tokens),
    {
        (self.prompt_tokens, self.completion_tokens)
    }
}

/// What is still waiting for the end of its block has no part in the items before it.
pub proof fn lemma_waiting_is_not_read(s: ReaderView, items: Seq<ItemView>, bytes: Seq<u8>)
    ensures
        s.holding(bytes).after_items(items) == s.after_items(items).holding(bytes),
        s.holding(bytes).items_events(items) == s.items_events(items),
    decreases items.len(),
{
    if items.len() > 0 {
        lemma_waiting_is_not_read(s, items.drop_last(), bytes);
    }
}

/// Drives an upstream stream through the canonical pipeline and out as the frames of the
/// client's dialect, which the emitter decides.
pub struct StreamTranslator<E> {
    pub reader: StreamReader,
    pub emitter: E,
}

impl<E: CanonicalEmitter> StreamTranslator<E> {
    pub fn new(response_id: String, track: bool, emitter: E) -> (r: Self)
        ensures
            r.reader@ == ReaderView::initial(response_id@, track),
            r.emitter == emitter,
    {
        StreamTranslator { reader: StreamReader::new(response_id, track), emitter }
    }

    /// The frames of the next bytes of the stream.
    pub fn on_bytes(&mut self, bytes: &[u8]) -> (r: Emission)
        ensures
            final(self).reader@ == old(self).reader@.after_bytes(bytes@),
            translates(
                *old(self),
                old(self).reader@.bytes_events(bytes@),
                *final(self),
                r,
            ),
    {
        let events = self.reader.on_bytes(bytes);
        emit_all(&mut self.emitter, &events)
    }

    /// The frames of a connection that broke.
    pub fn on_failure(&mut self, message: &str) -> (r: Emission)
        ensures
            final(self).reader@ == old(self).reader@.after_failure(),
            translates(
                *old(self),
                old(self).reader@.failure_events(message@),
                *final(self),
                r,
            ),
    {
        let events = self.reader.on_failure(message);
        emit_all(&mut self.emitter, &events)
    }

    /// The frames of the end of the stream.
    pub fn finish(&mut self) -> (r: Emission)
        ensures
            final(self).reader@ == old(self).reader@.finished(),
            translates(*old(self), old(self).reader@.finish_events(), *final(self), r),
    {
        let events = self.reader.finish();
        emit_all(&mut self.emitter, &events)
    }
}

/// Whether `r` holds the frames of the events `evs`: all of them, unless the emitter's
/// counters have come to their end.
pub open spec fn translates<E: CanonicalEmitter>(
    before: StreamTranslator<E>,
    evs: Seq<EventView>,
    after: StreamTranslator<E>,
    r: Emission,
) -> bool {
    &&& r.taken <= evs.len()
    &&& crate::wire::emits_all(
        before.emitter,
        evs.take(r.taken as int),
        after.emitter,
        crate::text::seq_view(r.frames@),
    )
    &&& r.taken < evs.len() ==> !after.emitter.has_room()
}

} // verus!
