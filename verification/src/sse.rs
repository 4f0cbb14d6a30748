//! Minimal Server-Sent Events decoder for upstream byte streams.
//!
//! The stream is cut into event blocks at the level of bytes, and a block is decoded
//! once it is complete, so that no character is torn by the way the bytes arrive.

use vstd::prelude::*;
use vstd::string::*;

use crate::text::{chars_of, str_eq, strip_prefix, trim};

verus! {

/// Decodes Server-Sent Events from the bytes fed to it.
pub struct SseDecoder {
    buf: Vec<u8>,
}

#[derive(Debug, PartialEq, Eq)]
pub enum SseItem {
    Data(String),
    Done,
}

/// The model of an `SseItem`.
pub enum ItemView {
    Data(Seq<char>),
    Done,
}

impl View for SseItem {
    type V = ItemView;

    open spec fn view(&self) -> ItemView {
        match *self {
            SseItem::Data(d) => ItemView::Data(d@),
            SseItem::Done => ItemView::Done,
        }
    }
}

impl View for SseDecoder {
    type V = Seq<u8>;

    /// The bytes that are still waiting for the end of their block.
    closed spec fn view(&self) -> Seq<u8> {
        self.buf@
    }
}

/// What a byte string says, read as UTF-8 with replacement characters for what is not.
pub uninterp spec fn utf8_lossy(bytes: Seq<u8>) -> Seq<char>;

/// `String::from_utf8_lossy`: valid UTF-8 is decoded; what stands for invalid sequences
/// is left to std.
#[verifier::external_body]
fn decode_lossy(bytes: &[u8]) -> (r: String)
    ensures
        r@ == utf8_lossy(bytes@),
        vstd::utf8::valid_utf8(bytes@) ==> r@ == vstd::utf8::decode_utf8(bytes@),
{
    String::from_utf8_lossy(bytes).into_owned()
}

/// Whether an event block of `s` ends before position `e`: with an empty line, whose end
/// is a line feed with or without a carriage return before it.
pub open spec fn ends_at(s: Seq<u8>, e: int) -> bool {
    &&& 2 <= e <= s.len()
    &&& s[e - 1] == 10
    &&& (s[e - 2] == 10 || (e >= 3 && s[e - 2] == 13 && s[e - 3] == 10))
}

/// Where the first event block of `s` ends, at `from` or later.
pub open spec fn block_end(s: Seq<u8>, from: int) -> Option<int>
    decreases s.len() + 1 - from,
{
    if from > s.len() {
        None
    } else if ends_at(s, from) {
        Some(from)
    } else {
        block_end(s, from + 1)
    }
}

/// The bytes with every CR LF made a LF.
pub open spec fn unix_newlines(s: Seq<u8>) -> Seq<u8>
    decreases s.len(),
{
    if s.len() == 0 {
        s
    } else if s.len() >= 2 && s.last() == 10 && s[s.len() - 2] == 13 {
        unix_newlines(s.take(s.len() - 2)).push(10)
    } else {
        unix_newlines(s.drop_last()).push(s.last())
    }
}

/// What bytes say: valid UTF-8 is decoded as it stands, and other bytes with replacement
/// characters.
pub open spec fn decoded(bytes: Seq<u8>) -> Seq<char> {
    if vstd::utf8::valid_utf8(bytes) {
        vstd::utf8::decode_utf8(bytes)
    } else {
        utf8_lossy(bytes)
    }
}

/// The text of an event block, without the empty line that ends it.
pub open spec fn block_text(block: Seq<u8>) -> Seq<char> {
    let b = unix_newlines(block);
    decoded(b.take(b.len() - 2))
}

/// Where the line that holds position `i` ends.
pub open spec fn line_end(t: Seq<char>, i: int) -> int
    decreases t.len() - i,
{
    if i >= t.len() {
        i
    } else if t[i] == '\n' {
        i
    } else {
        line_end(t, i + 1)
    }
}

/// The line of `t` from `i` to its end at `k`. A carriage return before the line feed
/// belongs to neither.
pub open spec fn line_at(t: Seq<char>, i: int, k: int) -> Seq<char> {
    if k < t.len() && i < k && t[k - 1] == '\r' {
        t.subrange(i, k - 1)
    } else {
        t.subrange(i, k)
    }
}

/// The data gathered so far, after one more line. Only `data:` lines count; a space
/// behind the colon does not.
pub open spec fn with_line(data: Seq<char>, line: Seq<char>) -> Seq<char> {
    match crate::text::without_prefix(line, "data:"@) {
        None => data,
        Some(rest) => {
            let rest = match crate::text::without_prefix(rest, " "@) {
                Some(r) => r,
                None => rest,
            };
            if data.len() > 0 {
                data + "\n"@ + rest
            } else {
                rest
            }
        },
    }
}

pub proof fn lemma_line_end(t: Seq<char>, i: int)
    requires
        i <= t.len(),
    ensures
        i <= line_end(t, i) <= t.len(),
    decreases t.len() - i,
{
    if i < t.len() && t[i] != '\n' {
        lemma_line_end(t, i + 1);
    }
}

/// The data gathered from the lines of `t`, from position `i` on.
pub open spec fn gathered(data: Seq<char>, t: Seq<char>, i: int) -> Seq<char>
    decreases t.len() + 1 - i,
{
    if i >= t.len() {
        data
    } else {
        proof {
            lemma_line_end(t, i);
        }
        let k = line_end(t, i);
        gathered(with_line(data, line_at(t, i, k)), t, k + 1)
    }
}

/// The item that an event block's text stands for: its data lines, joined; nothing where
/// it has no data.
pub open spec fn block_item(text: Seq<char>) -> Option<ItemView> {
    let data = gathered(Seq::empty(), text, 0);
    if data.len() == 0 {
        None
    } else if crate::text::trimmed(data) == "[DONE]"@ {
        Some(ItemView::Done)
    } else {
        Some(ItemView::Data(data))
    }
}

pub proof fn lemma_block_end(s: Seq<u8>, from: int)
    ensures
        match block_end(s, from) {
            Some(e) => from <= e && ends_at(s, e) && forall|x: int|
                from <= x < e ==> !(#[trigger] ends_at(s, x)),
            None => forall|x: int| from <= x ==> !(#[trigger] ends_at(s, x)),
        },
    decreases s.len() + 1 - from,
{
    if from <= s.len() && !ends_at(s, from) {
        lemma_block_end(s, from + 1);
    }
}

/// The items of all complete event blocks of `s`, in their order.
pub open spec fn items_in(s: Seq<u8>) -> Seq<ItemView>
    decreases s.len(),
{
    match block_end(s, 0) {
        None => Seq::empty(),
        Some(e) => {
            proof {
                lemma_block_end(s, 0);
            }
            (match block_item(block_text(s.take(e))) {
                Some(item) => seq![item],
                None => Seq::empty(),
            }) + items_in(s.skip(e))
        },
    }
}

/// What is left of `s` behind its last complete event block.
pub open spec fn left_over(s: Seq<u8>) -> Seq<u8>
    decreases s.len(),
{
    match block_end(s, 0) {
        None => s,
        Some(e) => {
            proof {
                lemma_block_end(s, 0);
            }
            left_over(s.skip(e))
        },
    }
}

/// Cutting the stream in two at any place, even in the middle of a character or of a
/// line end, changes nothing: the items of both parts together are those of the whole,
/// and the same bytes are left waiting.
pub proof fn cuts_do_not_matter(s: Seq<u8>, t: Seq<u8>)
    ensures
        items_in(s + t) == items_in(s) + items_in(left_over(s) + t),
        left_over(s + t) == left_over(left_over(s) + t),
    decreases s.len(),
{
    lemma_block_end(s, 0);
    match block_end(s, 0) {
        None => {
            assert(items_in(s) + items_in(s + t) =~= items_in(s + t));
        },
        Some(e) => {
            let u = s + t;
            lemma_block_end(u, 0);
            assert(ends_at(u, e));
            assert forall|x: int| 0 <= x < e implies !(#[trigger] ends_at(u, x)) by {
                assert(!ends_at(s, x));
            }
            assert(block_end(u, 0) == Some(e));
            assert(u.take(e) =~= s.take(e));
            assert(u.skip(e) =~= s.skip(e) + t);
            cuts_do_not_matter(s.skip(e), t);
            let head = match block_item(block_text(s.take(e))) {
                Some(item) => seq![item],
                None => Seq::empty(),
            };
            assert(head + (items_in(s.skip(e)) + items_in(left_over(s.skip(e)) + t)) =~= (head
                + items_in(s.skip(e))) + items_in(left_over(s) + t));
        },
    }
}

/// The bytes of a list of chunks.
pub open spec fn joined(chunks: Seq<Seq<u8>>) -> Seq<u8>
    decreases chunks.len(),
{
    if chunks.len() == 0 {
        Seq::empty()
    } else {
        joined(chunks.drop_last()) + chunks.last()
    }
}

/// The items given, chunk by chunk, by a decoder that starts with `waiting`.
pub open spec fn pushed(waiting: Seq<u8>, chunks: Seq<Seq<u8>>) -> (Seq<ItemView>, Seq<u8>)
    decreases chunks.len(),
{
    if chunks.len() == 0 {
        (Seq::empty(), waiting)
    } else {
        let (items, rest) = pushed(waiting, chunks.drop_last());
        (items + items_in(rest + chunks.last()), left_over(rest + chunks.last()))
    }
}

/// However a stream is cut into chunks, the decoder gives the same items and is left
/// with the same bytes.
pub proof fn chunking_does_not_matter(chunks: Seq<Seq<u8>>)
    ensures
        pushed(Seq::empty(), chunks) == (items_in(joined(chunks)), left_over(joined(chunks))),
    decreases chunks.len(),
{
    if chunks.len() > 0 {
        chunking_does_not_matter(chunks.drop_last());
        cuts_do_not_matter(joined(chunks.drop_last()), chunks.last());
    } else {
        lemma_block_end(Seq::empty(), 0);
    }
}

/// What a decoder is left with holds no complete block.
pub proof fn no_block_is_left_over(s: Seq<u8>)
    ensures
        block_end(left_over(s), 0) is None,
        items_in(left_over(s)).len() == 0,
    decreases s.len(),
{
    lemma_block_end(s, 0);
    if let Some(e) = block_end(s, 0) {
        no_block_is_left_over(s.skip(e));
    }
}

proof fn lemma_block_has_end(s: Seq<u8>)
    requires
        ends_at(s, s.len() as int),
    ensures
        unix_newlines(s).len() >= 2,
{
    reveal_with_fuel(unix_newlines, 3);
    if s[s.len() - 2] == 10 {
        assert(s.drop_last().last() == 10);
    } else {
        assert(s.take(s.len() - 2).last() == 10);
    }
}

/// The bytes with every CR LF made a LF.
fn to_unix(s: &Vec<u8>) -> (r: Vec<u8>)
    ensures
        r@ == unix_newlines(s@),
{
    let mut out: Vec<u8> = Vec::new();
    let mut i: usize = 0;
    assert(s@.take(0) =~= Seq::empty());
    while i < s.len()
        invariant
            i <= s@.len(),
            0 < i < s@.len() ==> !(s@[i - 1] == 13 && s@[i as int] == 10),
            out@ == unix_newlines(s@.take(i as int)),
        decreases s@.len() - i,
    {
        if s[i] == 13 && i + 1 < s.len() && s[i + 1] == 10 {
            let ghost t = s@.take(i as int + 2);
            assert(t.take(t.len() - 2) =~= s@.take(i as int));
            assert(t.last() == 10 && t[t.len() - 2] == 13);
            out.push(10);
            i = i + 2;
        } else {
            let ghost t = s@.take(i as int + 1);
            assert(t.drop_last() =~= s@.take(i as int));
            assert(t.last() == s@[i as int]);
            out.push(s[i]);
            i = i + 1;
        }
    }
    assert(s@.take(i as int) =~= s@);
    out
}

/// The item that an event block's text stands for.
pub fn parse_event_block(block: &str) -> (r: Option<SseItem>)
    ensures
        crate::text::opt_view(r) == block_item(block@),
{
    let chars = chars_of(block);
    let mut data = String::new();
    let mut i: usize = 0;
    while i < chars.len()
        invariant
            chars@ == block@,
            gathered(Seq::empty(), block@, 0) == gathered(data@, block@, i as int),
        decreases chars@.len() - i,
    {
        let mut k: usize = i;
        proof {
            lemma_line_end(block@, i as int);
        }
        while k < chars.len() && chars[k] != '\n'
            invariant
                chars@ == block@,
                i <= k <= chars@.len(),
                line_end(block@, i as int) == line_end(block@, k as int),
            decreases chars@.len() - k,
        {
            k = k + 1;
        }
        let line = if k < chars.len() && i < k && chars[k - 1] == '\r' {
            block.substring_char(i, k - 1)
        } else {
            block.substring_char(i, k)
        };
        assert(line@ == line_at(block@, i as int, k as int));
        match strip_prefix(line, "data:") {
            Some(rest) => {
                let rest = match strip_prefix(rest, " ") {
                    Some(r) => r,
                    None => rest,
                };
                if !data.as_str().is_empty() {
                    data.append("\n");
                } else {
                    assert(data@ + rest@ =~= rest@);
                }
                data.append(rest);
            },
            None => {},
        }
        assert(gathered(Seq::empty(), block@, 0) == gathered(data@, block@, k as int + 1));
        if k == chars.len() {
            return finish_block(data);
        }
        i = k + 1;
    }
    finish_block(data)
}

fn finish_block(data: String) -> (r: Option<SseItem>)
    ensures
        crate::text::opt_view(r) == (if data@.len() == 0 {
            None
        } else if crate::text::trimmed(data@) == "[DONE]"@ {
            Some(ItemView::Done)
        } else {
            Some(ItemView::Data(data@))
        }),
{
    if data.as_str().is_empty() {
        None
    } else if str_eq(trim(data.as_str()), "[DONE]") {
        Some(SseItem::Done)
    } else {
        Some(SseItem::Data(data))
    }
}

impl Default for SseDecoder {
    fn default() -> (r: Self)
        ensures
            r@ == Seq::<u8>::empty(),
    {
        SseDecoder { buf: Vec::new() }
    }
}

impl SseDecoder {
    /// Where the first event block ends.
    fn find_end(s: &Vec<u8>) -> (r: Option<usize>)
        ensures
            match r {
                Some(e) => block_end(s@, 0) == Some(e as int),
                None => block_end(s@, 0) is None,
            },
    {
        let mut e: usize = 0;
        while e < s.len()
            invariant
                e <= s@.len(),
                block_end(s@, 0) == block_end(s@, e as int + 1),
            decreases s@.len() - e,
        {
            if s[e] == 10 && 1 <= e && (s[e - 1] == 10 || (2 <= e && s[e - 1] == 13 && s[e - 2]
                == 10)) {
                return Some(e + 1);
            }
            e = e + 1;
        }
        None
    }

    /// Feed a chunk of bytes; returns whatever complete events are now available.
    pub fn push_bytes(&mut self, chunk: &[u8]) -> (r: Vec<SseItem>)
        ensures
            crate::text::seq_view(r@) == items_in(old(self)@ + chunk@),
            final(self)@ == left_over(old(self)@ + chunk@),
    {
        broadcast use crate::text::group_views;

        self.buf.extend_from_slice(chunk);
        let ghost all = self.buf@;
        assert(all =~= old(self)@ + chunk@);
        let mut out: Vec<SseItem> = Vec::new();
        assert(Seq::<ItemView>::empty() + items_in(all) =~= items_in(all));
        loop
            invariant
                crate::text::seq_view(out@) + items_in(self.buf@) == items_in(all),
                left_over(self.buf@) == left_over(all),
            ensures
                block_end(self.buf@, 0) is None,
            decreases self.buf@.len(),
        {
            broadcast use crate::text::group_views;

            let e = match SseDecoder::find_end(&self.buf) {
                Some(e) => e,
                None => {
                    break ;
                },
            };
            let ghost cur = self.buf@;
            proof {
                lemma_block_end(cur, 0);
            }
            let rest = self.buf.split_off(e);
            let mut block: Vec<u8> = Vec::new();
            std::mem::swap(&mut block, &mut self.buf);
            self.buf = rest;
            assert(block@ =~= cur.take(e as int));
            assert(self.buf@ =~= cur.skip(e as int));
            proof {
                assert(ends_at(block@, block@.len() as int));
                lemma_block_has_end(block@);
            }
            let mut bytes = to_unix(&block);
            let n = bytes.len() - 2;
            bytes.truncate(n);
            assert(bytes@ =~= unix_newlines(block@).take(n as int));
            let text = decode_lossy(bytes.as_slice());
            let ghost done = crate::text::seq_view(out@);
            match parse_event_block(text.as_str()) {
                Some(item) => {
                    out.push(item);
                    assert(done + (seq![item@] + items_in(self.buf@)) =~= done.push(item@)
                        + items_in(self.buf@));
                },
                None => {
                    assert(Seq::<ItemView>::empty() + items_in(self.buf@) =~= items_in(self.buf@));
                },
            }
        }
        assert(crate::text::seq_view(out@) + Seq::<ItemView>::empty() =~= crate::text::seq_view(
            out@,
        ));
        out
    }

    /// Feed a chunk of text; returns whatever complete events are now available.
    pub fn push(&mut self, chunk: &str) -> (r: Vec<SseItem>)
        ensures
            crate::text::seq_view(r@) == items_in(
                old(self)@ + vstd::utf8::encode_utf8(chunk@),
            ),
            final(self)@ == left_over(old(self)@ + vstd::utf8::encode_utf8(chunk@)),
    {
        self.push_bytes(chunk.as_bytes())
    }
}

} // verus!
