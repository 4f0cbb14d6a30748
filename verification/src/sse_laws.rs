//! What is sent in an event block is heard as it was sent.

use vstd::prelude::*;

use crate::sse::ItemView;

verus! {

/// A text within one line.
pub open spec fn one_line(t: Seq<char>) -> bool {
    forall|i: int| 0 <= i < t.len() ==> (#[trigger] t[i]) != '\n' && t[i] != '\r'
}

/// Bytes without a line feed or a carriage return.
spec fn unbroken(s: Seq<u8>) -> bool {
    forall|i: int| 0 <= i < s.len() ==> (#[trigger] s[i]) != 10 && s[i] != 13
}

proof fn lemma_scalar_unbroken(c: u32)
    requires
        c != 10,
        c != 13,
    ensures
        unbroken(vstd::utf8::encode_scalar(c)),
{
    assert(c <= 0x7f && c != 10 && c != 13 ==> (c & 0x7f) as u8 != 10 && (c & 0x7f) as u8 != 13)
        by (bit_vector);
    assert(0xc0u8 | ((c >> 6) & 0x1f) as u8 >= 0x80) by (bit_vector);
    assert(0xe0u8 | ((c >> 12) & 0x0f) as u8 >= 0x80) by (bit_vector);
    assert(0xf0u8 | ((c >> 18) & 0x7) as u8 >= 0x80) by (bit_vector);
    assert(0x80u8 | (c & 0x3f) as u8 >= 0x80) by (bit_vector);
    assert(0x80u8 | ((c >> 6) & 0x3f) as u8 >= 0x80) by (bit_vector);
    assert(0x80u8 | ((c >> 12) & 0x3f) as u8 >= 0x80) by (bit_vector);
}

proof fn lemma_text_unbroken(t: Seq<char>)
    requires
        one_line(t),
    ensures
        unbroken(vstd::utf8::encode_utf8(t)),
    decreases t.len(),
{
    if t.len() > 0 {
        let rest = t.drop_first();
        assert forall|i: int| 0 <= i < rest.len() implies (#[trigger] rest[i]) != '\n' && rest[i]
            != '\r' by {
            assert(rest[i] == t[i + 1]);
        }
        lemma_text_unbroken(rest);
        let c = t[0];
        assert(c != '\n' && c != '\r');
        if c as u32 == 10 {
            vstd::utf8::char_u32_cast(c, 10);
        }
        if c as u32 == 13 {
            vstd::utf8::char_u32_cast(c, 13);
        }
        assert(c as u32 != 10 && c as u32 != 13);
        lemma_scalar_unbroken(c as u32);
        let a = vstd::utf8::encode_scalar(c as u32);
        let b = vstd::utf8::encode_utf8(rest);
        let all = vstd::utf8::encode_utf8(t);
        assert forall|i: int| 0 <= i < all.len() implies (#[trigger] all[i]) != 10 && all[i]
            != 13 by {
            if i < a.len() {
                assert(all[i] == a[i]);
            } else {
                assert(all[i] == b[i - a.len()]);
            }
        }
    }
}

proof fn lemma_newlines_stay(s: Seq<u8>)
    requires
        forall|i: int| 0 <= i < s.len() ==> (#[trigger] s[i]) != 13,
    ensures
        crate::sse::unix_newlines(s) == s,
    decreases s.len(),
{
    if s.len() > 0 {
        assert(s.len() >= 2 ==> s[s.len() - 2] != 13);
        let init = s.drop_last();
        assert forall|i: int| 0 <= i < init.len() implies (#[trigger] init[i]) != 13 by {
            assert(init[i] == s[i]);
        }
        lemma_newlines_stay(init);
        assert(init.push(s.last()) =~= s);
    }
}

proof fn lemma_line_is_whole(t: Seq<char>, i: int)
    requires
        one_line(t),
        0 <= i <= t.len(),
    ensures
        crate::sse::line_end(t, i) == t.len(),
    decreases t.len() - i,
{
    if i < t.len() {
        lemma_line_is_whole(t, i + 1);
    }
}

proof fn lemma_data_line(t: Seq<char>)
    requires
        one_line(t),
    ensures
        one_line("data: "@ + t),
        crate::sse::gathered(Seq::empty(), "data: "@ + t, 0) == t,
{
    reveal_strlit("data: ");
    reveal_strlit("data:");
    reveal_strlit(" ");
    let line = "data: "@ + t;
    assert("data: "@.len() == 6 && "data:"@.len() == 5 && " "@.len() == 1);
    assert forall|i: int| 0 <= i < line.len() implies (#[trigger] line[i]) != '\n' && line[i]
        != '\r' by {
        if i < 6 {
            assert(line[i] == "data: "@[i]);
        } else {
            assert(line[i] == t[i - 6]);
        }
    }
    lemma_line_is_whole(line, 0);
    assert(line.subrange(0, line.len() as int) =~= line);
    assert(line.take(5) =~= "data:"@);
    assert(crate::text::starts_with(line, "data:"@));
    let rest = line.skip(5);
    assert(rest.take(1) =~= " "@);
    assert(crate::text::starts_with(rest, " "@));
    assert(rest.skip(1) =~= t);
    reveal_with_fuel(crate::sse::gathered, 2);
}

/// The bytes of a block with one line of data.
pub open spec fn data_block(t: Seq<char>) -> Seq<u8> {
    vstd::utf8::encode_utf8("data: "@ + t) + seq![10u8, 10u8]
}

/// A line of data is heard as it was sent, every character of it, and nothing of it is left
/// over; but the end marker is heard as the end.
pub proof fn data_is_heard_as_sent(t: Seq<char>)
    requires
        one_line(t),
        t.len() > 0,
    ensures
        crate::sse::items_in(data_block(t)) == seq![
            if crate::text::trimmed(t) == "[DONE]"@ {
                ItemView::Done
            } else {
                ItemView::Data(t)
            },
        ],
        crate::sse::left_over(data_block(t)) == Seq::<u8>::empty(),
{
    broadcast use {vstd::utf8::encode_utf8_valid_utf8, vstd::utf8::encode_utf8_decode_utf8};

    let line = "data: "@ + t;
    let b = vstd::utf8::encode_utf8(line);
    let s = data_block(t);
    let n = b.len() as int;
    lemma_data_line(t);
    lemma_text_unbroken(line);
    assert forall|i: int| 0 <= i < n implies #[trigger] s[i] == b[i] by {}
    assert(s[n] == 10 && s[n + 1] == 10);
    crate::sse::lemma_block_end(s, 0);
    assert(crate::sse::ends_at(s, n + 2));
    assert forall|x: int| 0 <= x < n + 2 implies !(#[trigger] crate::sse::ends_at(s, x)) by {
        if 2 <= x {
            assert(s[x - 2] == b[x - 2]);
            if x - 1 < n {
                assert(s[x - 1] == b[x - 1]);
            }
        }
    }
    assert(crate::sse::block_end(s, 0) == Some(n + 2));
    assert(s.take(n + 2) =~= s);
    lemma_newlines_stay(s);
    assert(s.take(n) =~= b);
    let none = s.skip(n + 2);
    assert(none =~= Seq::empty());
    crate::sse::lemma_block_end(none, 0);
    assert(crate::sse::block_end(none, 0) is None);
    assert(crate::sse::items_in(none) =~= Seq::empty());
    assert(crate::sse::left_over(none) == none);
}

} // verus!
