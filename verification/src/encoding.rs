//! How the characters of a line lie in its bytes.
//!
//! A line is held as UTF-8. The parser counts characters, and keeps beside
//! the count the number of bytes that those characters take, so that it can
//! read the next character where it stands.

use vstd::prelude::*;
use vstd::string::StringSliceAdditionalSpecFns;
use vstd::utf8::encode_scalar;
use vstd::utf8::encode_utf8;
use vstd::utf8::encode_utf8_decode_utf8;
use vstd::utf8::encode_utf8_first_scalar;
use vstd::utf8::encode_utf8_valid_utf8;
use vstd::utf8::is_char_boundary;
use vstd::utf8::length_of_first_scalar;
use vstd::utf8::pop_first_scalar;

verus! {

/// The number of bytes that the first `count` characters of `text` take.
pub open spec fn byte_offset(text: Seq<char>, count: int) -> int {
    encode_utf8(text.take(count)).len() as int
}

/// The bytes of two texts in a row are the bytes of the one and then the
/// bytes of the other.
pub proof fn lemma_encode_concat(a: Seq<char>, b: Seq<char>)
    ensures
        encode_utf8(a + b) == encode_utf8(a) + encode_utf8(b),
    decreases a.len(),
{
    if a.len() == 0 {
        assert(a + b =~= b);
        assert(encode_utf8(a) + encode_utf8(b) =~= encode_utf8(b));
    } else {
        lemma_encode_concat(a.drop_first(), b);
        assert((a + b).drop_first() =~= a.drop_first() + b);
        assert((a + b)[0] == a[0]);
        assert(encode_utf8(a + b) =~= encode_utf8(a) + encode_utf8(b));
    }
}

/// The bytes of a text fall into the bytes of its first `count` characters
/// and the bytes of the others.
pub proof fn lemma_encode_split(text: Seq<char>, count: int)
    requires
        0 <= count <= text.len(),
    ensures
        0 <= byte_offset(text, count) <= encode_utf8(text).len(),
        encode_utf8(text).subrange(0, byte_offset(text, count)) == encode_utf8(text.take(count)),
        encode_utf8(text).subrange(byte_offset(text, count), encode_utf8(text).len() as int)
            == encode_utf8(text.skip(count)),
{
    lemma_encode_concat(text.take(count), text.skip(count));
    assert(text.take(count) + text.skip(count) =~= text);
    let whole = encode_utf8(text);
    let front = encode_utf8(text.take(count));
    let back = encode_utf8(text.skip(count));
    assert(whole == front + back);
    assert(whole.subrange(0, front.len() as int) =~= front);
    assert(whole.subrange(front.len() as int, whole.len() as int) =~= back);
}

/// The bytes of a text's first characters end where a character begins.
pub proof fn lemma_byte_offset_is_boundary(text: Seq<char>, count: int)
    requires
        0 <= count <= text.len(),
    ensures
        is_char_boundary(encode_utf8(text), byte_offset(text, count)),
    decreases count,
{
    let bytes = encode_utf8(text);
    encode_utf8_valid_utf8(text);
    if count > 0 {
        let rest = text.drop_first();
        encode_utf8_first_scalar(text);
        lemma_byte_offset_is_boundary(rest, count - 1);
        assert(pop_first_scalar(bytes) =~= encode_utf8(rest));
        assert(text.take(count) =~= seq![text[0]] + rest.take(count - 1));
        lemma_encode_concat(seq![text[0]], rest.take(count - 1));
        assert(encode_utf8(seq![text[0]]) =~= encode_scalar(text[0] as u32)) by {
            assert(seq![text[0]].drop_first() =~= Seq::<char>::empty());
            assert(encode_utf8(Seq::<char>::empty()) =~= Seq::<u8>::empty());
        }
        assert(byte_offset(text, count) == length_of_first_scalar(bytes) + byte_offset(
            rest,
            count - 1,
        ));
        assert(byte_offset(text, count) > 0);
        lemma_encode_split(text, count);
    } else {
        assert(text.take(0) =~= Seq::<char>::empty());
    }
}

/// One more character takes the bytes of that character more.
pub proof fn lemma_byte_offset_step(text: Seq<char>, count: int)
    requires
        0 <= count < text.len(),
    ensures
        byte_offset(text, count + 1) == byte_offset(text, count) + encode_scalar(
            text[count] as u32,
        ).len(),
{
    assert(text.take(count + 1) =~= text.take(count) + seq![text[count]]);
    lemma_encode_concat(text.take(count), seq![text[count]]);
    assert(encode_utf8(seq![text[count]]) =~= encode_scalar(text[count] as u32)) by {
        assert(seq![text[count]].drop_first() =~= Seq::<char>::empty());
        assert(encode_utf8(Seq::<char>::empty()) =~= Seq::<u8>::empty());
    }
}

/// Two texts with the same bytes are the same text.
pub proof fn lemma_same_bytes(a: Seq<char>, b: Seq<char>)
    requires
        encode_utf8(a) == encode_utf8(b),
    ensures
        a == b,
{
    encode_utf8_decode_utf8(a);
    encode_utf8_decode_utf8(b);
}

/// The number of bytes that a character takes.
pub fn char_width(c: char) -> (width: usize)
    ensures
        width == encode_scalar(c as u32).len(),
        1 <= width <= 4,
{
    let code: u32 = c as u32;
    if code < 0x80 {
        1
    } else if code < 0x800 {
        2
    } else if code < 0x10000 {
        3
    } else {
        4
    }
}

/// The bytes between two counts of characters are the bytes of the
/// characters between them.
pub proof fn lemma_byte_offset_between(text: Seq<char>, from: int, to: int)
    requires
        0 <= from <= to <= text.len(),
    ensures
        byte_offset(text, from) <= byte_offset(text, to),
        byte_offset(text.skip(from), to - from) == byte_offset(text, to) - byte_offset(text, from),
{
    assert(text.take(to) =~= text.take(from) + text.skip(from).take(to - from));
    lemma_encode_concat(text.take(from), text.skip(from).take(to - from));
}

/// Tests whether two strings hold the same characters.
pub fn same_text(a: &str, b: &str) -> (same: bool)
    ensures
        same == (a@ == b@),
{
    let left: &[u8] = a.as_bytes();
    let right: &[u8] = b.as_bytes();
    proof {
        if left@ == right@ {
            lemma_same_bytes(a@, b@);
        }
    }
    if left.len() != right.len() {
        return false;
    }
    let mut i: usize = 0;
    while i < left.len()
        invariant
            i <= left@.len(),
            left@.len() == right@.len(),
            left@ == a.spec_bytes(),
            right@ == b.spec_bytes(),
            forall|j: int| 0 <= j < i ==> left@[j] == right@[j],
        decreases left@.len() - i,
    {
        if left[i] != right[i] {
            return false;
        }
        i = i + 1;
    }
    assert(left@ =~= right@);
    true
}

/// The character of `text` that begins at byte `position`, which is where
/// the character at `count` begins.
pub(crate) fn char_at(text: &str, position: usize, count: Ghost<int>) -> (c: char)
    requires
        0 <= count@ < text@.len(),
        position == byte_offset(text@, count@),
    ensures
        c == text@[count@],
{
    proof {
        lemma_encode_split(text@, count@);
        lemma_byte_offset_is_boundary(text@, count@);
    }
    let (_, rest) = text.split_at(position);
    proof {
        lemma_same_bytes(rest@, text@.skip(count@));
    }
    let mut following = rest.chars();
    match following.next() {
        Some(c) => c,
        // The text goes on at `count`, so this does not happen.
        None => ' ',
    }
}

/// The part of `text` between the bytes `start` and `end`, which is where
/// the characters at `from` and `to` begin.
pub(crate) fn slice<'a>(
    text: &'a str,
    start: usize,
    end: usize,
    from: Ghost<int>,
    to: Ghost<int>,
) -> (part: &'a str)
    requires
        0 <= from@ <= to@ <= text@.len(),
        start == byte_offset(text@, from@),
        end == byte_offset(text@, to@),
    ensures
        part@ == text@.subrange(from@, to@),
{
    proof {
        lemma_encode_split(text@, from@);
        lemma_byte_offset_is_boundary(text@, from@);
        lemma_byte_offset_between(text@, from@, to@);
    }
    let (_, rest) = text.split_at(start);
    proof {
        lemma_same_bytes(rest@, text@.skip(from@));
        lemma_encode_split(rest@, to@ - from@);
        lemma_byte_offset_is_boundary(rest@, to@ - from@);
    }
    let (part, _) = rest.split_at(end - start);
    proof {
        lemma_same_bytes(part@, rest@.take(to@ - from@));
        assert(text@.skip(from@).take(to@ - from@) =~= text@.subrange(from@, to@));
    }
    part
}

} // verus!
