//! Codepoint-indexed editing of UTF-8 text.
//!
//! Text is stored as UTF-8 bytes, while every cursor that a user sees counts
//! codepoints. The functions here convert between the two and are the only
//! place where a codepoint index becomes a byte offset.

use vstd::prelude::*;
use vstd::utf8::*;

verus! {

/// Byte offset at which the codepoint with index `index` starts in the UTF-8
/// encoding of `text`. For an index at or beyond the codepoint count this is
/// the encoded length of the whole text.
pub open spec fn byte_offset(text: Seq<char>, index: int) -> nat {
    if 0 <= index <= text.len() {
        encode_utf8(text.take(index)).len()
    } else {
        encode_utf8(text).len()
    }
}

/// `char::len_utf8` returns the number of bytes that the UTF-8 encoding of
/// the character takes, which is the length of `encode_scalar` on its scalar value.
pub assume_specification[ char::len_utf8 ](c: char) -> (n: usize)
    ensures
        n == encode_scalar(c as u32).len(),
;

/// `String::insert` places the encoding of `ch` at byte position `idx`, keeping
/// the bytes before and after it. It panics unless `idx` lies on a character
/// boundary (the end of the string included), which `requires` rules out.
pub assume_specification[ String::insert ](s: &mut String, idx: usize, ch: char)
    requires
        is_char_boundary(encode_utf8(old(s)@), idx as int),
    ensures
        ({
            let before = encode_utf8(old(s)@);
            encode_utf8(final(s)@) == before.subrange(0, idx as int) + encode_scalar(ch as u32)
                + before.subrange(idx as int, before.len() as int)
        }),
;

/// `String::remove` takes out the character whose encoding starts at byte
/// position `idx` and returns it; the bytes before and after it stay. It
/// panics unless `idx` is less than the length and lies on a character
/// boundary, which `requires` rules out.
pub assume_specification[ String::remove ](s: &mut String, idx: usize) -> (ch: char)
    requires
        idx < encode_utf8(old(s)@).len(),
        is_char_boundary(encode_utf8(old(s)@), idx as int),
    ensures
        ({
            let before = encode_utf8(old(s)@);
            let width = encode_scalar(ch as u32).len();
            &&& ch as u32 == decode_first_scalar(before.subrange(idx as int, before.len() as int))
            &&& encode_utf8(final(s)@) == before.subrange(0, idx as int) + before.subrange(
                idx + width,
                before.len() as int,
            )
        }),
;

/// `String::clear` empties the string.
pub assume_specification[ String::clear ](s: &mut String)
    ensures
        final(s)@ == Seq::<char>::empty(),
;

/// Encoding distributes over concatenation.
pub proof fn lemma_utf8_concat(a: Seq<char>, b: Seq<char>)
    ensures
        encode_utf8(a + b) == encode_utf8(a) + encode_utf8(b),
    decreases a.len(),
{
    if a.len() == 0 {
        assert(a + b =~= b);
        assert(encode_utf8(a) + encode_utf8(b) =~= encode_utf8(b));
    } else {
        lemma_utf8_concat(a.drop_first(), b);
        assert((a + b).drop_first() =~= a.drop_first() + b);
        assert(encode_utf8(a + b) =~= encode_utf8(a) + encode_utf8(b));
    }
}

/// A single codepoint encodes to its scalar encoding, of one to four bytes.
pub proof fn lemma_utf8_single(c: char)
    ensures
        encode_utf8(seq![c]) == encode_scalar(c as u32),
        1 <= encode_scalar(c as u32).len() <= 4,
{
    reveal_with_fuel(encode_utf8, 2);
    assert(seq![c].drop_first() =~= Seq::<char>::empty());
    assert(encode_utf8(seq![c]) =~= encode_scalar(c as u32));
}

/// Two texts with the same encoding are the same text.
pub proof fn lemma_utf8_injective(a: Seq<char>, b: Seq<char>)
    requires
        encode_utf8(a) == encode_utf8(b),
    ensures
        a == b,
{
    encode_utf8_decode_utf8(a);
    encode_utf8_decode_utf8(b);
}

/// Splitting the text at a codepoint index splits its encoding at the byte
/// offset of that index.
pub proof fn lemma_utf8_split(text: Seq<char>, index: int)
    requires
        0 <= index <= text.len(),
    ensures
        byte_offset(text, index) <= encode_utf8(text).len(),
        encode_utf8(text).subrange(0, byte_offset(text, index) as int) == encode_utf8(
            text.take(index),
        ),
        encode_utf8(text).subrange(
            byte_offset(text, index) as int,
            encode_utf8(text).len() as int,
        ) == encode_utf8(text.skip(index)),
{
    lemma_utf8_concat(text.take(index), text.skip(index));
    assert(text.take(index) + text.skip(index) =~= text);
    let head = encode_utf8(text.take(index));
    let tail = encode_utf8(text.skip(index));
    assert((head + tail).subrange(0, head.len() as int) =~= head);
    assert((head + tail).subrange(head.len() as int, (head + tail).len() as int) =~= tail);
}

/// The first codepoint starts at byte offset 0.
pub proof fn lemma_byte_offset_zero(text: Seq<char>)
    ensures
        byte_offset(text, 0) == 0,
{
    assert(text.take(0) =~= Seq::<char>::empty());
}

/// Each further codepoint moves the byte offset on by the length of its encoding.
pub proof fn lemma_byte_offset_step(text: Seq<char>, index: int)
    requires
        0 <= index < text.len(),
    ensures
        byte_offset(text, index + 1) == byte_offset(text, index) + encode_scalar(
            text[index] as u32,
        ).len(),
        byte_offset(text, index) < byte_offset(text, index + 1) <= encode_utf8(text).len(),
        index < byte_offset(text, index + 1),
    decreases index,
{
    lemma_utf8_concat(text.take(index), seq![text[index]]);
    lemma_utf8_single(text[index]);
    assert(text.take(index) + seq![text[index]] =~= text.take(index + 1));
    lemma_utf8_split(text, index + 1);
    if index > 0 {
        lemma_byte_offset_step(text, index - 1);
    }
}

/// A text has at most as many codepoints as its encoding has bytes.
pub proof fn lemma_char_count_bound(text: Seq<char>)
    ensures
        text.len() <= encode_utf8(text).len(),
{
    if text.len() > 0 {
        lemma_byte_offset_step(text, text.len() - 1);
    }
}

/// The byte offset of every codepoint index is a character boundary of the encoding.
pub proof fn lemma_byte_offset_is_boundary(text: Seq<char>, index: int)
    requires
        0 <= index <= text.len(),
    ensures
        is_char_boundary(encode_utf8(text), byte_offset(text, index) as int),
    decreases index,
{
    encode_utf8_valid_utf8(text);
    if index == 0 {
        lemma_byte_offset_zero(text);
    } else {
        let rest = text.drop_first();
        encode_utf8_first_scalar(text);
        assert(pop_first_scalar(encode_utf8(text)) =~= encode_utf8(rest));
        lemma_byte_offset_is_boundary(rest, index - 1);
        lemma_utf8_concat(seq![text[0]], rest.take(index - 1));
        lemma_utf8_single(text[0]);
        assert(seq![text[0]] + rest.take(index - 1) =~= text.take(index));
        lemma_utf8_split(text, index);
    }
}

/// Returns the byte offset of the codepoint with index `char_index`, and the
/// number of codepoints in `string`.
pub fn count_chars_bytes(string: &str, char_index: usize) -> (found: (usize, usize))
    ensures
        found.0 == byte_offset(string@, char_index as int),
        found.1 == string@.len(),
{
    let mut byte_index: usize = string.as_bytes().len();
    let mut offset: usize = 0;
    let mut char_count: usize = 0;
    proof {
        broadcast use vstd::slice::axiom_spec_len;

        lemma_byte_offset_zero(string@);
    }
    for ch in iter: string.chars()
        invariant
            iter.seq() == string@,
            char_count == iter.index(),
            offset == byte_offset(string@, char_count as int),
            char_count <= offset <= encode_utf8(string@).len() <= usize::MAX,
            byte_index == if char_index < char_count {
                byte_offset(string@, char_index as int)
            } else {
                encode_utf8(string@).len()
            },
    {
        proof {
            lemma_byte_offset_step(string@, char_count as int);
        }
        if char_count == char_index {
            byte_index = offset;
        }
        offset = offset + ch.len_utf8();
        char_count = char_count + 1;
    }
    proof {
        assert(string@.take(string@.len() as int) =~= string@);
    }
    (byte_index, char_count)
}

/// Inserts `ch` before the codepoint with index `char_index`, or at the end
/// when `char_index` is the codepoint count.
pub fn insert_char_index(string: &mut String, char_index: usize, ch: char)
    requires
        char_index <= old(string)@.len(),
    ensures
        final(string)@ == old(string)@.insert(char_index as int, ch),
{
    let (byte_index, _) = count_chars_bytes(string.as_str(), char_index);
    proof {
        lemma_byte_offset_is_boundary(string@, char_index as int);
    }
    string.insert(byte_index, ch);
    proof {
        let before = old(string)@;
        let index = char_index as int;
        lemma_utf8_split(before, index);
        lemma_utf8_single(ch);
        lemma_utf8_concat(before.take(index), seq![ch]);
        lemma_utf8_concat(before.take(index) + seq![ch], before.skip(index));
        assert(before.take(index) + seq![ch] + before.skip(index) =~= before.insert(index, ch));
        lemma_utf8_injective(string@, before.insert(index, ch));
    }
}

/// Removes the codepoint with index `char_index` and returns it.
pub fn remove_char_index(string: &mut String, char_index: usize) -> (removed: char)
    requires
        char_index < old(string)@.len(),
    ensures
        removed == old(string)@[char_index as int],
        final(string)@ == old(string)@.remove(char_index as int),
{
    let (byte_index, _) = count_chars_bytes(string.as_str(), char_index);
    proof {
        lemma_byte_offset_is_boundary(string@, char_index as int);
        lemma_byte_offset_step(string@, char_index as int);
    }
    let removed = string.remove(byte_index);
    proof {
        let before = old(string)@;
        let index = char_index as int;
        lemma_utf8_split(before, index);
        lemma_utf8_split(before, index + 1);
        encode_utf8_first_scalar(before.skip(index));
        char_u32_cast(removed, before[index] as u32);
        char_u32_cast(before[index], before[index] as u32);
        lemma_utf8_concat(before.take(index), before.skip(index + 1));
        assert(before.take(index) + before.skip(index + 1) =~= before.remove(index));
        lemma_utf8_injective(string@, before.remove(index));
    }
    removed
}

} // verus!
