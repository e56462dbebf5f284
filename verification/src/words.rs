//! Finding the first word of a text: everything that stands before its first
//! space.
//!
//! A text is scanned byte by byte in its UTF-8 encoding. The results are
//! stated both over the bytes and over the characters of the text.

use vstd::prelude::*;
use vstd::utf8::*;

verus! {

/// The byte that ends a word: an ASCII space.
pub const SPACE: u8 = 0x20;

/// Whether the first word of `text` ends at `end`: no `sep` stands before
/// `end`, and `end` is the place of a `sep` or the end of `text`.
pub open spec fn is_word_end<T>(text: Seq<T>, sep: T, end: int) -> bool {
    &&& 0 <= end <= text.len()
    &&& forall|i: int| 0 <= i < end ==> text[i] != sep
    &&& end < text.len() ==> text[end] == sep
}

/// The place of the first `sep` in `text`; the length of `text` where it
/// holds none.
pub open spec fn word_end<T>(text: Seq<T>, sep: T) -> int {
    match text.index_of_first(sep) {
        Some(i) => i,
        None => text.len() as int,
    }
}

/// `word_end` is a place where the first word ends.
pub proof fn lemma_word_end_is_word_end<T>(text: Seq<T>, sep: T)
    ensures
        is_word_end(text, sep, word_end(text, sep)),
{
    text.index_of_first_ensures(sep);
}

/// The first word ends in one place only.
pub proof fn lemma_word_end_unique<T>(text: Seq<T>, sep: T, end: int)
    requires
        is_word_end(text, sep, end),
    ensures
        end == word_end(text, sep),
{
    lemma_word_end_is_word_end(text, sep);
}

/// The first word of `text`: the characters before its first space, or all
/// of `text` where it holds no space.
pub open spec fn leading_word(text: Seq<char>) -> Seq<char> {
    text.subrange(0, word_end(text, ' '))
}

/// A word goes on over every block that holds no `sep`: the word of
/// `head + tail` ends where the word of `tail` ends, moved by the length of
/// `head`.
pub proof fn lemma_word_end_skips<T>(head: Seq<T>, tail: Seq<T>, sep: T)
    requires
        forall|i: int| 0 <= i < head.len() ==> head[i] != sep,
    ensures
        word_end(head + tail, sep) == head.len() + word_end(tail, sep),
{
    let end = word_end(tail, sep);
    lemma_word_end_is_word_end(tail, sep);
    assert forall|i: int| 0 <= i < head.len() + end implies (head + tail)[i] != sep by {
        if i >= head.len() {
            assert((head + tail)[i] == tail[i - head.len()]);
        }
    }
    if end < tail.len() {
        assert((head + tail)[head.len() + end] == tail[end]);
    }
    lemma_word_end_unique(head + tail, sep, head.len() + end);
}

/// The only scalar value whose UTF-8 encoding holds the byte `SPACE` is the
/// space character, and its encoding is that one byte.
proof fn lemma_encode_scalar_space(scalar: u32)
    by (bit_vector)
    requires
        is_scalar(scalar),
    ensures
        scalar == 0x20 ==> leading_byte_width_1(scalar) == 0x20u8,
        scalar != 0x20 && has_width_1_encoding(scalar) ==> leading_byte_width_1(scalar) != 0x20u8,
        leading_byte_width_2(scalar) != 0x20u8,
        leading_byte_width_3(scalar) != 0x20u8,
        leading_byte_width_4(scalar) != 0x20u8,
        last_continuation_byte(scalar) != 0x20u8,
        second_last_continuation_byte(scalar) != 0x20u8,
        third_last_continuation_byte(scalar) != 0x20u8,
{
}

/// The encoding of a character other than the space holds no `SPACE`; the
/// encoding of the space is the single byte `SPACE`.
pub proof fn lemma_encode_char_space(c: char)
    ensures
        c == ' ' ==> encode_scalar(c as u32) == seq![SPACE],
        c != ' ' ==> forall|i: int|
            0 <= i < encode_scalar(c as u32).len() ==> #[trigger] encode_scalar(c as u32)[i]
                != SPACE,
        1 <= encode_scalar(c as u32).len() <= 4,
{
    char_is_scalar(c);
    lemma_encode_scalar_space(c as u32);
    if c == ' ' {
        assert(encode_scalar(c as u32) =~= seq![SPACE]);
    }
}

/// Scanning the bytes and scanning the characters find the same word: in the
/// UTF-8 encoding of `text`, the bytes before the first `SPACE` are the
/// encoding of the first word of `text`.
pub proof fn lemma_word_end_utf8(text: Seq<char>)
    ensures
        encode_utf8(text).subrange(0, word_end(encode_utf8(text), SPACE)) == encode_utf8(
            leading_word(text),
        ),
        word_end(encode_utf8(text), SPACE) == encode_utf8(leading_word(text)).len(),
    decreases text.len(),
{
    let bytes = encode_utf8(text);
    let word = leading_word(text);
    lemma_word_end_is_word_end(bytes, SPACE);
    lemma_word_end_is_word_end(text, ' ');
    if text.len() == 0 {
        assert(word =~= text);
        assert(bytes.subrange(0, 0) =~= bytes);
    } else {
        // `bytes` is the encoding of the first character, `head`, followed by
        // the encoding of the others.
        let c = text[0];
        let rest = text.drop_first();
        let head = encode_scalar(c as u32);
        lemma_encode_char_space(c);
        if c == ' ' {
            // Both scans stop at once: the word is empty.
            lemma_word_end_unique(text, ' ', 0);
            lemma_word_end_unique(bytes, SPACE, 0);
            assert(word =~= Seq::<char>::empty());
            assert(bytes.subrange(0, 0) =~= encode_utf8(word));
        } else {
            // Both scans pass the first character and go on in the rest, for
            // which the claim holds by induction.
            let rest_bytes = encode_utf8(rest);
            let rest_word = leading_word(rest);
            lemma_word_end_utf8(rest);
            lemma_word_end_skips(head, rest_bytes, SPACE);
            lemma_word_end_skips(seq![c], rest, ' ');
            assert(text =~= seq![c] + rest);
            assert(word.drop_first() =~= rest_word);
            assert(bytes.subrange(0, head.len() + word_end(rest_bytes, SPACE)) =~= head
                + rest_bytes.subrange(0, word_end(rest_bytes, SPACE)));
        }
    }
}

/// In a text of ASCII characters the bytes and the characters stand at the
/// same places, so the first word ends at the same index in both.
pub proof fn lemma_word_end_ascii(text: Seq<char>)
    requires
        is_ascii_chars(text),
    ensures
        word_end(encode_utf8(text), SPACE) == word_end(text, ' '),
{
    lemma_word_end_utf8(text);
    lemma_word_end_is_word_end(text, ' ');
    is_ascii_chars_encode_utf8(leading_word(text));
}

/// The byte index at which the first word of `s` ends: the index of the
/// first space, or the length of `s` in bytes where it holds no space.
pub fn first_word_noslice(s: &String) -> (end: usize)
    ensures
        is_word_end(encode_utf8(s@), SPACE, end as int),
        end == word_end(encode_utf8(s@), SPACE),
        end == encode_utf8(leading_word(s@)).len(),
{
    let bytes = s.as_str().as_bytes();
    let mut i: usize = 0;
    while i < bytes.len()
        invariant
            i <= bytes@.len(),
            bytes@ == encode_utf8(s@),
            forall|j: int| 0 <= j < i ==> bytes@[j] != SPACE,
        decreases bytes@.len() - i,
    {
        if bytes[i] == SPACE {
            proof {
                lemma_word_end_unique(bytes@, SPACE, i as int);
                lemma_word_end_utf8(s@);
            }
            return i;
        }
        i += 1;
    }
    proof {
        lemma_word_end_unique(bytes@, SPACE, i as int);
        lemma_word_end_utf8(s@);
    }
    s.as_str().len()
}

/// The first word of `s`: the part of `s` before its first space, or all of
/// `s` where it holds no space.
pub fn first_word(s: &str) -> (word: &str)
    ensures
        word@ == leading_word(s@),
{
    let bytes = s.as_bytes();
    let mut i: usize = 0;
    while i < bytes.len()
        invariant
            i <= bytes@.len(),
            bytes@ == encode_utf8(s@),
            forall|j: int| 0 <= j < i ==> bytes@[j] != SPACE,
        decreases bytes@.len() - i,
    {
        if bytes[i] == SPACE {
            proof {
                lemma_word_end_unique(bytes@, SPACE, i as int);
                // A space is no continuation byte, so a character starts here
                // and the text may be split.
                encode_utf8_valid_utf8(s@);
                is_char_boundary_iff_not_is_continuation_byte(bytes@, i as int);
            }
            let (word, _) = s.split_at(i);
            proof {
                // `word` and the first word of `s` have the same encoding,
                // and decoding gives back what was encoded.
                lemma_word_end_utf8(s@);
                encode_utf8_decode_utf8(word@);
                encode_utf8_decode_utf8(leading_word(s@));
            }
            return word;
        }
        i += 1;
    }
    proof {
        // No space was found: the first word has the encoding of all of `s`.
        lemma_word_end_unique(bytes@, SPACE, i as int);
        lemma_word_end_utf8(s@);
        assert(bytes@.subrange(0, i as int) =~= bytes@);
        encode_utf8_decode_utf8(s@);
        encode_utf8_decode_utf8(leading_word(s@));
    }
    s
}

} // verus!
