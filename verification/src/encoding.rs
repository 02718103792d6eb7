//! UTF-8 keeps substrings: a text holds another as a block of characters
//! exactly when its encoding holds the other's encoding as a block of bytes.
//! This is what lets a search run on the bytes of two strings.

use crate::text::{is_substring, occurs_at};
use vstd::prelude::*;
use vstd::utf8::*;

verus! {

/// The encoding of two texts joined is their two encodings joined.
pub proof fn lemma_encode_concat(a: Seq<char>, b: Seq<char>)
    ensures
        encode_utf8(a + b) == encode_utf8(a) + encode_utf8(b),
    decreases a.len(),
{
    if a.len() == 0 {
        assert(a + b =~= b);
    } else {
        lemma_encode_concat(a.drop_first(), b);
        assert((a + b).drop_first() =~= a.drop_first() + b);
    }
}

/// Where one valid encoding begins with another, its text begins with the
/// other's text: the first character of both is read from the same bytes,
/// and so is every one after it.
pub proof fn lemma_decode_prefix(front: Seq<u8>, whole: Seq<u8>)
    requires
        valid_utf8(front),
        valid_utf8(whole),
        front.is_prefix_of(whole),
    ensures
        decode_utf8(front).is_prefix_of(decode_utf8(whole)),
    decreases front.len(),
{
    if front.len() > 0 {
        assert(length_of_first_scalar(front) == length_of_first_scalar(whole));
        assert(decode_first_scalar(front) == decode_first_scalar(whole));
        assert(pop_first_scalar(front).is_prefix_of(pop_first_scalar(whole)));
        lemma_decode_prefix(pop_first_scalar(front), pop_first_scalar(whole));
    }
}

/// A block of characters in a text is a block of bytes in its encoding.
proof fn lemma_chars_to_bytes(haystack: Seq<char>, needle: Seq<char>, at: int)
    requires
        occurs_at(haystack, needle, at),
    ensures
        is_substring(encode_utf8(haystack), encode_utf8(needle)),
{
    let before = haystack.subrange(0, at);
    let after = haystack.subrange(at + needle.len(), haystack.len() as int);
    assert(haystack =~= before + needle + after);
    lemma_encode_concat(before + needle, after);
    lemma_encode_concat(before, needle);
    let place = encode_utf8(before).len() as int;
    assert(encode_utf8(haystack).subrange(place, place + encode_utf8(needle).len())
        =~= encode_utf8(needle));
    assert(occurs_at(encode_utf8(haystack), encode_utf8(needle), place));
}

/// A block of bytes in an encoding, where the block is an encoding too, is a
/// block of characters in the text. The block starts with a byte that opens
/// a character, so it starts on a boundary of the text; from there on the
/// text is read from the bytes of the block.
proof fn lemma_bytes_to_chars(haystack: Seq<char>, needle: Seq<char>, place: int)
    requires
        occurs_at(encode_utf8(haystack), encode_utf8(needle), place),
    ensures
        is_substring(haystack, needle),
{
    broadcast use {encode_utf8_valid_utf8, encode_utf8_decode_utf8};

    let bytes = encode_utf8(haystack);
    let block = encode_utf8(needle);
    if needle.len() == 0 {
        assert(haystack.subrange(0, 0) =~= needle);
        assert(occurs_at(haystack, needle, 0));
    } else {
        assert(is_char_boundary(bytes, place)) by {
            encode_utf8_first_scalar(needle);
            is_char_boundary_start_end_of_seq(block);
            is_char_boundary_iff_not_is_continuation_byte(block, 0);
            assert(bytes[place] == bytes.subrange(place, place + block.len())[0]);
            is_char_boundary_iff_not_is_continuation_byte(bytes, place);
        }
        let head = bytes.subrange(0, place);
        let tail = bytes.subrange(place, bytes.len() as int);
        valid_utf8_split(bytes, place);
        decode_utf8_split(bytes, place);
        assert(haystack == decode_utf8(head) + decode_utf8(tail));
        assert(block.is_prefix_of(tail)) by {
            assert(tail.subrange(0, block.len() as int) =~= bytes.subrange(
                place,
                place + block.len(),
            ));
        }
        lemma_decode_prefix(block, tail);
        let at = decode_utf8(head).len() as int;
        assert(haystack.subrange(at, at + needle.len()) =~= needle);
        assert(occurs_at(haystack, needle, at));
    }
}

/// A text holds another as a block of characters exactly when its encoding
/// holds the other's encoding as a block of bytes.
pub proof fn lemma_utf8_keeps_substrings(haystack: Seq<char>, needle: Seq<char>)
    ensures
        is_substring(encode_utf8(haystack), encode_utf8(needle)) <==> is_substring(
            haystack,
            needle,
        ),
{
    if is_substring(haystack, needle) {
        let at = choose|at: int| occurs_at(haystack, needle, at);
        lemma_chars_to_bytes(haystack, needle, at);
    }
    if is_substring(encode_utf8(haystack), encode_utf8(needle)) {
        let place = choose|place: int|
            occurs_at(encode_utf8(haystack), encode_utf8(needle), place);
        lemma_bytes_to_chars(haystack, needle, place);
    }
}

} // verus!
