//! Prefixes and equality of strings, decided on their bytes and stated on
//! their characters.

use vstd::prelude::*;
use vstd::utf8::{
    decode_utf8, decode_utf8_split, encode_utf8, encode_utf8_decode_utf8, encode_utf8_valid_utf8,
    is_char_boundary, length_of_first_scalar, pop_first_scalar, valid_first_scalar, valid_utf8,
};

verus! {

/// The number of bytes that a text takes in UTF-8.
pub open spec fn byte_len(text: Seq<char>) -> nat {
    encode_utf8(text).len()
}

/// The encoding of two texts joined is the two encodings joined.
pub proof fn lemma_encode_concat(left: Seq<char>, right: Seq<char>)
    ensures
        encode_utf8(left + right) == encode_utf8(left) + encode_utf8(right),
    decreases left.len(),
{
    if left.len() == 0 {
        assert(left + right =~= right);
        assert(encode_utf8(left) + encode_utf8(right) =~= encode_utf8(right));
    } else {
        let whole = left + right;
        assert(whole[0] == left[0]);
        assert(whole.drop_first() =~= left.drop_first() + right);
        lemma_encode_concat(left.drop_first(), right);
        assert(encode_utf8(whole) =~= encode_utf8(left) + encode_utf8(right));
    }
}

/// The byte length of two texts joined is the sum of their byte lengths.
pub proof fn lemma_byte_len_concat(left: Seq<char>, right: Seq<char>)
    ensures
        byte_len(left + right) == byte_len(left) + byte_len(right),
{
    lemma_encode_concat(left, right);
}

/// Two texts with the same encoding are the same text.
pub proof fn lemma_encode_injective(left: Seq<char>, right: Seq<char>)
    requires
        encode_utf8(left) == encode_utf8(right),
    ensures
        left == right,
{
    encode_utf8_decode_utf8(left);
    encode_utf8_decode_utf8(right);
}

/// Where one text begins another, its encoding begins the other's encoding.
pub proof fn lemma_prefix_encodes_to_prefix(pattern: Seq<char>, text: Seq<char>)
    requires
        pattern.is_prefix_of(text),
    ensures
        encode_utf8(pattern).is_prefix_of(encode_utf8(text)),
{
    let rest = text.skip(pattern.len() as int);
    assert(text =~= pattern + rest);
    lemma_encode_concat(pattern, rest);
}

/// Where a valid encoding begins another, it ends on a character boundary
/// of the other.
proof fn lemma_prefix_ends_on_boundary(pattern: Seq<u8>, bytes: Seq<u8>)
    requires
        valid_utf8(pattern),
        valid_utf8(bytes),
        pattern.is_prefix_of(bytes),
    ensures
        is_char_boundary(bytes, pattern.len() as int),
    decreases pattern.len(),
{
    if pattern.len() > 0 {
        let width: int = length_of_first_scalar(pattern);
        assert(valid_first_scalar(pattern));
        assert(width <= pattern.len());
        assert(forall|i: int| 0 <= i < width ==> pattern[i] == bytes[i]);
        assert(length_of_first_scalar(bytes) == width);
        assert(valid_first_scalar(bytes));
        let pattern_rest = pop_first_scalar(pattern);
        let bytes_rest = pop_first_scalar(bytes);
        assert(pattern_rest.is_prefix_of(bytes_rest));
        lemma_prefix_ends_on_boundary(pattern_rest, bytes_rest);
        assert(pattern_rest.len() == pattern.len() - width);
    }
}

/// Where the encoding of one text begins the encoding of another, the first
/// text begins the second, and what follows it decodes from the bytes that
/// follow its encoding.
pub proof fn lemma_encoded_prefix_is_prefix(pattern: Seq<char>, text: Seq<char>)
    requires
        encode_utf8(pattern).is_prefix_of(encode_utf8(text)),
    ensures
        pattern.is_prefix_of(text),
        text.skip(pattern.len() as int) == decode_utf8(
            encode_utf8(text).skip(byte_len(pattern) as int),
        ),
{
    let pattern_bytes = encode_utf8(pattern);
    let bytes = encode_utf8(text);
    let mid: int = pattern_bytes.len() as int;
    encode_utf8_valid_utf8(pattern);
    encode_utf8_valid_utf8(text);
    lemma_prefix_ends_on_boundary(pattern_bytes, bytes);
    decode_utf8_split(bytes, mid);
    assert(bytes.subrange(0, mid) =~= pattern_bytes);
    assert(bytes.subrange(mid, bytes.len() as int) =~= bytes.skip(mid));
    encode_utf8_decode_utf8(pattern);
    encode_utf8_decode_utf8(text);
    let rest = decode_utf8(bytes.skip(mid));
    assert(text =~= pattern + rest);
    assert(text.skip(pattern.len() as int) =~= rest);
}

/// One text begins another exactly where its encoding begins the other's.
pub proof fn lemma_prefix_iff_encoded_prefix(pattern: Seq<char>, text: Seq<char>)
    ensures
        pattern.is_prefix_of(text) <==> encode_utf8(pattern).is_prefix_of(encode_utf8(text)),
{
    if pattern.is_prefix_of(text) {
        lemma_prefix_encodes_to_prefix(pattern, text);
    }
    if encode_utf8(pattern).is_prefix_of(encode_utf8(text)) {
        lemma_encoded_prefix_is_prefix(pattern, text);
    }
}

/// Tells whether the first `count` bytes of `left` and of `right` agree.
fn bytes_agree(left: &[u8], right: &[u8], count: usize) -> (same: bool)
    requires
        count <= left@.len(),
        count <= right@.len(),
    ensures
        same == (left@.subrange(0, count as int) == right@.subrange(0, count as int)),
{
    let mut i: usize = 0;
    while i < count
        invariant
            i <= count,
            count <= left@.len(),
            count <= right@.len(),
            left@.subrange(0, i as int) == right@.subrange(0, i as int),
        decreases count - i,
    {
        if left[i] != right[i] {
            assert(left@.subrange(0, count as int)[i as int] != right@.subrange(
                0,
                count as int,
            )[i as int]);
            return false;
        }
        assert(left@.subrange(0, i + 1) =~= left@.subrange(0, i as int).push(left@[i as int]));
        assert(right@.subrange(0, i + 1) =~= right@.subrange(0, i as int).push(right@[i as int]));
        i += 1;
    }
    true
}

/// The number of bytes that a string takes.
pub fn byte_length(text: &str) -> (count: usize)
    ensures
        count == byte_len(text@),
{
    text.as_bytes().len()
}

/// Tells whether two strings hold the same text.
pub fn same_text(left: &str, right: &str) -> (same: bool)
    ensures
        same == (left@ == right@),
{
    let left_bytes = left.as_bytes();
    let right_bytes = right.as_bytes();
    if left_bytes.len() != right_bytes.len() {
        return false;
    }
    let same = bytes_agree(left_bytes, right_bytes, left_bytes.len());
    proof {
        assert(left_bytes@.subrange(0, left_bytes@.len() as int) =~= left_bytes@);
        assert(right_bytes@.subrange(0, right_bytes@.len() as int) =~= right_bytes@);
        if same {
            lemma_encode_injective(left@, right@);
        }
    }
    same
}

/// Takes `pattern` from the front of `input`: the rest of `input` where
/// `pattern` begins it, and `None` where it does not.
pub fn strip_prefix<'a>(input: &'a str, pattern: &str) -> (rest: Option<&'a str>)
    ensures
        match rest {
            Some(rest) => pattern@.is_prefix_of(input@) && rest@ == input@.skip(
                pattern@.len() as int,
            ),
            None => !pattern@.is_prefix_of(input@),
        },
{
    let input_bytes = input.as_bytes();
    let pattern_bytes = pattern.as_bytes();
    let count: usize = pattern_bytes.len();
    proof {
        lemma_prefix_iff_encoded_prefix(pattern@, input@);
    }
    if count > input_bytes.len() {
        return None;
    }
    assert(pattern_bytes@.subrange(0, count as int) =~= pattern_bytes@);
    if !bytes_agree(pattern_bytes, input_bytes, count) {
        return None;
    }
    proof {
        lemma_encoded_prefix_is_prefix(pattern@, input@);
        encode_utf8_valid_utf8(pattern@);
        encode_utf8_valid_utf8(input@);
        lemma_prefix_ends_on_boundary(pattern_bytes@, input_bytes@);
    }
    let (_, rest) = input.split_at(count);
    proof {
        encode_utf8_decode_utf8(rest@);
        assert(input_bytes@.skip(count as int) =~= input_bytes@.subrange(
            count as int,
            input_bytes@.len() as int,
        ));
    }
    Some(rest)
}

} // verus!
