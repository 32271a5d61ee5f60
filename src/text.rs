//! Positions in a source text: byte offsets of its UTF-8 encoding, rows and
//! columns, and how a text splits at the end of a prefix.
use vstd::prelude::*;
use vstd::utf8::*;
use crate::chars::width;

verus! {

broadcast use vstd::utf8::group_utf8_lib;

/// Byte offset of the character at index `i` of `s`.
pub open spec fn byte_at(s: Seq<char>, i: int) -> nat {
    encode_utf8(s.subrange(0, i)).len()
}

/// Row (counted from 1) of the character at index `i` of `s`: one more than
/// the number of line feeds before it.
pub open spec fn row_at(s: Seq<char>, i: int) -> int
    decreases i,
{
    if i <= 0 {
        1
    } else if s[i - 1] == '\n' {
        row_at(s, i - 1) + 1
    } else {
        row_at(s, i - 1)
    }
}

/// Column (counted from 1) of the character at index `i` of `s`: one more
/// than the number of characters between it and the line feed before it.
pub open spec fn col_at(s: Seq<char>, i: int) -> int
    decreases i,
{
    if i <= 0 {
        1
    } else if s[i - 1] == '\n' {
        1
    } else {
        col_at(s, i - 1) + 1
    }
}

/// The encoding of a concatenation is the concatenation of the encodings.
pub proof fn lemma_encode_concat(a: Seq<char>, b: Seq<char>)
    ensures
        encode_utf8(a + b) == encode_utf8(a) + encode_utf8(b),
    decreases a.len(),
{
    if a.len() == 0 {
        assert(a + b =~= b);
    } else {
        assert((a + b).drop_first() =~= a.drop_first() + b);
        lemma_encode_concat(a.drop_first(), b);
    }
}

/// Each character takes at least one byte.
pub proof fn lemma_encode_len(s: Seq<char>)
    ensures
        s.len() <= encode_utf8(s).len(),
    decreases s.len(),
{
    if s.len() > 0 {
        lemma_encode_len(s.drop_first());
    }
}

/// Encoding is one to one.
pub proof fn lemma_encode_injective(a: Seq<char>, b: Seq<char>)
    requires
        encode_utf8(a) == encode_utf8(b),
    ensures
        a == b,
{
    encode_utf8_decode_utf8(a);
    encode_utf8_decode_utf8(b);
}

/// The byte offset of the next character adds the width of this one.
pub proof fn lemma_byte_at_next(s: Seq<char>, i: int)
    requires
        0 <= i < s.len(),
    ensures
        byte_at(s, i + 1) == byte_at(s, i) + width(s[i]),
        byte_at(s, i + 1) <= encode_utf8(s).len(),
{
    let c = seq![s[i]];
    assert(s.subrange(0, i + 1) =~= s.subrange(0, i) + c);
    lemma_encode_concat(s.subrange(0, i), c);
    assert(c.drop_first() =~= Seq::<char>::empty());
    assert(encode_utf8(c.drop_first()) =~= Seq::<u8>::empty());
    assert(encode_utf8(c) =~= encode_scalar(s[i] as u32));
    assert(s =~= s.subrange(0, i + 1) + s.subrange(i + 1, s.len() as int));
    lemma_encode_concat(s.subrange(0, i + 1), s.subrange(i + 1, s.len() as int));
}

/// The end of the encoding of each prefix is a character boundary, and the
/// encoding splits there into the encodings of the two parts.
pub proof fn lemma_prefix_boundary(s: Seq<char>, k: int)
    requires
        0 <= k <= s.len(),
    ensures
        byte_at(s, k) <= encode_utf8(s).len(),
        is_char_boundary(encode_utf8(s), byte_at(s, k) as int),
        encode_utf8(s).subrange(0, byte_at(s, k) as int) == encode_utf8(s.subrange(0, k)),
        encode_utf8(s).subrange(byte_at(s, k) as int, encode_utf8(s).len() as int)
            == encode_utf8(s.subrange(k, s.len() as int)),
    decreases k,
{
    let bytes = encode_utf8(s);
    let pre = s.subrange(0, k);
    let post = s.subrange(k, s.len() as int);
    assert(s =~= pre + post);
    lemma_encode_concat(pre, post);
    assert(bytes.subrange(0, byte_at(s, k) as int) =~= encode_utf8(pre));
    assert(bytes.subrange(byte_at(s, k) as int, bytes.len() as int) =~= encode_utf8(post));
    encode_utf8_valid_utf8(s);
    if k == 0 {
    } else {
        let t = s.drop_first();
        encode_utf8_first_scalar(s);
        assert(pop_first_scalar(bytes) =~= encode_utf8(t));
        lemma_prefix_boundary(t, k - 1);
        assert(pre.drop_first() =~= t.subrange(0, k - 1));
        assert(byte_at(s, k) == width(s[0]) + byte_at(t, k - 1));
        encode_utf8_valid_utf8(t);
    }
}

/// Rows and columns stay within the number of characters before.
pub proof fn lemma_position_bounds(s: Seq<char>, i: int)
    requires
        0 <= i,
    ensures
        1 <= row_at(s, i) <= i + 1,
        1 <= col_at(s, i) <= i + 1,
    decreases i,
{
    if i > 0 {
        lemma_position_bounds(s, i - 1);
    }
}

/// A later character stands on a later row, or on the same row further right.
pub proof fn lemma_position_order(s: Seq<char>, i: int, j: int)
    requires
        0 <= i < j,
    ensures
        row_at(s, i) < row_at(s, j) || (row_at(s, i) == row_at(s, j) && col_at(s, i) < col_at(
            s,
            j,
        )),
    decreases j,
{
    if i < j - 1 {
        lemma_position_order(s, i, j - 1);
    }
}

} // verus!
