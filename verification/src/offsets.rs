//! Byte offsets of characters in a UTF-8 text.

use vstd::prelude::*;
use vstd::utf8::*;

verus! {

/// The number of bytes that `c` takes in UTF-8.
pub open spec fn utf8_width(c: char) -> nat {
    encode_scalar(c as u32).len()
}

/// The byte offset at which the character with index `i` begins in the UTF-8
/// form of `s`; for `i == s.len()`, the length of that form.
pub open spec fn byte_offset(s: Seq<char>, i: int) -> nat {
    encode_utf8(s.take(i)).len()
}

/// Computes the UTF-8 width of a character from its code point.
pub fn utf8_width_of(c: char) -> (n: usize)
    ensures
        n == utf8_width(c),
        1 <= n <= 4,
{
    let code: u32 = c as u32;
    proof {
        char_is_scalar(c);
    }
    if code < 0x80 {
        1
    } else if code < 0x800 {
        2
    } else if code < 0x10000 {
        3
    } else {
        4
    }
}

/// The UTF-8 form of a concatenation is the concatenation of the UTF-8 forms.
pub proof fn lemma_encode_concat(a: Seq<char>, b: Seq<char>)
    ensures
        encode_utf8(a + b) == encode_utf8(a) + encode_utf8(b),
    decreases a.len(),
{
    if a.len() == 0 {
        assert(a + b =~= b);
        assert(encode_utf8(a) + encode_utf8(b) =~= encode_utf8(b));
    } else {
        lemma_encode_concat(a.drop_first(), b);
        assert((a + b).drop_first() =~= a.drop_first() + b);
        assert(encode_utf8(a + b) =~= encode_utf8(a) + encode_utf8(b));
    }
}

/// The UTF-8 form of a text of one character.
pub proof fn lemma_encode_single(c: char)
    ensures
        encode_utf8(seq![c]) == encode_scalar(c as u32),
{
    let s = seq![c];
    assert(s.drop_first() =~= Seq::<char>::empty());
    assert(encode_utf8(s.drop_first()) =~= Seq::<u8>::empty());
    assert(encode_utf8(s) =~= encode_scalar(c as u32));
}

/// Offsets begin at zero and grow by the width of each character.
pub proof fn lemma_offset_step(s: Seq<char>, i: int)
    requires
        0 <= i < s.len(),
    ensures
        byte_offset(s, 0) == 0,
        byte_offset(s, i + 1) == byte_offset(s, i) + utf8_width(s[i]),
        1 <= utf8_width(s[i]) <= 4,
{
    assert(s.take(0) =~= Seq::<char>::empty());
    assert(s.take(i + 1) =~= s.take(i) + seq![s[i]]);
    lemma_encode_concat(s.take(i), seq![s[i]]);
    lemma_encode_single(s[i]);
    char_is_scalar(s[i]);
}

/// Offsets grow with the index and end at the length of the UTF-8 form.
pub proof fn lemma_offset_monotonic(s: Seq<char>, i: int, j: int)
    requires
        0 <= i <= j <= s.len(),
    ensures
        byte_offset(s, i) <= byte_offset(s, j),
        i < j ==> byte_offset(s, i) < byte_offset(s, j),
        byte_offset(s, j) <= encode_utf8(s).len(),
        byte_offset(s, s.len() as int) == encode_utf8(s).len(),
        byte_offset(s, j) - byte_offset(s, i) >= j - i,
    decreases j - i,
{
    assert(s.take(s.len() as int) =~= s);
    if i < j {
        lemma_offset_step(s, j - 1);
        lemma_offset_monotonic(s, i, j - 1);
    }
    lemma_encode_concat(s.take(j), s.skip(j));
    assert(s.take(j) + s.skip(j) =~= s);
}

/// The bytes between two offsets are the UTF-8 form of the characters between
/// the two indices.
pub proof fn lemma_bytes_between(s: Seq<char>, i: int, j: int)
    requires
        0 <= i <= j <= s.len(),
    ensures
        byte_offset(s, i) <= byte_offset(s, j) <= encode_utf8(s).len(),
        encode_utf8(s).subrange(byte_offset(s, i) as int, byte_offset(s, j) as int)
            == encode_utf8(s.subrange(i, j)),
{
    lemma_offset_monotonic(s, i, j);
    let a = s.take(i);
    let b = s.subrange(i, j);
    let c = s.skip(j);
    assert(s.take(j) =~= a + b);
    assert(s =~= (a + b) + c);
    lemma_encode_concat(a, b);
    lemma_encode_concat(a + b, c);
    assert(encode_utf8(s) == (encode_utf8(a) + encode_utf8(b)) + encode_utf8(c));
    assert(encode_utf8(s).subrange(byte_offset(s, i) as int, byte_offset(s, j) as int)
        =~= encode_utf8(b));
}

/// Decoding the bytes between two offsets gives back the characters between
/// the two indices.
pub proof fn lemma_text_between(s: Seq<char>, i: int, j: int)
    requires
        0 <= i <= j <= s.len(),
    ensures
        decode_utf8(encode_utf8(s).subrange(byte_offset(s, i) as int, byte_offset(s, j) as int))
            == s.subrange(i, j),
{
    lemma_bytes_between(s, i, j);
    encode_utf8_decode_utf8(s.subrange(i, j));
}

/// Every offset of a character is a character boundary of the UTF-8 form.
pub proof fn lemma_offset_is_boundary(s: Seq<char>, i: int)
    requires
        0 <= i <= s.len(),
    ensures
        is_char_boundary(encode_utf8(s), byte_offset(s, i) as int),
    decreases i,
{
    let bytes = encode_utf8(s);
    encode_utf8_valid_utf8(s);
    if i == 0 {
        assert(s.take(0) =~= Seq::<char>::empty());
    } else {
        let rest = s.drop_first();
        encode_utf8_first_scalar(s);
        assert(pop_first_scalar(bytes) =~= encode_utf8(rest));
        lemma_offset_is_boundary(rest, i - 1);
        assert(s.take(i) =~= seq![s[0]] + rest.take(i - 1));
        lemma_encode_concat(seq![s[0]], rest.take(i - 1));
        lemma_encode_single(s[0]);
        char_is_scalar(s[0]);
        lemma_offset_monotonic(s, 0, i);
        assert(byte_offset(s, i) == length_of_first_scalar(bytes) + byte_offset(rest, i - 1));
    }
}

} // verus!
