//! Scalar values of a text and where their UTF-8 encodings lie in its bytes.

use vstd::prelude::*;
use vstd::string::StringSliceAdditionalSpecFns;
use vstd::utf8::*;

use crate::lexical::bytes_equal;

verus! {

/// Number of bytes that the first `k` scalar values of `text` occupy.
pub open spec fn prefix_bytes(text: Seq<char>, k: int) -> int {
    encode_utf8(text.subrange(0, k)).len() as int
}

/// Width in bytes of the encoding that starts with the leading byte `b`.
pub open spec fn leading_width(b: u8) -> int {
    if is_leading_byte_width_1(b) {
        1
    } else if is_leading_byte_width_2(b) {
        2
    } else if is_leading_byte_width_3(b) {
        3
    } else {
        4
    }
}

/// Encoding distributes over concatenation.
pub proof fn lemma_encode_concat(a: Seq<char>, b: Seq<char>)
    ensures
        encode_utf8(a + b) == encode_utf8(a) + encode_utf8(b),
    decreases a.len(),
{
    if a.len() == 0 {
        assert(a + b =~= b);
        assert(encode_utf8(a) + encode_utf8(b) =~= encode_utf8(b));
    } else {
        lemma_encode_concat(a.drop_first(), b);
        assert((a + b).drop_first() =~= a.drop_first() + b);
        assert(encode_utf8(a + b) =~= encode_utf8(a) + encode_utf8(b));
    }
}

/// The bytes of a text are those of its first `k` scalar values followed by
/// those of the rest.
pub proof fn lemma_encode_split(text: Seq<char>, k: int)
    requires
        0 <= k <= text.len(),
    ensures
        encode_utf8(text) == encode_utf8(text.subrange(0, k)) + encode_utf8(
            text.subrange(k, text.len() as int),
        ),
        encode_utf8(text).subrange(0, prefix_bytes(text, k)) == encode_utf8(text.subrange(0, k)),
        encode_utf8(text).subrange(prefix_bytes(text, k), encode_utf8(text).len() as int)
            == encode_utf8(text.subrange(k, text.len() as int)),
        0 <= prefix_bytes(text, k) <= encode_utf8(text).len(),
{
    let head = text.subrange(0, k);
    let tail = text.subrange(k, text.len() as int);
    assert(text =~= head + tail);
    lemma_encode_concat(head, tail);
    let bytes = encode_utf8(text);
    assert(bytes.subrange(0, prefix_bytes(text, k)) =~= encode_utf8(head));
    assert(bytes.subrange(prefix_bytes(text, k), bytes.len() as int) =~= encode_utf8(tail));
}

/// Two texts with the same bytes are the same text.
pub proof fn lemma_encode_injective(a: Seq<char>, b: Seq<char>)
    requires
        encode_utf8(a) == encode_utf8(b),
    ensures
        a == b,
{
    encode_utf8_decode_utf8(a);
    encode_utf8_decode_utf8(b);
}

/// Every scalar value takes between one and four bytes.
pub proof fn lemma_scalar_width(c: char)
    ensures
        1 <= encode_scalar(c as u32).len() <= 4,
        encode_utf8(seq![c]) == encode_scalar(c as u32),
{
    let s = seq![c];
    assert(s.drop_first() =~= Seq::<char>::empty());
    assert(encode_utf8(s.drop_first()) =~= Seq::<u8>::empty());
    assert(encode_utf8(s) =~= encode_scalar(c as u32));
}

/// The scalar value at index `k` starts at byte `prefix_bytes(text, k)`, and
/// its leading byte tells how many bytes it takes.
pub proof fn lemma_prefix_step(text: Seq<char>, k: int)
    requires
        0 <= k < text.len(),
    ensures
        0 <= prefix_bytes(text, k) < encode_utf8(text).len(),
        prefix_bytes(text, k + 1) == prefix_bytes(text, k) + leading_width(
            encode_utf8(text)[prefix_bytes(text, k)],
        ),
        prefix_bytes(text, k + 1) <= encode_utf8(text).len(),
{
    let bytes = encode_utf8(text);
    let tail = text.subrange(k, text.len() as int);
    lemma_encode_split(text, k);
    lemma_encode_split(text, k + 1);
    encode_utf8_first_scalar(tail);
    lemma_scalar_width(text[k]);
    let head1 = text.subrange(0, k + 1);
    assert(head1 =~= text.subrange(0, k) + seq![text[k]]);
    lemma_encode_concat(text.subrange(0, k), seq![text[k]]);
    let tail_bytes = encode_utf8(tail);
    assert(tail_bytes[0] == bytes[prefix_bytes(text, k)]);
    assert(length_of_first_scalar(tail_bytes) == leading_width(tail_bytes[0]));
}

/// Later scalar values start at later bytes.
pub proof fn lemma_prefix_increasing(text: Seq<char>, i: int, j: int)
    requires
        0 <= i <= j <= text.len(),
    ensures
        prefix_bytes(text, i) + (j - i) <= prefix_bytes(text, j),
    decreases j - i,
{
    if i < j {
        lemma_prefix_increasing(text, i, j - 1);
        lemma_prefix_step(text, j - 1);
    }
}

/// The whole text occupies all of its bytes, and the empty prefix none.
pub proof fn lemma_prefix_ends(text: Seq<char>)
    ensures
        prefix_bytes(text, 0) == 0,
        prefix_bytes(text, text.len() as int) == encode_utf8(text).len(),
{
    assert(text.subrange(0, 0) =~= Seq::<char>::empty());
    assert(text.subrange(0, text.len() as int) =~= text);
}

/// The start of every scalar value, and the end of the text, is a character
/// boundary of its bytes.
pub proof fn lemma_prefix_is_boundary(text: Seq<char>, k: int)
    requires
        0 <= k <= text.len(),
    ensures
        is_char_boundary(encode_utf8(text), prefix_bytes(text, k)),
    decreases k,
{
    let bytes = encode_utf8(text);
    encode_utf8_valid_utf8(text);
    if k == 0 {
        lemma_prefix_ends(text);
    } else {
        let rest = text.drop_first();
        encode_utf8_first_scalar(text);
        assert(pop_first_scalar(bytes) =~= encode_utf8(rest));
        lemma_prefix_is_boundary(rest, k - 1);
        lemma_scalar_width(text[0]);
        assert(text.subrange(0, k) =~= seq![text[0]] + rest.subrange(0, k - 1));
        lemma_encode_concat(seq![text[0]], rest.subrange(0, k - 1));
        lemma_encode_split(text, k);
        assert(prefix_bytes(text, k) == length_of_first_scalar(bytes) + prefix_bytes(rest, k - 1));
    }
}

/// Whether two string slices hold the same text.
pub fn same_text(a: &str, b: &str) -> (r: bool)
    ensures
        r == (a@ == b@),
{
    proof {
        if a.spec_bytes() == b.spec_bytes() {
            lemma_encode_injective(a@, b@);
        }
    }
    bytes_equal(a.as_bytes(), b.as_bytes())
}

/// Width in bytes of the scalar value whose encoding starts with `b`.
pub fn scalar_width(b: u8) -> (w: usize)
    ensures
        w == leading_width(b),
        1 <= w <= 4,
{
    if b <= 0x7f {
        1
    } else if 0xc0 <= b && b <= 0xdf {
        2
    } else if 0xe0 <= b && b <= 0xef {
        3
    } else {
        4
    }
}

/// Byte offset at which the scalar value with index `n` starts in `text`
/// (the end of the text for `n` equal to its length), or `None` when the text
/// holds fewer than `n` scalar values.
pub fn byte_offset_of(text: &str, n: usize) -> (r: Option<usize>)
    ensures
        r is Some <==> n <= text@.len(),
        r matches Some(o) ==> o == prefix_bytes(text@, n as int) && o <= text.spec_bytes().len(),
{
    let bytes = text.as_bytes();
    let len: usize = bytes.len();
    let mut end: usize = 0;
    let mut taken: usize = 0;
    proof {
        lemma_prefix_ends(text@);
    }
    while taken < n && end < len
        invariant
            bytes@ == encode_utf8(text@),
            len == bytes@.len(),
            taken <= n,
            taken <= text@.len(),
            end == prefix_bytes(text@, taken as int),
            end <= len,
        decreases len - end,
    {
        proof {
            lemma_prefix_ends(text@);
            lemma_prefix_step(text@, taken as int);
        }
        let w: usize = scalar_width(bytes[end]);
        end = end + w;
        taken = taken + 1;
    }
    proof {
        lemma_prefix_ends(text@);
        if taken < text@.len() {
            lemma_prefix_increasing(text@, taken as int, text@.len() as int);
        }
    }
    if taken < n {
        None
    } else {
        Some(end)
    }
}

} // verus!
