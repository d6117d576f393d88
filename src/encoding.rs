//! Byte offsets of symbols inside a UTF-8 string, and slicing by symbol index.
use vstd::prelude::*;
use vstd::utf8::*;
use vstd::string::*;

verus! {

broadcast use {encode_utf8_valid_utf8, encode_utf8_decode_utf8, char_is_scalar};

/// Number of bytes that `c` takes in UTF-8.
pub open spec fn utf8_width(c: char) -> nat {
    encode_scalar(c as u32).len()
}

/// Byte length of the UTF-8 encoding of the first `k` symbols of `cs`.
pub open spec fn byte_offset_of(cs: Seq<char>, k: int) -> nat {
    encode_utf8(cs.take(k)).len()
}

/// A single symbol encodes to its scalar's bytes.
pub proof fn lemma_encode_single(c: char)
    ensures
        encode_utf8(seq![c]) == encode_scalar(c as u32),
{
    let s = seq![c];
    assert(s.drop_first() =~= Seq::<char>::empty());
    assert(encode_utf8(s) == encode_scalar(s[0] as u32) + encode_utf8(s.drop_first()));
    assert(encode_scalar(c as u32) + Seq::<u8>::empty() =~= encode_scalar(c as u32));
}

/// Encoding distributes over concatenation.
pub proof fn lemma_encode_concat(a: Seq<char>, b: Seq<char>)
    ensures
        encode_utf8(a + b) == encode_utf8(a) + encode_utf8(b),
    decreases a.len(),
{
    if a.len() == 0 {
        assert(a + b =~= b);
        assert(encode_utf8(a) =~= Seq::<u8>::empty());
        assert(Seq::<u8>::empty() + encode_utf8(b) =~= encode_utf8(b));
    } else {
        lemma_encode_concat(a.drop_first(), b);
        assert((a + b).drop_first() =~= a.drop_first() + b);
        assert((a + b)[0] == a[0]);
        assert(encode_utf8(a + b) == encode_scalar(a[0] as u32) + encode_utf8(a.drop_first() + b));
        assert(encode_scalar(a[0] as u32) + (encode_utf8(a.drop_first()) + encode_utf8(b))
            =~= (encode_scalar(a[0] as u32) + encode_utf8(a.drop_first())) + encode_utf8(b));
    }
}

/// Two symbol sequences with the same encoding are equal.
pub proof fn lemma_encode_injective(a: Seq<char>, b: Seq<char>)
    requires
        encode_utf8(a) == encode_utf8(b),
    ensures
        a == b,
{
    assert(decode_utf8(encode_utf8(a)) == a);
    assert(decode_utf8(encode_utf8(b)) == b);
}

/// The encoding of every prefix ends on a character boundary.
pub proof fn lemma_prefix_boundary(cs: Seq<char>, k: int)
    requires
        0 <= k <= cs.len(),
    ensures
        is_char_boundary(encode_utf8(cs), byte_offset_of(cs, k) as int),
    decreases cs.len(),
{
    let bytes = encode_utf8(cs);
    if k == 0 {
        assert(cs.take(0) =~= Seq::<char>::empty());
    } else {
        encode_utf8_first_scalar(cs);
        let first = encode_scalar(cs[0] as u32);
        let rest = cs.drop_first();
        assert(pop_first_scalar(bytes) =~= encode_utf8(rest));
        lemma_prefix_boundary(rest, k - 1);
        assert(cs.take(k) =~= seq![cs[0]] + rest.take(k - 1));
        lemma_encode_concat(seq![cs[0]], rest.take(k - 1));
        lemma_encode_single(cs[0]);
        lemma_prefix_len(cs, k);
        assert(byte_offset_of(cs, k) == first.len() + byte_offset_of(rest, k - 1));
    }
}

/// A prefix encodes to no more bytes than the whole sequence.
pub proof fn lemma_prefix_len(cs: Seq<char>, k: int)
    requires
        0 <= k <= cs.len(),
    ensures
        byte_offset_of(cs, k) <= encode_utf8(cs).len(),
{
    assert(cs =~= cs.take(k) + cs.skip(k));
    lemma_encode_concat(cs.take(k), cs.skip(k));
}

/// Every symbol takes at least one byte.
pub proof fn lemma_len_le_bytes(cs: Seq<char>)
    ensures
        cs.len() <= encode_utf8(cs).len(),
    decreases cs.len(),
{
    if cs.len() > 0 {
        lemma_len_le_bytes(cs.drop_first());
    }
}

/// Adding one symbol to a prefix adds that symbol's width to its byte offset.
pub proof fn lemma_offset_step(cs: Seq<char>, k: int)
    requires
        0 <= k < cs.len(),
    ensures
        byte_offset_of(cs, k + 1) == byte_offset_of(cs, k) + utf8_width(cs[k]),
{
    assert(cs.take(k + 1) =~= cs.take(k) + seq![cs[k]]);
    lemma_encode_concat(cs.take(k), seq![cs[k]]);
    lemma_encode_single(cs[k]);
}

/// Width in bytes of the UTF-8 encoding of `c`.
pub fn char_width(c: char) -> (w: usize)
    ensures
        w == utf8_width(c),
        1 <= w <= 4,
{
    let v = c as u32;
    if v < 0x80 {
        1
    } else if v < 0x800 {
        2
    } else if v < 0x10000 {
        3
    } else {
        4
    }
}

/// Byte offset, in the UTF-8 encoding of `cs`, at which symbol `k` starts.
pub fn byte_offset(cs: &Vec<char>, k: usize) -> (b: usize)
    requires
        k <= cs@.len(),
        encode_utf8(cs@).len() <= usize::MAX,
    ensures
        b == byte_offset_of(cs@, k as int),
{
    let mut b: usize = 0;
    let mut i: usize = 0;
    assert(cs@.take(0) =~= Seq::<char>::empty());
    while i < k
        invariant
            i <= k <= cs@.len(),
            encode_utf8(cs@).len() <= usize::MAX,
            b == byte_offset_of(cs@, i as int),
        decreases k - i,
    {
        proof {
            lemma_offset_step(cs@, i as int);
            lemma_prefix_len(cs@, i + 1);
        }
        b = b + char_width(cs[i]);
        i = i + 1;
    }
    b
}

/// The part of `source` that holds symbols `lo` through `hi` of `cs`, both included,
/// where `cs` are the symbols of `source`.
pub fn slice_symbols<'a>(source: &'a str, cs: &Vec<char>, lo: usize, hi: usize) -> (r: &'a str)
    requires
        source@ == cs@,
        lo <= hi < cs@.len(),
        encode_utf8(cs@).len() <= usize::MAX,
    ensures
        r@ == cs@.subrange(lo as int, hi + 1),
{
    proof {
        lemma_len_le_bytes(cs@);
    }
    let start = byte_offset(cs, lo);
    let end = byte_offset(cs, hi + 1);
    let ghost whole = cs@;
    let ghost mid = whole.subrange(lo as int, hi + 1);
    let ghost after = whole.skip(lo as int);
    proof {
        lemma_prefix_boundary(whole, lo as int);
        assert(whole =~= whole.take(lo as int) + after);
        lemma_encode_concat(whole.take(lo as int), after);
        assert(after =~= mid + whole.skip(hi + 1));
        lemma_encode_concat(mid, whole.skip(hi + 1));
        assert(whole.take(hi + 1) =~= whole.take(lo as int) + mid);
        lemma_encode_concat(whole.take(lo as int), mid);
    }
    let (_, tail) = source.split_at(start);
    proof {
        assert(encode_utf8(tail@) =~= encode_utf8(after));
        lemma_encode_injective(tail@, after);
        assert(after.take(hi + 1 - lo) =~= mid);
        lemma_prefix_boundary(after, hi + 1 - lo);
    }
    let (piece, _) = tail.split_at(end - start);
    proof {
        assert(encode_utf8(piece@) =~= encode_utf8(mid));
        lemma_encode_injective(piece@, mid);
    }
    piece
}

} // verus!
