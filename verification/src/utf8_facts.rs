use vstd::prelude::*;
use vstd::utf8::*;

verus! {

broadcast use {
    is_char_boundary_start_end_of_seq,
    is_char_boundary_iff_not_is_continuation_byte,
    valid_utf8_concat,
    encode_utf8_valid_utf8,
};

/// The encoding of two character sequences one after the other is the one encoding after the other.
pub proof fn lemma_encode_concat(a: Seq<char>, b: Seq<char>)
    ensures
        encode_utf8(a + b) == encode_utf8(a) + encode_utf8(b),
    decreases a.len(),
{
    if a.len() == 0 {
        assert(a + b =~= b);
        assert(encode_utf8(a) =~= Seq::<u8>::empty());
        assert(encode_utf8(a) + encode_utf8(b) =~= encode_utf8(b));
    } else {
        assert((a + b).drop_first() =~= a.drop_first() + b);
        assert((a + b)[0] == a[0]);
        lemma_encode_concat(a.drop_first(), b);
        assert(encode_utf8(a + b) =~= encode_utf8(a) + encode_utf8(b));
    }
}

/// In valid UTF-8, the byte after a character boundary that holds an ASCII byte is a boundary too.
pub proof fn lemma_boundary_after_ascii(b: Seq<u8>, p: int)
    requires
        valid_utf8(b),
        is_char_boundary(b, p),
        0 <= p < b.len(),
        b[p] < 0x80,
    ensures
        is_char_boundary(b, p + 1),
{
    if p + 1 < b.len() {
        valid_utf8_split(b, p);
        let s = b.subrange(p, b.len() as int);
        assert(s[0] == b[p]);
        assert(length_of_first_scalar(s) == 1);
        let rest = pop_first_scalar(s);
        assert(valid_utf8(rest));
        assert(rest =~= b.subrange(p + 1, b.len() as int));
        assert(rest.len() > 0);
        assert(is_char_boundary(rest, 0));
        assert(!is_continuation_byte(rest[0]));
        assert(rest[0] == b[p + 1]);
    }
}

/// Within the first part of a concatenation, boundaries are those of the first part.
pub proof fn lemma_boundary_prefix(x: Seq<u8>, y: Seq<u8>, j: int)
    requires
        valid_utf8(x),
        valid_utf8(y),
        0 <= j <= x.len(),
    ensures
        is_char_boundary(x + y, j) == is_char_boundary(x, j),
{
    let xy = x + y;
    assert(valid_utf8(xy));
    if j < x.len() {
        assert(xy[j] == x[j]);
        is_char_boundary_iff_not_is_continuation_byte(xy, j);
        is_char_boundary_iff_not_is_continuation_byte(x, j);
    } else {
        is_char_boundary_start_end_of_seq(x);
        if y.len() > 0 {
            is_char_boundary_start_end_of_seq(y);
            is_char_boundary_iff_not_is_continuation_byte(y, 0);
            is_char_boundary_iff_not_is_continuation_byte(xy, j);
            assert(xy[j] == y[0]);
        } else {
            assert(xy =~= x);
        }
    }
}

/// Within the second part of a concatenation, boundaries are those of the second part.
pub proof fn lemma_boundary_suffix(x: Seq<u8>, y: Seq<u8>, j: int)
    requires
        valid_utf8(x),
        valid_utf8(y),
        0 <= j <= y.len(),
    ensures
        is_char_boundary(x + y, x.len() + j) == is_char_boundary(y, j),
{
    let xy = x + y;
    assert(valid_utf8(xy));
    if j < y.len() {
        assert(xy[x.len() + j] == y[j]);
        is_char_boundary_iff_not_is_continuation_byte(xy, x.len() + j);
        is_char_boundary_iff_not_is_continuation_byte(y, j);
    } else {
        assert(xy.len() == x.len() + j);
        is_char_boundary_start_end_of_seq(xy);
        is_char_boundary_start_end_of_seq(y);
    }
}

} // verus!
