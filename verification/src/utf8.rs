//! UTF-8: decoding bytes into text, and cutting text to a number of bytes.

use vstd::prelude::*;
use vstd::string::*;
use vstd::utf8::*;

verus! {

/// What `String::from_utf8_lossy` makes of the bytes.
pub uninterp spec fn lossy_utf8(bytes: Seq<u8>) -> Seq<char>;

/// The text that `bytes` encode: `std::str::from_utf8` accepts exactly the
/// valid UTF-8 sequences and gives the text that they encode.
#[verifier::external_body]
pub(crate) fn text_of_utf8(bytes: &[u8]) -> (out: Option<String>)
    ensures
        out is Some <==> valid_utf8(bytes@),
        out matches Some(s) ==> s@ == decode_utf8(bytes@),
{
    std::str::from_utf8(bytes).ok().map(str::to_owned)
}

/// The text that `bytes` encode, with substitutes for what is not UTF-8:
/// `String::from_utf8_lossy` depends on the bytes alone, and gives the encoded
/// text where the bytes are valid UTF-8.
#[verifier::external_body]
pub(crate) fn text_of_lossy_utf8(bytes: &[u8]) -> (out: String)
    ensures
        out@ == lossy_utf8(bytes@),
        valid_utf8(bytes@) ==> out@ == decode_utf8(bytes@),
{
    String::from_utf8_lossy(bytes).into_owned()
}

/// The encoding of a concatenation is the concatenation of the encodings.
pub proof fn lemma_encode_concat(a: Seq<char>, b: Seq<char>)
    ensures
        encode_utf8(a + b) == encode_utf8(a) + encode_utf8(b),
    decreases a.len(),
{
    if a.len() == 0 {
        assert(a + b =~= b);
        assert(encode_utf8(a) + encode_utf8(b) =~= encode_utf8(b));
    } else {
        assert((a + b).drop_first() =~= a.drop_first() + b);
        lemma_encode_concat(a.drop_first(), b);
        assert(encode_utf8(a + b) =~= encode_utf8(a) + encode_utf8(b));
    }
}

/// A character takes one to four bytes.
pub proof fn lemma_encode_len(chars: Seq<char>)
    ensures
        chars.len() <= encode_utf8(chars).len() <= 4 * chars.len(),
    decreases chars.len(),
{
    if chars.len() > 0 {
        lemma_encode_len(chars.drop_first());
    }
}

/// A character boundary lies behind every prefix of the text.
proof fn lemma_prefix_boundary(a: Seq<char>, b: Seq<char>)
    ensures
        is_char_boundary(encode_utf8(a + b), encode_utf8(a).len() as int),
    decreases a.len(),
{
    encode_utf8_valid_utf8(a + b);
    if a.len() > 0 {
        let s = a + b;
        encode_utf8_first_scalar(s);
        assert(s.drop_first() =~= a.drop_first() + b);
        lemma_prefix_boundary(a.drop_first(), b);
        lemma_encode_concat(a, b);
        let bytes = encode_utf8(s);
        assert(pop_first_scalar(bytes) =~= encode_utf8(s.drop_first()));
    }
}

/// The longest prefix of `s` that takes at most `max` bytes.
pub open spec fn truncated(s: Seq<char>, max: nat) -> Seq<char>
    decreases s.len(),
{
    if s.len() == 0 || encode_utf8(s).len() <= max {
        s
    } else {
        truncated(s.drop_last(), max)
    }
}

/// A prefix that fits, and that one more character would overfill, is the
/// longest one that fits.
proof fn lemma_truncated(s: Seq<char>, k: int, max: nat)
    requires
        0 <= k <= s.len(),
        encode_utf8(s.take(k)).len() <= max,
        k < s.len() ==> encode_utf8(s.take(k + 1)).len() > max,
    ensures
        truncated(s, max) == s.take(k),
    decreases s.len(),
{
    if k == s.len() {
        assert(s.take(k) =~= s);
    } else {
        assert(s.take(k + 1) + s.skip(k + 1) =~= s);
        lemma_encode_concat(s.take(k + 1), s.skip(k + 1));
        assert(s.drop_last().take(k) =~= s.take(k));
        if k < s.drop_last().len() {
            assert(s.drop_last().take(k + 1) =~= s.take(k + 1));
        }
        lemma_truncated(s.drop_last(), k, max);
    }
}

/// `value` cut at a character boundary so that it takes at most `max` bytes.
pub fn truncate_utf8(value: String, max: usize) -> (out: String)
    ensures
        out@ == truncated(value@, max as nat),
{
    let ghost s = value@;
    let view = value.as_str();
    let len = view.as_bytes().len();
    assert(view.spec_bytes() == encode_utf8(s));
    let ghost bytes = encode_utf8(s);
    if len <= max {
        return value;
    }
    proof {
        encode_utf8_valid_utf8(s);
        encode_utf8_decode_utf8(s);
        is_char_boundary_start_end_of_seq(bytes);
    }
    let mut end: usize = max;
    while !view.is_char_boundary(end)
        invariant
            view.spec_bytes() == bytes,
            is_char_boundary(bytes, 0),
            end <= max,
            forall|i: int| end < i <= max ==> !is_char_boundary(bytes, i),
        decreases end,
    {
        end -= 1;
    }
    let (head, tail) = view.split_at(end);
    proof {
        decode_utf8_split(bytes, end as int);
        encode_utf8_decode_utf8(head@);
        encode_utf8_decode_utf8(tail@);
        assert(s =~= head@ + tail@);
        let k = head@.len() as int;
        assert(s.take(k) =~= head@);
        assert(tail@.len() > 0) by {
            if tail@.len() == 0 {
                assert(encode_utf8(tail@).len() == 0);
            }
        }
        let a = s.take(k + 1);
        assert(a =~= head@.push(tail@[0]));
        assert(a + s.skip(k + 1) =~= s);
        lemma_prefix_boundary(a, s.skip(k + 1));
        lemma_encode_concat(head@, seq![tail@[0]]);
        assert(head@ + seq![tail@[0]] =~= a);
        lemma_encode_len(seq![tail@[0]]);
        assert(encode_utf8(a).len() > end);
        lemma_truncated(s, k, max as nat);
    }
    head.to_owned()
}

/// The cut text takes no more bytes than allowed.
pub proof fn lemma_truncated_fits(s: Seq<char>, max: nat)
    ensures
        encode_utf8(truncated(s, max)).len() <= max,
    decreases s.len(),
{
    if s.len() > 0 && encode_utf8(s).len() > max {
        lemma_truncated_fits(s.drop_last(), max);
    }
}

// ---------------------------------------------------------------------------
// Laws
// ---------------------------------------------------------------------------
/// A text that is cut is a beginning of the text, keeps to the allowed number of
/// bytes, and is cut no earlier than that: one more character would not fit, and a
/// text that fits is not cut at all.
pub proof fn law_truncated_is_the_longest_that_fits(s: Seq<char>, max: nat)
    ensures
        truncated(s, max).len() <= s.len(),
        truncated(s, max) == s.take(truncated(s, max).len() as int),
        encode_utf8(truncated(s, max)).len() <= max,
        truncated(s, max).len() < s.len() ==> encode_utf8(
            s.take(truncated(s, max).len() as int + 1),
        ).len() > max,
        encode_utf8(s).len() <= max ==> truncated(s, max) == s,
    decreases s.len(),
{
    lemma_truncated_fits(s, max);
    if s.len() == 0 || encode_utf8(s).len() <= max {
        assert(s.take(s.len() as int) =~= s);
    } else {
        let t = s.drop_last();
        law_truncated_is_the_longest_that_fits(t, max);
        let k = truncated(t, max).len() as int;
        assert(t.take(k) =~= s.take(k));
        if k < t.len() {
            assert(t.take(k + 1) =~= s.take(k + 1));
        } else {
            assert(s.take(k + 1) =~= s);
        }
    }
}

} // verus!
