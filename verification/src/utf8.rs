//! How searching in the bytes of a string relates to searching in its characters.
//!
//! Every string is held as UTF-8, and the search functions of this crate compare bytes. The
//! lemmas here carry their results over to sequences of characters, which is what the contracts
//! speak of: a byte-wise prefix is a prefix, a byte-wise occurrence is an occurrence.
use vstd::prelude::*;
use vstd::utf8::*;

verus! {

/// `part` stands in `whole` at position `at`.
pub open spec fn occurs_at<T>(whole: Seq<T>, part: Seq<T>, at: int) -> bool {
    &&& 0 <= at
    &&& at + part.len() <= whole.len()
    &&& whole.subrange(at, at + part.len()) == part
}

/// `part` stands somewhere in `whole`.
pub open spec fn occurs<T>(whole: Seq<T>, part: Seq<T>) -> bool {
    exists|at: int| occurs_at(whole, part, at)
}

/// The least position not below `from` at which `part` stands in `whole`.
pub open spec fn first_from<T>(whole: Seq<T>, part: Seq<T>, from: int) -> Option<int>
    decreases whole.len() + 1 - from,
{
    if from + part.len() > whole.len() {
        None
    } else if occurs_at(whole, part, from) {
        Some(from)
    } else {
        first_from(whole, part, from + 1)
    }
}

/// The least position at which `part` stands in `whole`.
pub open spec fn first_occurrence<T>(whole: Seq<T>, part: Seq<T>) -> Option<int> {
    first_from(whole, part, 0)
}

/// `first_from` finds the least position there is, and fails only where there is none.
pub proof fn lemma_first_from<T>(whole: Seq<T>, part: Seq<T>, from: int)
    requires
        0 <= from,
    ensures
        first_from(whole, part, from) matches Some(at) ==> {
            &&& from <= at
            &&& occurs_at(whole, part, at)
            &&& forall|k: int| from <= k < at ==> !occurs_at(whole, part, k)
        },
        first_from(whole, part, from) is None ==> forall|k: int|
            from <= k ==> !occurs_at(whole, part, k),
    decreases whole.len() + 1 - from,
{
    if from + part.len() > whole.len() {
    } else if occurs_at(whole, part, from) {
    } else {
        lemma_first_from(whole, part, from + 1);
    }
}

/// A sequence occurs exactly where a first occurrence is found.
pub proof fn lemma_occurs_iff_found<T>(whole: Seq<T>, part: Seq<T>)
    ensures
        occurs(whole, part) <==> first_occurrence(whole, part) is Some,
{
    lemma_first_from(whole, part, 0);
    if occurs(whole, part) {
        let at = choose|at: int| occurs_at(whole, part, at);
        assert(occurs_at(whole, part, at));
    }
}

/// The encoding of a concatenation is the concatenation of the encodings.
pub proof fn lemma_encode_concat(a: Seq<char>, b: Seq<char>)
    ensures
        encode_utf8(a + b) == encode_utf8(a) + encode_utf8(b),
    decreases a.len(),
{
    if a.len() == 0 {
        assert(a + b =~= b);
        assert(encode_utf8(a) + encode_utf8(b) =~= encode_utf8(b));
    } else {
        assert((a + b).drop_first() =~= a.drop_first() + b);
        lemma_encode_concat(a.drop_first(), b);
        assert(encode_utf8(a + b) =~= encode_utf8(a) + encode_utf8(b));
    }
}

/// Two character sequences with the same encoding are the same.
pub proof fn lemma_encode_injective(a: Seq<char>, b: Seq<char>)
    requires
        encode_utf8(a) == encode_utf8(b),
    ensures
        a == b,
{
    encode_utf8_decode_utf8(a);
    encode_utf8_decode_utf8(b);
}

/// One sequence is a prefix of another exactly where its encoding is a prefix of the other's.
pub proof fn lemma_prefix_of_bytes(p: Seq<char>, s: Seq<char>)
    ensures
        encode_utf8(p).is_prefix_of(encode_utf8(s)) <==> p.is_prefix_of(s),
    decreases p.len(),
{
    let bp = encode_utf8(p);
    let bs = encode_utf8(s);
    if p.is_prefix_of(s) {
        assert(s =~= p + s.skip(p.len() as int));
        lemma_encode_concat(p, s.skip(p.len() as int));
        assert(bp =~= bs.take(bp.len() as int));
    }
    if bp.is_prefix_of(bs) && p.len() > 0 {
        encode_utf8_first_scalar(p);
        encode_utf8_valid_utf8(p);
        assert(bs.len() > 0);
        assert(s.len() > 0);
        encode_utf8_first_scalar(s);
        encode_utf8_valid_utf8(s);
        assert forall|k: int| 0 <= k < bp.len() implies bp[k] == bs[k] by {
            assert(bp[k] == bs.take(bp.len() as int)[k]);
        }
        assert(bp.len() >= length_of_first_scalar(bp));
        assert(decode_first_scalar(bp) == decode_first_scalar(bs));
        assert(p[0] as u32 == s[0] as u32);
        char_u32_cast(p[0], p[0] as u32);
        char_u32_cast(s[0], s[0] as u32);
        assert(p[0] == s[0]);
        let rp = p.drop_first();
        let rs = s.drop_first();
        let n = encode_scalar(p[0] as u32).len() as int;
        assert(encode_utf8(rp) =~= bp.skip(n));
        assert(encode_utf8(rs) =~= bs.skip(n));
        assert(encode_utf8(rp) =~= encode_utf8(rs).take(encode_utf8(rp).len() as int));
        lemma_prefix_of_bytes(rp, rs);
        assert(p =~= s.take(p.len() as int)) by {
            assert forall|k: int| 0 <= k < p.len() implies p[k] == s[k] by {
                if k > 0 {
                    assert(rp[k - 1] == rs.take(rp.len() as int)[k - 1]);
                }
            }
        }
    }
}

/// Where the encoding of `p` stands in the encoding of `s`, `p` stands in `s`, and the byte
/// position is that of the characters before it.
pub proof fn lemma_occurs_from_bytes(s: Seq<char>, p: Seq<char>, at: int) -> (i: int)
    requires
        p.len() > 0,
        occurs_at(encode_utf8(s), encode_utf8(p), at),
    ensures
        occurs_at(s, p, i),
        encode_utf8(s.take(i)).len() == at,
{
    let bs = encode_utf8(s);
    let bp = encode_utf8(p);
    encode_utf8_valid_utf8(s);
    encode_utf8_valid_utf8(p);
    encode_utf8_first_scalar(p);
    assert(bp.len() > 0);
    assert(bs[at] == bs.subrange(at, at + bp.len())[0]);
    is_char_boundary_start_end_of_seq(bp);
    is_char_boundary_iff_not_is_continuation_byte(bp, 0);
    is_char_boundary_iff_not_is_continuation_byte(bs, at);
    valid_utf8_split(bs, at);
    decode_utf8_split(bs, at);
    encode_utf8_decode_utf8(s);
    let head = decode_utf8(bs.subrange(0, at));
    let tail = decode_utf8(bs.subrange(at, bs.len() as int));
    decode_utf8_encode_utf8(bs.subrange(0, at));
    decode_utf8_encode_utf8(bs.subrange(at, bs.len() as int));
    assert(s == head + tail);
    let i = head.len() as int;
    assert(s.take(i) =~= head);
    assert(bp =~= encode_utf8(tail).take(bp.len() as int)) by {
        assert(encode_utf8(tail).take(bp.len() as int) =~= bs.subrange(at, at + bp.len()));
    }
    lemma_prefix_of_bytes(p, tail);
    assert(s.subrange(i, i + p.len()) =~= tail.take(p.len() as int));
    i
}

/// Where `p` stands in `s`, its encoding stands in the encoding of `s`, behind the encoding of the
/// characters before it.
pub proof fn lemma_occurs_to_bytes(s: Seq<char>, p: Seq<char>, i: int)
    requires
        occurs_at(s, p, i),
    ensures
        occurs_at(encode_utf8(s), encode_utf8(p), encode_utf8(s.take(i)).len() as int),
{
    let head = s.take(i);
    let rest = s.skip(i + p.len());
    assert(s =~= head + p + rest);
    lemma_encode_concat(head + p, rest);
    lemma_encode_concat(head, p);
    let at = encode_utf8(head).len() as int;
    assert(encode_utf8(s).subrange(at, at + encode_utf8(p).len()) =~= encode_utf8(p));
}

/// A sequence occurs in another exactly where its encoding occurs in the other's.
pub proof fn lemma_occurs_iff_bytes(s: Seq<char>, p: Seq<char>)
    ensures
        occurs(s, p) <==> occurs(encode_utf8(s), encode_utf8(p)),
{
    if p.len() == 0 {
        assert(occurs_at(s, p, 0)) by {
            assert(s.subrange(0, 0) =~= p);
        }
        assert(occurs_at(encode_utf8(s), encode_utf8(p), 0)) by {
            assert(encode_utf8(s).subrange(0, 0) =~= encode_utf8(p));
        }
    } else {
        if occurs(s, p) {
            lemma_occurs_to_bytes(s, p, choose|i: int| occurs_at(s, p, i));
        }
        if occurs(encode_utf8(s), encode_utf8(p)) {
            let i = lemma_occurs_from_bytes(
                s,
                p,
                choose|at: int| occurs_at(encode_utf8(s), encode_utf8(p), at),
            );
            assert(occurs_at(s, p, i));
        }
    }
}

/// The end of the encoding of `head` is a character boundary in the encoding of `head + rest`.
pub proof fn lemma_boundary_after_prefix(head: Seq<char>, rest: Seq<char>)
    ensures
        is_char_boundary(encode_utf8(head + rest), encode_utf8(head).len() as int),
    decreases head.len(),
{
    let all = head + rest;
    let bytes = encode_utf8(all);
    encode_utf8_valid_utf8(all);
    lemma_encode_concat(head, rest);
    if head.len() == 0 {
        is_char_boundary_start_end_of_seq(bytes);
    } else {
        encode_utf8_first_scalar(all);
        assert(all.drop_first() =~= head.drop_first() + rest);
        assert(pop_first_scalar(bytes) =~= encode_utf8(all.drop_first()));
        lemma_boundary_after_prefix(head.drop_first(), rest);
        encode_utf8_valid_utf8(all.drop_first());
    }
}

} // verus!
