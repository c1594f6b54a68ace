use vstd::prelude::*;

use vstd::utf8::{decode_utf8, encode_scalar, encode_utf8, is_ascii_chars, valid_utf8};

use crate::parse::starts_with_chars;

verus! {

broadcast use vstd::seq::group_seq_axioms, vstd::utf8::group_utf8_lib;

/// Encoding a concatenation encodes each half in turn.
pub proof fn lemma_encode_utf8_concat(a: Seq<char>, b: Seq<char>)
    ensures
        encode_utf8(a + b) == encode_utf8(a) + encode_utf8(b),
    decreases a.len(),
{
    if a.len() == 0 {
        assert(a + b =~= b);
        assert(encode_utf8(a) =~= Seq::<u8>::empty());
        assert(encode_utf8(a) + encode_utf8(b) =~= encode_utf8(b));
    } else {
        assert((a + b)[0] == a[0]);
        assert((a + b).drop_first() =~= a.drop_first() + b);
        lemma_encode_utf8_concat(a.drop_first(), b);
        assert(encode_utf8(a + b) == encode_scalar((a + b)[0] as u32) + encode_utf8(
            (a + b).drop_first(),
        ));
        assert(encode_scalar(a[0] as u32) + (encode_utf8(a.drop_first()) + encode_utf8(b))
            =~= (encode_scalar(a[0] as u32) + encode_utf8(a.drop_first())) + encode_utf8(b));
    }
}

/// Over valid UTF-8 bytes, decoding to a given character sequence is the
/// same as being its encoding.
pub proof fn lemma_decode_utf8_eq(b: Seq<u8>, p: Seq<char>)
    requires
        valid_utf8(b),
    ensures
        decode_utf8(b) == p <==> b == encode_utf8(p),
{
    if decode_utf8(b) == p {
        vstd::utf8::decode_utf8_encode_utf8(b);
    }
    if b == encode_utf8(p) {
        vstd::utf8::encode_utf8_decode_utf8(p);
    }
}

/// Over valid UTF-8 bytes, the decoded characters start with an ASCII
/// character sequence exactly when the bytes start with its byte-for-byte
/// encoding.
pub proof fn lemma_ascii_prefix_iff(b: Seq<u8>, p: Seq<char>)
    requires
        valid_utf8(b),
        is_ascii_chars(p),
    ensures
        starts_with_chars(decode_utf8(b), p) <==> (b.len() >= p.len() && b.subrange(
            0,
            p.len() as int,
        ) == encode_utf8(p)),
    decreases p.len(),
{
    vstd::utf8::is_ascii_chars_encode_utf8(p);
    if p.len() == 0 {
        assert(starts_with_chars(decode_utf8(b), p)) by {
            assert(decode_utf8(b).subrange(0, 0) =~= p);
        }
        assert(b.subrange(0, 0) =~= encode_utf8(p));
    } else {
        let c = p[0];
        vstd::utf8::is_ascii_chars_nat_bound(p);
        assert((c as nat) < 128);
        let cu = c as u32;
        assert(cu < 128);
        assert(vstd::utf8::has_width_1_encoding(cu));
        let cb = vstd::utf8::leading_byte_width_1(cu);
        assert((cb as u32) == cu) by (bit_vector)
            requires
                cb == ((cu & 0x7F) as u8),
                cu < 128,
        ;
        assert(encode_scalar(cu) =~= seq![cb]);
        let pr = p.drop_first();
        assert(is_ascii_chars(pr)) by {
            assert(forall|i: int|
                0 <= i < pr.len() ==> #[trigger] pr[i] == p[i + 1] && '\0' <= p[i + 1]
                    <= '\u{7f}');
        }
        assert(encode_utf8(p) == seq![cb] + encode_utf8(pr));
        assert(encode_utf8(pr).len() == pr.len());
        assert(encode_utf8(p)[0] == cb);
        if b.len() == 0 {
            assert(decode_utf8(b).len() == 0);
            assert(!starts_with_chars(decode_utf8(b), p));
        } else {
            assert(vstd::utf8::valid_first_scalar(b));
            let d = decode_utf8(b);
            let b0 = b[0];
            if b0 < 128 {
                assert(vstd::utf8::is_leading_byte_width_1(b0));
                assert(vstd::utf8::length_of_first_scalar(b) == 1);
                let rest = vstd::utf8::pop_first_scalar(b);
                assert(rest =~= b.subrange(1, b.len() as int));
                assert(valid_utf8(rest));
                let d0u = vstd::utf8::decode_first_scalar(b);
                assert(d0u == ((b0 & 0x7F) as u32));
                assert(d0u == (b0 as u32)) by (bit_vector)
                    requires
                        d0u == ((b0 & 0x7F) as u32),
                        b0 < 128,
                ;
                assert(d == seq![d0u as char] + decode_utf8(rest));
                let dr = decode_utf8(rest);
                lemma_ascii_prefix_iff(rest, pr);
                // The head characters agree exactly when the head bytes do.
                assert((d0u as char == c) <==> (b0 == cb)) by {
                    if d0u as char == c {
                        vstd::utf8::char_u32_cast(d0u as char, d0u);
                        assert(cu == d0u);
                        assert(b0 == cb) by (bit_vector)
                            requires
                                cu == d0u,
                                d0u == (b0 as u32),
                                (cb as u32) == cu,
                        ;
                    }
                    if b0 == cb {
                        assert(d0u == cu) by (bit_vector)
                            requires
                                b0 == cb,
                                d0u == (b0 as u32),
                                (cb as u32) == cu,
                        ;
                        vstd::utf8::char_u32_cast(c, cu);
                        assert(cu as char == c);
                    }
                }
                // Splitting the character prefix at the head.
                assert(starts_with_chars(d, p) <==> (d0u as char == c && starts_with_chars(
                    dr,
                    pr,
                ))) by {
                    if starts_with_chars(d, p) {
                        assert(d.subrange(0, p.len() as int)[0] == p[0]);
                        assert(d[0] == c);
                        assert(dr.len() >= pr.len());
                        assert(dr.subrange(0, pr.len() as int) =~= pr) by {
                            assert(forall|i: int|
                                0 <= i < pr.len() ==> dr.subrange(0, pr.len() as int)[i]
                                    == d.subrange(0, p.len() as int)[i + 1]);
                        }
                    }
                    if d0u as char == c && starts_with_chars(dr, pr) {
                        assert(d.len() >= p.len());
                        assert(d.subrange(0, p.len() as int) =~= p) by {
                            assert(forall|i: int|
                                1 <= i < p.len() ==> d.subrange(0, p.len() as int)[i]
                                    == dr.subrange(0, pr.len() as int)[i - 1]);
                        }
                    }
                }
                // Splitting the byte prefix at the head.
                assert((b.len() >= p.len() && b.subrange(0, p.len() as int) == encode_utf8(p))
                    <==> (b0 == cb && rest.len() >= pr.len() && rest.subrange(0, pr.len() as int)
                    == encode_utf8(pr))) by {
                    if b.len() >= p.len() && b.subrange(0, p.len() as int) == encode_utf8(p) {
                        assert(b.subrange(0, p.len() as int)[0] == encode_utf8(p)[0]);
                        assert(rest.subrange(0, pr.len() as int) =~= encode_utf8(pr)) by {
                            assert(forall|i: int|
                                0 <= i < pr.len() ==> rest.subrange(0, pr.len() as int)[i]
                                    == b.subrange(0, p.len() as int)[i + 1]);
                        }
                    }
                    if b0 == cb && rest.len() >= pr.len() && rest.subrange(0, pr.len() as int)
                        == encode_utf8(pr) {
                        assert(b.subrange(0, p.len() as int) =~= encode_utf8(p)) by {
                            assert(forall|i: int|
                                1 <= i < p.len() ==> b.subrange(0, p.len() as int)[i]
                                    == rest.subrange(0, pr.len() as int)[i - 1]);
                        }
                    }
                }
            } else {
                // A multi-byte head: its scalar is at least 0x80, so it can
                // equal neither an ASCII head character nor an ASCII head
                // byte.
                assert(!vstd::utf8::is_leading_byte_width_1(b0));
                let d0u = vstd::utf8::decode_first_scalar(b);
                assert(vstd::utf8::length_of_first_codepoint(b) != 1);
                assert(vstd::utf8::not_overlong_encoding(
                    d0u,
                    vstd::utf8::length_of_first_codepoint(b),
                ));
                assert(d0u >= 0x80);
                assert(d == seq![d0u as char] + decode_utf8(vstd::utf8::pop_first_scalar(b)));
                assert(d.len() > 0 && d[0] == d0u as char);
                assert(!starts_with_chars(d, p)) by {
                    if starts_with_chars(d, p) {
                        vstd::utf8::decode_utf8_encode_utf8(b);
                        let d2 = d.subrange(p.len() as int, d.len() as int);
                        assert(d =~= d.subrange(0, p.len() as int) + d2);
                        lemma_encode_utf8_concat(p, d2);
                        assert(b == encode_utf8(p) + encode_utf8(d2));
                        assert(b0 == encode_utf8(p)[0]);
                        assert(b0 == cb);
                        assert(b0 < 128) by (bit_vector)
                            requires
                                b0 == cb,
                                (cb as u32) == cu,
                                cu < 128,
                        ;
                    }
                }
                assert(!(b.len() >= p.len() && b.subrange(0, p.len() as int) == encode_utf8(p)))
                    by {
                    if b.len() >= p.len() && b.subrange(0, p.len() as int) == encode_utf8(p) {
                        assert(b.subrange(0, p.len() as int)[0] == encode_utf8(p)[0]);
                        assert(b0 == cb);
                        assert(b0 < 128) by (bit_vector)
                            requires
                                b0 == cb,
                                (cb as u32) == cu,
                                cu < 128,
                        ;
                    }
                }
            }
        }
    }
}

} // verus!
