//! Standard base64 (RFC 4648 alphabet, with `=` padding) as a specification,
//! and the calls into the `base64` crate that encode and decode with it.
use vstd::prelude::*;
use base64::engine::general_purpose::STANDARD;
use base64::Engine;

verus! {

/// `base64::DecodeError`, the error of a failed decode.
#[verifier::external_type_specification]
#[verifier::external_body]
pub struct ExDecodeError(base64::DecodeError);

/// Code point of the alphabet character for the 6-bit value `v`.
pub open spec fn sextet_code(v: int) -> u32 {
    if v < 26 {
        (65 + v) as u32
    } else if v < 52 {
        (71 + v) as u32
    } else if v < 62 {
        (v - 4) as u32
    } else if v == 62 {
        43
    } else {
        47
    }
}

/// Alphabet character for the 6-bit value `v` (`A`-`Z`, `a`-`z`, `0`-`9`, `+`, `/`).
pub open spec fn sextet_char(v: int) -> char {
    sextet_code(v) as char
}

/// The four characters that encode one group of up to three bytes; missing
/// bytes are written as `=` padding.
pub open spec fn encode_group(b: Seq<u8>) -> Seq<char> {
    let b0 = b[0] as int;
    let b1 = b[1] as int;
    let b2 = b[2] as int;
    if b.len() == 1 {
        seq![sextet_char(b0 / 4), sextet_char((b0 % 4) * 16), '=', '=']
    } else if b.len() == 2 {
        seq![
            sextet_char(b0 / 4),
            sextet_char((b0 % 4) * 16 + b1 / 16),
            sextet_char((b1 % 16) * 4),
            '=',
        ]
    } else {
        seq![
            sextet_char(b0 / 4),
            sextet_char((b0 % 4) * 16 + b1 / 16),
            sextet_char((b1 % 16) * 4 + b2 / 64),
            sextet_char(b2 % 64),
        ]
    }
}

/// Standard padded base64 encoding of `b`.
pub open spec fn base64_encode(b: Seq<u8>) -> Seq<char>
    decreases b.len(),
{
    if b.len() == 0 {
        seq![]
    } else if b.len() <= 3 {
        encode_group(b)
    } else {
        encode_group(b.take(3)) + base64_encode(b.skip(3))
    }
}

/// The bytes whose encoding is `s`, if there are any (there is at most one such
/// byte string, by `lemma_base64_injective`).
pub open spec fn base64_decoded(s: Seq<char>) -> Option<Seq<u8>> {
    if exists|b: Seq<u8>| base64_encode(b) == s {
        Some(choose|b: Seq<u8>| base64_encode(b) == s)
    } else {
        None
    }
}

proof fn lemma_sextet_char(v: int, w: int)
    requires
        0 <= v < 64,
        0 <= w < 64,
    ensures
        sextet_char(v) != '=',
        sextet_char(v) == sextet_char(w) ==> v == w,
{
    let cv = sextet_code(v);
    let cw = sextet_code(w);
    assert((cv as char) as u32 == cv);
    assert((cw as char) as u32 == cw);
    assert(('=' as u32) == 61);
}

proof fn lemma_group_shape(b: Seq<u8>)
    requires
        1 <= b.len(),
    ensures
        encode_group(b).len() == 4,
        encode_group(b)[0] != '=',
        encode_group(b)[1] != '=',
        b.len() >= 2 <==> encode_group(b)[2] != '=',
        b.len() >= 3 <==> encode_group(b)[3] != '=',
{
    let b0 = b[0] as int;
    lemma_sextet_char(b0 / 4, 0);
    if b.len() == 1 {
        lemma_sextet_char((b0 % 4) * 16, 0);
    } else {
        let b1 = b[1] as int;
        lemma_sextet_char((b0 % 4) * 16 + b1 / 16, 0);
        if b.len() == 2 {
            lemma_sextet_char((b1 % 16) * 4, 0);
        } else {
            let b2 = b[2] as int;
            lemma_sextet_char((b1 % 16) * 4 + b2 / 64, 0);
            lemma_sextet_char(b2 % 64, 0);
        }
    }
}

proof fn lemma_split_byte(x: int, hi: int, lo: int)
    requires
        0 <= x < 256,
        hi == 4 || hi == 16 || hi == 64,
        lo * hi == 256,
    ensures
        x == (x / hi) * hi + x % hi,
        0 <= x / hi < lo,
        0 <= x % hi < hi,
{
}

proof fn lemma_group_injective(a: Seq<u8>, b: Seq<u8>)
    requires
        1 <= a.len() <= 3,
        1 <= b.len() <= 3,
        encode_group(a) == encode_group(b),
    ensures
        a == b,
{
    lemma_group_shape(a);
    lemma_group_shape(b);
    let ga = encode_group(a);
    let gb = encode_group(b);
    assert(ga[2] == gb[2]);
    assert(ga[3] == gb[3]);
    assert(a.len() == b.len());
    let a0 = a[0] as int;
    let b0 = b[0] as int;
    lemma_split_byte(a0, 4, 64);
    lemma_split_byte(b0, 4, 64);
    assert(ga[0] == gb[0]);
    lemma_sextet_char(a0 / 4, b0 / 4);
    if a.len() == 1 {
        assert(ga[1] == gb[1]);
        lemma_sextet_char((a0 % 4) * 16, (b0 % 4) * 16);
        assert(a0 == b0);
        assert(a =~= b);
    } else {
        let a1 = a[1] as int;
        let b1 = b[1] as int;
        lemma_split_byte(a1, 16, 16);
        lemma_split_byte(b1, 16, 16);
        assert(ga[1] == gb[1]);
        lemma_sextet_char((a0 % 4) * 16 + a1 / 16, (b0 % 4) * 16 + b1 / 16);
        assert(a0 % 4 == b0 % 4 && a1 / 16 == b1 / 16) by (nonlinear_arith)
            requires
                (a0 % 4) * 16 + a1 / 16 == (b0 % 4) * 16 + b1 / 16,
                0 <= a0 % 4 < 4,
                0 <= b0 % 4 < 4,
                0 <= a1 / 16 < 16,
                0 <= b1 / 16 < 16,
        ;
        assert(a0 == b0);
        if a.len() == 2 {
            lemma_sextet_char((a1 % 16) * 4, (b1 % 16) * 4);
            assert(a1 == b1);
            assert(a =~= b);
        } else {
            let a2 = a[2] as int;
            let b2 = b[2] as int;
            lemma_split_byte(a2, 64, 4);
            lemma_split_byte(b2, 64, 4);
            lemma_sextet_char((a1 % 16) * 4 + a2 / 64, (b1 % 16) * 4 + b2 / 64);
            lemma_sextet_char(a2 % 64, b2 % 64);
            assert(a1 % 16 == b1 % 16 && a2 / 64 == b2 / 64) by (nonlinear_arith)
                requires
                    (a1 % 16) * 4 + a2 / 64 == (b1 % 16) * 4 + b2 / 64,
                    0 <= a1 % 16 < 16,
                    0 <= b1 % 16 < 16,
                    0 <= a2 / 64 < 4,
                    0 <= b2 / 64 < 4,
            ;
            assert(a1 == b1);
            assert(a2 == b2);
            assert(a =~= b);
        }
    }
}

pub proof fn lemma_base64_len(b: Seq<u8>)
    ensures
        base64_encode(b).len() == 4 * ((b.len() + 2) / 3),
        b.len() > 0 ==> base64_encode(b).len() > 0,
    decreases b.len(),
{
    if b.len() > 0 {
        if b.len() <= 3 {
            lemma_group_shape(b);
        } else {
            lemma_group_shape(b.take(3));
            lemma_base64_len(b.skip(3));
        }
    }
}

/// Distinct byte strings have distinct encodings.
pub proof fn lemma_base64_injective(a: Seq<u8>, b: Seq<u8>)
    requires
        base64_encode(a) == base64_encode(b),
    ensures
        a == b,
    decreases a.len(),
{
    lemma_base64_len(a);
    lemma_base64_len(b);
    let ea = base64_encode(a);
    if a.len() == 0 {
        assert(b.len() == 0);
        assert(a =~= b);
    } else {
        assert(b.len() > 0);
        // The first group tells how many bytes it holds.
        let ga = if a.len() <= 3 { a } else { a.take(3) };
        let gb = if b.len() <= 3 { b } else { b.take(3) };
        lemma_group_shape(ga);
        lemma_group_shape(gb);
        assert(ea.take(4) == encode_group(ga)) by {
            if a.len() > 3 {
                assert(ea.take(4) =~= encode_group(a.take(3)));
            } else {
                assert(ea.take(4) =~= ea);
            }
        }
        assert(ea.take(4) == encode_group(gb)) by {
            if b.len() > 3 {
                assert(ea.take(4) =~= encode_group(b.take(3)));
            } else {
                assert(ea.take(4) =~= ea);
            }
        }
        lemma_group_injective(ga, gb);
        if a.len() <= 3 {
            if b.len() > 3 {
                lemma_base64_len(b.skip(3));
                assert(false);
            }
        } else {
            if b.len() <= 3 {
                lemma_base64_len(a.skip(3));
                assert(false);
            }
            assert(base64_encode(a.skip(3)) =~= ea.skip(4));
            assert(base64_encode(b.skip(3)) =~= ea.skip(4));
            lemma_base64_injective(a.skip(3), b.skip(3));
            assert(a =~= a.take(3) + a.skip(3));
            assert(b =~= b.take(3) + b.skip(3));
        }
    }
}

/// Decoding an encoding gives the bytes back.
pub proof fn lemma_base64_roundtrip(b: Seq<u8>)
    ensures
        base64_decoded(base64_encode(b)) == Some(b),
{
    let s = base64_encode(b);
    assert(exists|x: Seq<u8>| base64_encode(x) == s);
    let c = choose|x: Seq<u8>| base64_encode(x) == s;
    lemma_base64_injective(c, b);
}

/// `base64::engine::general_purpose::STANDARD.encode`: padded standard base64.
#[verifier::external_body]
pub(crate) fn base64_encode_bytes(bytes: &[u8]) -> (out: String)
    ensures
        out@ == base64_encode(bytes@),
{
    STANDARD.encode(bytes)
}

/// `base64::engine::general_purpose::STANDARD.decode` on the bytes of `text`.
/// The `STANDARD` engine requires canonical padding and zero trailing bits, so it
/// accepts exactly the strings that are the encoding of some byte string, and
/// then returns those bytes.
#[verifier::external_body]
pub(crate) fn base64_decode_str(text: &str) -> (res: Result<Vec<u8>, base64::DecodeError>)
    ensures
        res matches Ok(v) ==> base64_encode(v@) == text@,
        (exists|b: Seq<u8>| base64_encode(b) == text@) ==> res is Ok,
{
    STANDARD.decode(text.as_bytes())
}

/// Decodes `text`, with the result stated through `base64_decoded`.
pub fn decode_base64(text: &str) -> (res: Result<Vec<u8>, base64::DecodeError>)
    ensures
        match base64_decoded(text@) {
            Some(b) => res matches Ok(v) && v@ == b,
            None => res is Err,
        },
{
    let res = base64_decode_str(text);
    proof {
        if let Ok(v) = &res {
            lemma_base64_roundtrip(v@);
        }
    }
    res
}

} // verus!
