//! UTF-8 helpers shared by both string forms.
//!
//! Every form stores its text as UTF-8 bytes; the view of a form is the
//! character sequence those bytes decode to.  This module provides the
//! conversion between the two worlds: reading stored bytes back as `&str`,
//! encoding a single character, comparing byte slices, and the lemmas that
//! connect concatenation of byte sequences with concatenation of the decoded
//! character sequences.

use vstd::pervasive::unreached;
use vstd::prelude::*;
use vstd::string::StringSliceAdditionalSpecFns;
use vstd::utf8::{
    char_is_scalar, decode_first_codepoint, decode_first_scalar, decode_last_scalar, decode_utf8,
    decode_utf8_encode_utf8, decode_utf8_split, encode_scalar, encode_utf8,
    encode_utf8_decode_utf8, is_char_boundary, is_continuation_byte, is_leading_byte_width_1,
    is_leading_byte_width_2, is_leading_byte_width_3, is_scalar,
    length_of_first_scalar, length_of_last_scalar, pop_first_scalar, valid_first_scalar,
    valid_utf8, valid_utf8_concat, valid_utf8_split,
};

verus! {

/// Relies on `str::from_utf8`: for bytes that are valid UTF-8 it returns
/// `Ok` with a string slice over exactly those bytes, so the unwrap cannot
/// fail.
#[verifier::external_body]
pub(crate) fn str_from_bytes(v: &[u8]) -> (r: &str)
    requires
        valid_utf8(v@),
    ensures
        r.spec_bytes() == v@,
{
    core::str::from_utf8(v).unwrap()
}

/// A string slice's view is what its bytes decode to.
pub proof fn lemma_str_view_of_bytes(s: &str)
    ensures
        s@ == decode_utf8(s.spec_bytes()),
        valid_utf8(s.spec_bytes()),
{
    encode_utf8_decode_utf8(s@);
    vstd::utf8::encode_utf8_valid_utf8(s@);
}

/// Concatenating two valid UTF-8 byte sequences yields a valid sequence that
/// decodes to the concatenation of what the two decode to.
pub proof fn lemma_decode_utf8_concat(b1: Seq<u8>, b2: Seq<u8>)
    requires
        valid_utf8(b1),
        valid_utf8(b2),
    ensures
        valid_utf8(b1 + b2),
        decode_utf8(b1 + b2) == decode_utf8(b1) + decode_utf8(b2),
    decreases b1.len(),
{
    valid_utf8_concat(b1, b2);
    if b1.len() == 0 {
        assert(b1 + b2 =~= b2);
        assert(decode_utf8(b1) + decode_utf8(b2) =~= decode_utf8(b2));
    } else {
        let rest = pop_first_scalar(b1);
        let k = length_of_first_scalar(b1);
        assert(valid_first_scalar(b1));
        assert(1 <= k <= b1.len());
        assert(valid_first_scalar(b1 + b2));
        assert(length_of_first_scalar(b1 + b2) == k);
        assert(decode_first_scalar(b1 + b2) == decode_first_scalar(b1));
        assert(pop_first_scalar(b1 + b2) =~= rest + b2);
        assert(rest.len() < b1.len());
        lemma_decode_utf8_concat(rest, b2);
        assert(decode_utf8(b1 + b2) =~= decode_utf8(b1) + decode_utf8(b2));
    }
}

/// Two valid UTF-8 byte sequences are equal exactly when they decode to the
/// same characters: the encoding admits no two spellings of one text.
pub proof fn lemma_bytes_eq_iff_views_eq(b1: Seq<u8>, b2: Seq<u8>)
    requires
        valid_utf8(b1),
        valid_utf8(b2),
    ensures
        (b1 == b2) <==> (decode_utf8(b1) == decode_utf8(b2)),
{
    if decode_utf8(b1) == decode_utf8(b2) {
        vstd::utf8::decode_utf8_encode_utf8(b1);
        vstd::utf8::decode_utf8_encode_utf8(b2);
    }
}

/// A one-character sequence encodes to exactly the scalar encoding of that
/// character.
pub proof fn lemma_encode_utf8_singleton(c: char)
    ensures
        encode_utf8(seq![c]) == encode_scalar(c as u32),
        valid_utf8(encode_scalar(c as u32)),
        decode_utf8(encode_scalar(c as u32)) == seq![c],
        1 <= encode_scalar(c as u32).len() <= 4,
{
    char_is_scalar(c);
    let s = seq![c];
    assert(s.drop_first() =~= Seq::<char>::empty());
    assert(encode_utf8(s) =~= encode_scalar(c as u32) + encode_utf8(Seq::<char>::empty()));
    assert(encode_utf8(s) =~= encode_scalar(c as u32));
    vstd::utf8::encode_utf8_valid_utf8(s);
    encode_utf8_decode_utf8(s);
}

/// The UTF-8 encoding of `c`: the first `r.1` bytes of `r.0` hold exactly
/// the scalar encoding of `c`.
pub fn encode_char(c: char) -> (r: ([u8; 4], usize))
    ensures
        1 <= r.1 <= 4,
        r.1 == encode_scalar(c as u32).len(),
        r.0@.subrange(0, r.1 as int) == encode_scalar(c as u32),
{
    proof {
        char_is_scalar(c);
    }
    let u = c as u32;
    let mut buf: [u8; 4] = [0u8; 4];
    if u <= 0x7F {
        buf[0] = u as u8;
        proof {
            assert((u as u8) == ((u & 0x7F) as u8)) by (bit_vector)
                requires
                    u <= 0x7F,
            ;
            assert(buf@.subrange(0, 1) =~= encode_scalar(c as u32));
        }
        (buf, 1)
    } else if u <= 0x7FF {
        buf[0] = 0xC0 | ((u >> 6u32) & 0x1F) as u8;
        buf[1] = 0x80 | (u & 0x3F) as u8;
        proof {
            assert(buf@.subrange(0, 2) =~= encode_scalar(c as u32));
        }
        (buf, 2)
    } else if u <= 0xFFFF {
        buf[0] = 0xE0 | ((u >> 12u32) & 0x0F) as u8;
        buf[1] = 0x80 | ((u >> 6u32) & 0x3F) as u8;
        buf[2] = 0x80 | (u & 0x3F) as u8;
        proof {
            assert(buf@.subrange(0, 3) =~= encode_scalar(c as u32));
        }
        (buf, 3)
    } else {
        buf[0] = 0xF0 | ((u >> 18u32) & 0x7) as u8;
        buf[1] = 0x80 | ((u >> 12u32) & 0x3F) as u8;
        buf[2] = 0x80 | ((u >> 6u32) & 0x3F) as u8;
        buf[3] = 0x80 | (u & 0x3F) as u8;
        proof {
            assert(buf@.subrange(0, 4) =~= encode_scalar(c as u32));
        }
        (buf, 4)
    }
}

/// Encoding distributes over concatenation of character sequences.
pub proof fn lemma_encode_utf8_concat(a: Seq<char>, b: Seq<char>)
    ensures
        encode_utf8(a + b) == encode_utf8(a) + encode_utf8(b),
    decreases a.len(),
{
    if a.len() == 0 {
        assert(a + b =~= b);
        assert(encode_utf8(a) + encode_utf8(b) =~= encode_utf8(b));
    } else {
        assert((a + b).drop_first() =~= a.drop_first() + b);
        lemma_encode_utf8_concat(a.drop_first(), b);
        assert(encode_utf8(a + b) =~= encode_utf8(a) + encode_utf8(b));
    }
}

/// The first byte of a valid, non-empty UTF-8 sequence is a leading byte,
/// never a continuation byte.
pub proof fn lemma_first_byte_not_continuation(s: Seq<u8>)
    requires
        valid_utf8(s),
        s.len() > 0,
    ensures
        !is_continuation_byte(s[0]),
{
    assert(valid_first_scalar(s));
}

/// The last scalar of a valid, non-empty UTF-8 sequence: its length is in
/// range, it begins at a character boundary on a leading byte, and every
/// byte after that is a continuation byte.
pub proof fn lemma_last_scalar_structure(s: Seq<u8>)
    requires
        valid_utf8(s),
        s.len() > 0,
    ensures
        ({
            let n = s.len() as int;
            let k = length_of_last_scalar(s);
            &&& 1 <= k <= n
            &&& is_char_boundary(s, n - k)
            &&& !is_continuation_byte(s[n - k])
            &&& forall|j: int| n - k < j < n ==> is_continuation_byte(s[j])
        }),
    decreases s.len(),
{
    let n = s.len() as int;
    let m = length_of_first_scalar(s);
    let rest = pop_first_scalar(s);
    assert(valid_first_scalar(s));
    if rest.len() == 0 {
        assert(m == n);
        assert(!is_continuation_byte(s[0]));
        assert(forall|j: int| 0 < j < n ==> is_continuation_byte(s[j]));
        assert(length_of_last_scalar(s) == n);
    } else {
        lemma_last_scalar_structure(rest);
        let nr = rest.len() as int;
        let kr = length_of_last_scalar(rest);
        assert(forall|j: int| 0 <= j < nr ==> rest[j] == s[m + j]);
        lemma_first_byte_not_continuation(rest);
        assert(length_of_last_scalar(s) == kr);
        assert(is_char_boundary(s, n - kr));
    }
}

/// A valid UTF-8 sequence that consists of one leading byte followed only
/// by continuation bytes encodes exactly one character, a Unicode scalar.
pub proof fn lemma_single_scalar_decode(t: Seq<u8>)
    requires
        valid_utf8(t),
        t.len() > 0,
        !is_continuation_byte(t[0]),
        forall|j: int| 0 < j < t.len() ==> is_continuation_byte(t[j]),
    ensures
        length_of_first_scalar(t) == t.len(),
        decode_utf8(t) == seq![decode_first_scalar(t) as char],
        is_scalar(decode_first_scalar(t)),
{
    assert(valid_first_scalar(t));
    let m = length_of_first_scalar(t);
    let rest = pop_first_scalar(t);
    if m < t.len() {
        assert(valid_utf8(rest));
        lemma_first_byte_not_continuation(rest);
        assert(rest[0] == t[m]);
        assert(false);
    }
    assert(rest.len() == 0);
    assert(rest =~= Seq::<u8>::empty());
    assert(decode_utf8(rest) =~= Seq::<char>::empty());
    assert(decode_utf8(t) =~= seq![decode_first_scalar(t) as char]);
    let c = decode_first_codepoint(t);
    if is_leading_byte_width_1(t[0]) {
        let b1 = t[0];
        assert(((b1 & 0x7F) as u32) <= 0x7F) by (bit_vector);
    } else if is_leading_byte_width_2(t[0]) {
        let b1 = t[0];
        let b2 = t[1];
        assert(((((b1 & 0x1F) as u32) << 6) | ((b2 & 0x3F) as u32)) <= 0x7FF) by (bit_vector);
    } else if is_leading_byte_width_3(t[0]) {
        let b1 = t[0];
        let b2 = t[1];
        let b3 = t[2];
        assert(((((b1 & 0x0F) as u32) << 12) | ((((b2 & 0x3F) as u32)) << 6) | ((b3
            & 0x3F) as u32)) <= 0xFFFF) by (bit_vector);
    }
}

/// Splitting off the last scalar of a valid, non-empty UTF-8 sequence: the
/// prefix is valid UTF-8 and decodes to everything but the last character,
/// which is the decoded last scalar.
pub proof fn lemma_split_last_scalar(s: Seq<u8>)
    requires
        valid_utf8(s),
        s.len() > 0,
    ensures
        ({
            let n = s.len() as int;
            let k = length_of_last_scalar(s);
            let prefix = s.subrange(0, n - k);
            &&& 1 <= k <= n
            &&& valid_utf8(prefix)
            &&& is_scalar(decode_last_scalar(s))
            &&& decode_utf8(s).len() > 0
            &&& decode_utf8(s) == decode_utf8(prefix) + seq![decode_last_scalar(s) as char]
            &&& decode_utf8(s).last() == decode_last_scalar(s) as char
            &&& decode_utf8(prefix) == decode_utf8(s).drop_last()
        }),
{
    let n = s.len() as int;
    let k = length_of_last_scalar(s);
    lemma_last_scalar_structure(s);
    valid_utf8_split(s, n - k);
    decode_utf8_split(s, n - k);
    let prefix = s.subrange(0, n - k);
    let tail = s.subrange(n - k, n);
    lemma_single_scalar_decode(tail);
    assert(decode_first_scalar(tail) == decode_last_scalar(s)) by {
        assert(tail.len() == k);
        assert(length_of_first_scalar(tail) == k);
        assert(tail[0] == s[n - k]);
        if k >= 2 {
            assert(tail[1] == s[n - k + 1]);
        }
        if k >= 3 {
            assert(tail[2] == s[n - k + 2]);
        }
        if k >= 4 {
            assert(tail[3] == s[n - k + 3]);
        }
    }
    assert(decode_utf8(s) =~= decode_utf8(prefix) + seq![decode_last_scalar(s) as char]);
    assert(decode_utf8(prefix) =~= decode_utf8(s).drop_last());
}

/// Relies on `char::from_u32`: it returns `Some` exactly for values below
/// 0x110000 and outside the surrogate range — the Unicode scalar values —
/// and the returned character casts back to the given value.
#[verifier::external_body]
fn char_from_u32(u: u32) -> (r: Option<char>)
    ensures
        r is Some <==> is_scalar(u),
        r matches Some(c) ==> c as u32 == u,
{
    char::from_u32(u)
}

/// The last character encoded in `bytes` together with the byte length of
/// the rest: the returned length marks the boundary where that character's
/// encoding starts.
pub fn split_last_char(bytes: &[u8]) -> (r: (char, usize))
    requires
        valid_utf8(bytes@),
        bytes@.len() > 0,
    ensures
        r.1 == bytes@.len() - length_of_last_scalar(bytes@),
        r.1 < bytes@.len(),
        valid_utf8(bytes@.subrange(0, r.1 as int)),
        decode_utf8(bytes@).len() > 0,
        r.0 == decode_utf8(bytes@).last(),
        decode_utf8(bytes@.subrange(0, r.1 as int)) == decode_utf8(bytes@).drop_last(),
{
    proof {
        lemma_last_scalar_structure(bytes@);
        lemma_split_last_scalar(bytes@);
    }
    let n = bytes.len();
    let b1 = bytes[n - 1];
    let (code, k): (u32, usize) = if !(0x80 <= b1 && b1 <= 0xBF) {
        (((b1 & 0x7F) as u32), 1)
    } else {
        let b2 = bytes[n - 2];
        if !(0x80 <= b2 && b2 <= 0xBF) {
            (((((b2 & 0x1F) as u32) << 6u32) | ((b1 & 0x3F) as u32)), 2)
        } else {
            let b3 = bytes[n - 3];
            if !(0x80 <= b3 && b3 <= 0xBF) {
                (((((b3 & 0x0F) as u32) << 12u32) | (((b2 & 0x3F) as u32) << 6u32) | ((b1
                    & 0x3F) as u32)), 3)
            } else {
                let b4 = bytes[n - 4];
                (((((b4 & 0x07) as u32) << 18u32) | (((b3 & 0x3F) as u32) << 12u32) | (((b2
                    & 0x3F) as u32) << 6u32) | ((b1 & 0x3F) as u32)), 4)
            }
        }
    };
    proof {
        assert(k == length_of_last_scalar(bytes@));
        assert(code == decode_last_scalar(bytes@));
    }
    match char_from_u32(code) {
        Some(c) => {
            proof {
                vstd::utf8::char_u32_cast(c, code);
            }
            (c, n - k)
        },
        None => unreached(),
    }
}

/// Whether two byte slices hold the same bytes.
pub fn bytes_eq(a: &[u8], b: &[u8]) -> (r: bool)
    ensures
        r <==> a@ == b@,
{
    let n = a.len();
    if n != b.len() {
        proof {
            assert(a@ != b@);
        }
        return false;
    }
    let mut i: usize = 0;
    while i < n
        invariant
            i <= n,
            n == a@.len() == b@.len(),
            forall|j: int| 0 <= j < i ==> a@[j] == b@[j],
        decreases n - i,
    {
        if a[i] != b[i] {
            proof {
                assert(a@ != b@);
            }
            return false;
        }
        i += 1;
    }
    proof {
        assert(a@ =~= b@);
    }
    true
}

} // verus!
