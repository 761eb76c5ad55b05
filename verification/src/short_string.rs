//! The inline form: text stored directly in the container's footprint.
//!
//! One byte packs the length together with the discriminant bit — the low
//! bit, always 1, meaning "inline active" — and the remaining 23 bytes hold
//! the text itself.  The whole form occupies the same 24-byte footprint as
//! the heap form's pointer, length and capacity triple, and never allocates.

use crate::encoding::{
    encode_char, lemma_decode_utf8_concat, lemma_encode_utf8_singleton, lemma_str_view_of_bytes,
    split_last_char, str_from_bytes,
};
use crate::long_string::LongString;
use crate::unified_alloc::MAX_ALLOC_SIZE;
use vstd::prelude::*;
use vstd::string::StringSliceAdditionalSpecFns;
use vstd::utf8::{decode_utf8, encode_scalar, valid_utf8, valid_utf8_concat};

verus! {

/// Number of text bytes the inline form can hold: its 24-byte footprint
/// minus the byte that packs the length and the discriminant.
pub const MAX_CAPACITY: usize = 23;

/// The inline string form.
#[derive(Clone, Copy, Debug)]
pub struct ShortString64 {
    /// Length shifted left by one, with the low bit — the shared
    /// discriminant — always 1 while this form is active.
    len_and_flag: u8,
    /// The text bytes; only the first `len` are meaningful.
    buf: [u8; 23],
}

impl View for ShortString64 {
    type V = Seq<char>;

    /// The text this form holds: what its stored bytes decode to.
    open spec fn view(&self) -> Seq<char> {
        decode_utf8(self.spec_bytes())
    }
}

impl ShortString64 {
    #[verifier::type_invariant]
    spec fn wf(&self) -> bool {
        &&& self.len_and_flag & 1 == 1
        &&& (self.len_and_flag >> 1) <= MAX_CAPACITY
        &&& valid_utf8(self.spec_bytes())
    }

    /// The stored text bytes, a valid UTF-8 encoding.
    pub closed spec fn spec_bytes(&self) -> Seq<u8> {
        self.buf@.subrange(0, (self.len_and_flag >> 1) as int)
    }

    /// The length of the stored text in bytes.
    pub open spec fn spec_len(&self) -> nat {
        self.spec_bytes().len()
    }

    /// An empty inline form: length 0, discriminant set to "inline".
    pub fn new() -> (r: Self)
        ensures
            r.spec_len() == 0,
            r.spec_bytes() == Seq::<u8>::empty(),
            r@ == Seq::<char>::empty(),
    {
        proof {
            assert(1u8 & 1 == 1 && 1u8 >> 1 == 0) by (bit_vector);
        }
        let r = ShortString64 { len_and_flag: 1, buf: [0u8; 23] };
        proof {
            assert(r.spec_bytes() =~= Seq::<u8>::empty());
        }
        r
    }

    /// Reads the shared discriminant bit; on an inline form it is always
    /// set.
    pub fn is_short(&self) -> (r: bool)
        ensures
            r,
    {
        proof {
            use_type_invariant(self);
        }
        (self.len_and_flag & 1) == 1
    }

    /// The length of the stored text in bytes; never more than
    /// [`MAX_CAPACITY`].
    pub fn len(&self) -> (r: usize)
        ensures
            r == self.spec_len(),
            r <= MAX_CAPACITY,
    {
        proof {
            use_type_invariant(self);
            let f = self.len_and_flag;
            assert((f & (0xffu8 << 1)) >> 1 == f >> 1) by (bit_vector);
        }
        ((self.len_and_flag & (0xffu8 << 1u8)) >> 1u8) as usize
    }

    /// The capacity of the inline form: the constant [`MAX_CAPACITY`];
    /// never less than the length.
    pub fn capacity(&self) -> (r: usize)
        ensures
            r == MAX_CAPACITY,
            self.spec_len() <= r,
    {
        proof {
            use_type_invariant(self);
        }
        MAX_CAPACITY
    }

    /// How many more bytes the form can take before it is full.
    pub fn remaining_capacity(&self) -> (r: usize)
        ensures
            r == MAX_CAPACITY - self.spec_len(),
    {
        MAX_CAPACITY - self.len()
    }

    /// Sets the length to `n`, preserving the discriminant bit.  The first
    /// `n` stored bytes must already be valid text.
    pub fn set_len(&mut self, n: usize)
        requires
            n <= MAX_CAPACITY,
            valid_utf8(old(self).spec_buf().subrange(0, n as int)),
        ensures
            final(self).spec_len() == n,
            final(self).spec_buf() == old(self).spec_buf(),
            final(self).spec_bytes() == old(self).spec_buf().subrange(0, n as int),
    {
        proof {
            use_type_invariant(&*self);
        }
        let mask = self.len_and_flag & 1;
        let encoded = mask | ((n as u8) << 1u8);
        proof {
            let m = self.len_and_flag;
            let nn = n as u8;
            assert((m & 1 == 1 && nn <= 23) ==> (((m & 1) | (nn << 1)) & 1 == 1 && ((m & 1) | (nn
                << 1)) >> 1 == nn)) by (bit_vector);
        }
        self.len_and_flag = encoded;
    }

    /// The full 23-byte inline buffer, written or not.
    pub closed spec fn spec_buf(&self) -> Seq<u8> {
        self.buf@
    }

    /// Appends `s` when its bytes fit in the remaining capacity, and leaves
    /// the form unchanged otherwise: a partial write could tear a
    /// character's encoding, and the stored bytes must stay valid text.
    /// Overflow handling belongs to the container, which promotes to the
    /// heap form instead.
    pub fn push_str(&mut self, s: &str)
        ensures
            old(self).spec_len() + s.spec_bytes().len() <= MAX_CAPACITY ==> {
                &&& final(self).spec_bytes() == old(self).spec_bytes() + s.spec_bytes()
                &&& final(self)@ == old(self)@ + s@
                &&& final(self).spec_len() == old(self).spec_len() + s.spec_bytes().len()
            },
            old(self).spec_len() + s.spec_bytes().len() > MAX_CAPACITY ==> *final(self) == *old(
                self,
            ),
    {
        proof {
            use_type_invariant(&*self);
            lemma_str_view_of_bytes(s);
        }
        let bytes = s.as_bytes();
        let count = bytes.len();
        if count > self.remaining_capacity() {
            return ;
        }
        let len = self.len();
        let mut arr = self.buf;
        let mut k: usize = 0;
        while k < count
            invariant
                k <= count,
                count == bytes@.len(),
                len + count <= MAX_CAPACITY,
                len == old(self).spec_len(),
                arr@.len() == 23,
                arr@.subrange(0, len as int) == old(self).spec_bytes(),
                arr@.subrange(len as int, len + k) == bytes@.subrange(0, k as int),
            decreases count - k,
        {
            let i = len + k;
            arr[i] = bytes[k];
            k += 1;
            proof {
                assert(arr@.subrange(0, len as int) =~= old(self).spec_bytes());
                assert(arr@.subrange(len as int, len + k) =~= bytes@.subrange(0, k as int));
            }
        }
        proof {
            valid_utf8_concat(old(self).spec_bytes(), s.spec_bytes());
            let combined = old(self).spec_bytes() + s.spec_bytes();
            assert(bytes@.subrange(0, count as int) =~= bytes@);
            assert forall|j: int| 0 <= j < len + count implies arr@[j] == combined[j] by {
                if j < len {
                    assert(arr@.subrange(0, len as int)[j] == arr@[j]);
                } else {
                    assert(arr@.subrange(len as int, (len + count) as int)[j - len] == arr@[j]);
                }
            }
            assert(arr@.subrange(0, (len + count) as int) =~= combined);
        }
        self.buf = arr;
        self.set_len(len + count);
        proof {
            assert(final(self).spec_bytes() =~= old(self).spec_bytes() + s.spec_bytes());
            lemma_decode_utf8_concat(old(self).spec_bytes(), s.spec_bytes());
        }
    }

    /// Appends a single character when its encoding fits in the remaining
    /// capacity, and leaves the form unchanged otherwise.
    pub fn push(&mut self, c: char)
        ensures
            old(self).spec_len() + encode_scalar(c as u32).len() <= MAX_CAPACITY ==> {
                &&& final(self).spec_bytes() == old(self).spec_bytes() + encode_scalar(c as u32)
                &&& final(self)@ == old(self)@ + seq![c]
                &&& final(self).spec_len() == old(self).spec_len() + encode_scalar(
                    c as u32,
                ).len()
            },
            old(self).spec_len() + encode_scalar(c as u32).len() > MAX_CAPACITY ==> *final(self)
                == *old(self),
    {
        proof {
            use_type_invariant(&*self);
            lemma_encode_utf8_singleton(c);
        }
        let (ebuf, elen) = encode_char(c);
        if elen > self.remaining_capacity() {
            return ;
        }
        let len = self.len();
        let mut arr = self.buf;
        let mut k: usize = 0;
        while k < elen
            invariant
                k <= elen,
                elen <= 4,
                elen == encode_scalar(c as u32).len(),
                ebuf@.subrange(0, elen as int) == encode_scalar(c as u32),
                len + elen <= MAX_CAPACITY,
                len == old(self).spec_len(),
                arr@.len() == 23,
                arr@.subrange(0, len as int) == old(self).spec_bytes(),
                arr@.subrange(len as int, len + k) == ebuf@.subrange(0, k as int),
            decreases elen - k,
        {
            let i = len + k;
            arr[i] = ebuf[k];
            k += 1;
            proof {
                assert(arr@.subrange(0, len as int) =~= old(self).spec_bytes());
                assert(arr@.subrange(len as int, len + k) =~= ebuf@.subrange(0, k as int));
            }
        }
        proof {
            valid_utf8_concat(old(self).spec_bytes(), encode_scalar(c as u32));
            assert(arr@.subrange(0, (len + elen) as int) =~= old(self).spec_bytes()
                + encode_scalar(c as u32));
            assert(arr@.subrange(0, len as int) =~= old(self).spec_bytes());
        }
        self.buf = arr;
        self.set_len(len + elen);
        proof {
            assert(final(self).spec_bytes() =~= old(self).spec_bytes() + encode_scalar(c as u32));
            lemma_decode_utf8_concat(old(self).spec_bytes(), encode_scalar(c as u32));
        }
    }

    /// Removes and returns the last character, or `None` when the form is
    /// empty.
    pub fn pop(&mut self) -> (r: Option<char>)
        ensures
            old(self)@.len() == 0 ==> r is None && *final(self) == *old(self),
            old(self)@.len() > 0 ==> r == Some(old(self)@.last()) && final(self)@ == old(
                self,
            )@.drop_last(),
    {
        proof {
            use_type_invariant(&*self);
        }
        if self.len() == 0 {
            proof {
                assert(old(self)@ =~= Seq::<char>::empty());
            }
            return None;
        }
        let (c, new_len) = split_last_char(self.as_bytes());
        proof {
            assert(old(self).spec_buf().subrange(0, new_len as int) =~= old(
                self,
            ).spec_bytes().subrange(0, new_len as int));
        }
        self.set_len(new_len);
        Some(c)
    }

    /// Promotes to a heap form whose capacity is the inline capacity plus
    /// `additional_capacity`: everything currently inline fits, with the
    /// requested headroom beyond it.
    pub fn into_long(&self, additional_capacity: usize) -> (r: LongString)
        requires
            MAX_CAPACITY + additional_capacity <= MAX_ALLOC_SIZE,
        ensures
            r.spec_bytes() == self.spec_bytes(),
            r@ == self@,
            r.spec_capacity() == MAX_CAPACITY + additional_capacity,
            self.spec_len() <= MAX_CAPACITY,
    {
        proof {
            use_type_invariant(self);
        }
        let mut long = LongString::with_capacity(MAX_CAPACITY + additional_capacity);
        long.copy_from(self.as_str());
        long
    }

    /// The stored bytes; always a valid UTF-8 encoding.
    pub fn as_bytes(&self) -> (r: &[u8])
        ensures
            r@ == self.spec_bytes(),
    {
        proof {
            use_type_invariant(self);
        }
        let len = self.len();
        &self.buf[0..len]
    }

    /// The stored text.
    pub fn as_str(&self) -> (r: &str)
        ensures
            r@ == self@,
            r.spec_bytes() == self.spec_bytes(),
    {
        proof {
            use_type_invariant(self);
        }
        let r = str_from_bytes(self.as_bytes());
        proof {
            lemma_str_view_of_bytes(r);
        }
        r
    }
}

} // verus!
