//! The heap-backed form: length, exact allocation capacity, and an owned
//! buffer handle.
//!
//! The length is stored shifted left by one so that its low bit — the
//! discriminant shared with the inline form — is always 0, meaning "heap
//! active".  The capacity records exactly what the allocator granted, which
//! is what deallocation must hand back.  Growth never happens in place: a
//! fresh buffer is allocated, the bytes are copied, and the old buffer is
//! freed.

use crate::encoding::{
    encode_char, lemma_decode_utf8_concat, lemma_encode_utf8_singleton, lemma_str_view_of_bytes,
    str_from_bytes,
};
use crate::raw_buf::RawBuf;
use crate::short_string::MAX_CAPACITY;
use crate::unified_alloc::MAX_ALLOC_SIZE;
use vstd::layout::layout_of_primitives;
use vstd::prelude::*;
use vstd::string::StringSliceAdditionalSpecFns;
use vstd::utf8::{decode_utf8, encode_scalar, valid_utf8};

verus! {

/// The capacity a heap buffer is regrown to when it must hold `want` bytes
/// in total: at least double the old capacity — within what the allocator
/// accepts — and at least `want`.
pub open spec fn spec_grown_capacity(capacity: int, want: int) -> int {
    let doubled = if 2 * capacity <= MAX_ALLOC_SIZE {
        2 * capacity
    } else {
        MAX_ALLOC_SIZE as int
    };
    if want >= doubled {
        want
    } else {
        doubled
    }
}

/// The heap-backed string form.
#[derive(Debug)]
pub struct LongString {
    /// Byte length shifted left by one; the low bit is the shared
    /// discriminant and stays 0 while this form is active.
    len: usize,
    /// Owned buffer handle; its written prefix is exactly the text.
    buf: RawBuf<u8>,
    /// Exact size of the allocation, as granted; what `free` must pass back.
    capacity: usize,
}

impl View for LongString {
    type V = Seq<char>;

    /// The text this form holds: what its stored bytes decode to.
    open spec fn view(&self) -> Seq<char> {
        decode_utf8(self.spec_bytes())
    }
}

impl LongString {
    #[verifier::type_invariant]
    spec fn wf(&self) -> bool {
        &&& self.len % 2 == 0
        &&& self.len / 2 == self.buf@.len()
        &&& self.buf@.len() <= self.capacity
        &&& self.capacity == self.buf.spec_granted()
        &&& self.capacity <= MAX_ALLOC_SIZE
        &&& valid_utf8(self.buf@)
    }

    /// The stored text bytes, a valid UTF-8 encoding.
    pub closed spec fn spec_bytes(&self) -> Seq<u8> {
        self.buf@
    }

    /// The length of the stored text in bytes.
    pub open spec fn spec_len(&self) -> nat {
        self.spec_bytes().len()
    }

    /// The exact granted size of the allocation, in bytes.
    pub closed spec fn spec_capacity(&self) -> usize {
        self.capacity
    }

    /// Allocates a heap form with no text and exactly the requested
    /// capacity, which is what this allocator grants.  A request for zero
    /// bytes allocates nothing and yields the non-owning sentinel.
    pub fn with_capacity(capacity: usize) -> (r: Self)
        requires
            capacity <= MAX_ALLOC_SIZE,
        ensures
            r.spec_bytes() == Seq::<u8>::empty(),
            r@ == Seq::<char>::empty(),
            r.spec_capacity() == capacity,
    {
        proof {
            broadcast use layout_of_primitives;

        }
        let (buf, granted) = RawBuf::new(capacity);
        LongString { len: 0, buf, capacity: granted }
    }

    /// The heap form holding the text of `s`, with capacity exactly its byte
    /// length.
    pub fn from_str(s: &str) -> (r: Self)
        requires
            s.spec_bytes().len() <= MAX_ALLOC_SIZE,
        ensures
            r.spec_bytes() == s.spec_bytes(),
            r@ == s@,
            r.spec_capacity() == s.spec_bytes().len(),
    {
        let mut r = Self::with_capacity(s.len());
        r.copy_from(s);
        r
    }

    /// Reads the shared discriminant bit; on a heap form it is always
    /// clear.
    pub fn is_short(&self) -> (r: bool)
        ensures
            !r,
    {
        proof {
            use_type_invariant(self);
        }
        (self.len % 2) == 1
    }

    /// The length of the text in bytes; never more than the capacity.
    pub fn len(&self) -> (r: usize)
        ensures
            r == self.spec_len(),
            r <= self.spec_capacity(),
    {
        proof {
            use_type_invariant(self);
        }
        self.len / 2
    }

    /// The exact size of the allocation in bytes: how many bytes the form
    /// can hold before it must be regrown.
    pub fn capacity(&self) -> (r: usize)
        ensures
            r == self.spec_capacity(),
            self.spec_len() <= r <= MAX_ALLOC_SIZE,
    {
        proof {
            use_type_invariant(self);
        }
        self.capacity
    }

    /// The underlying buffer handle.
    pub fn buf(&self) -> (r: &RawBuf<u8>)
        ensures
            r@ == self.spec_bytes(),
            r.spec_granted() == self.spec_capacity(),
    {
        proof {
            use_type_invariant(self);
        }
        &self.buf
    }

    /// How many bytes can still be written before a regrow must occur.
    pub fn remaining_capacity(&self) -> (r: usize)
        ensures
            r == self.spec_capacity() - self.spec_len(),
    {
        self.capacity() - self.len()
    }

    /// The stored bytes; always a valid UTF-8 encoding.
    pub fn as_bytes(&self) -> (r: &[u8])
        ensures
            r@ == self.spec_bytes(),
    {
        proof {
            use_type_invariant(self);
        }
        self.buf.as_slice()
    }

    /// The stored text.
    pub fn as_str(&self) -> (r: &str)
        ensures
            r@ == self@,
            r.spec_bytes() == self.spec_bytes(),
    {
        proof {
            use_type_invariant(self);
        }
        let r = str_from_bytes(self.as_bytes());
        proof {
            lemma_str_view_of_bytes(r);
        }
        r
    }

    /// Replaces the stored text with `s`, which must fit in the current
    /// capacity: the buffer is rewritten in place, never regrown.
    pub fn copy_from(&mut self, s: &str)
        requires
            s.spec_bytes().len() <= old(self).spec_capacity(),
        ensures
            final(self).spec_bytes() == s.spec_bytes(),
            final(self)@ == s@,
            final(self).spec_capacity() == old(self).spec_capacity(),
    {
        proof {
            use_type_invariant(&*self);
            lemma_str_view_of_bytes(s);
        }
        let bytes = s.as_bytes();
        let mut tmp = LongString { len: 0, buf: RawBuf::dangling(), capacity: 0 };
        core::mem::swap(self, &mut tmp);
        let LongString { len: _, mut buf, capacity } = tmp;
        buf.clear();
        buf.append_from_slice(bytes);
        let n = bytes.len();
        *self = LongString { len: 2 * n, buf, capacity };
    }

    /// A fresh heap form holding the same text, with at least
    /// `additional_capacity` bytes of headroom beyond the current capacity;
    /// this value is left untouched.
    pub fn clone_with_additional_capacity(&self, additional_capacity: usize) -> (r: Self)
        requires
            self.spec_capacity() + additional_capacity <= MAX_ALLOC_SIZE,
        ensures
            r.spec_bytes() == self.spec_bytes(),
            r@ == self@,
            r.spec_capacity() == self.spec_capacity() + additional_capacity,
    {
        proof {
            use_type_invariant(self);
        }
        let mut new = Self::with_capacity(self.capacity() + additional_capacity);
        new.copy_from(self.as_str());
        new
    }

    /// Regrows the buffer so that at least `remaining_capacity` more bytes
    /// fit: a fresh buffer of the grown capacity is allocated, the text is
    /// copied over, and the old buffer is freed.
    pub fn realloc(&mut self, remaining_capacity: usize)
        requires
            old(self).spec_len() + remaining_capacity <= MAX_ALLOC_SIZE,
        ensures
            final(self).spec_bytes() == old(self).spec_bytes(),
            final(self)@ == old(self)@,
            final(self).spec_capacity() == spec_grown_capacity(
                old(self).spec_capacity() as int,
                old(self).spec_len() + remaining_capacity as int,
            ),
            old(self).spec_capacity() <= final(self).spec_capacity(),
            old(self).spec_len() + remaining_capacity <= final(self).spec_capacity(),
    {
        proof {
            use_type_invariant(&*self);
        }
        let len = self.len();
        let cap = self.capacity();
        let doubled = if cap <= MAX_ALLOC_SIZE / 2 {
            cap * 2
        } else {
            MAX_ALLOC_SIZE
        };
        let want = len + remaining_capacity;
        let new_cap = if want >= doubled {
            want
        } else {
            doubled
        };
        let mut grown = self.clone_with_additional_capacity(new_cap - cap);
        core::mem::swap(self, &mut grown);
        grown.free();
    }

    /// Appends the bytes of `s`, regrowing first when they do not fit in the
    /// remaining capacity.  The capacity never decreases.
    pub fn push_str(&mut self, s: &str)
        requires
            old(self).spec_len() + s.spec_bytes().len() <= MAX_ALLOC_SIZE,
        ensures
            final(self).spec_bytes() == old(self).spec_bytes() + s.spec_bytes(),
            final(self)@ == old(self)@ + s@,
            old(self).spec_capacity() <= final(self).spec_capacity(),
            final(self).spec_capacity() == (if old(self).spec_len() + s.spec_bytes().len() <= old(
                self,
            ).spec_capacity() {
                old(self).spec_capacity() as int
            } else {
                spec_grown_capacity(
                    old(self).spec_capacity() as int,
                    old(self).spec_len() + s.spec_bytes().len() as int,
                )
            }),
    {
        proof {
            use_type_invariant(&*self);
            lemma_str_view_of_bytes(s);
            lemma_decode_utf8_concat(self.spec_bytes(), s.spec_bytes());
        }
        let bytes = s.as_bytes();
        let str_len = bytes.len();
        if self.remaining_capacity() < str_len {
            self.realloc(str_len);
        }
        let old_len = self.len();
        let mut tmp = LongString { len: 0, buf: RawBuf::dangling(), capacity: 0 };
        core::mem::swap(self, &mut tmp);
        proof {
            use_type_invariant(&tmp);
        }
        let LongString { len: _, mut buf, capacity } = tmp;
        buf.append_from_slice(bytes);
        *self = LongString { len: 2 * (old_len + str_len), buf, capacity };
    }

    /// Appends a single character, regrowing first when its encoding does
    /// not fit in the remaining capacity.  The capacity never decreases.
    pub fn push(&mut self, c: char)
        requires
            old(self).spec_len() + encode_scalar(c as u32).len() <= MAX_ALLOC_SIZE,
        ensures
            final(self).spec_bytes() == old(self).spec_bytes() + encode_scalar(c as u32),
            final(self)@ == old(self)@ + seq![c],
            old(self).spec_capacity() <= final(self).spec_capacity(),
            final(self).spec_capacity() == (if old(self).spec_len() + encode_scalar(
                c as u32,
            ).len() <= old(self).spec_capacity() {
                old(self).spec_capacity() as int
            } else {
                spec_grown_capacity(
                    old(self).spec_capacity() as int,
                    old(self).spec_len() + encode_scalar(c as u32).len() as int,
                )
            }),
    {
        proof {
            use_type_invariant(&*self);
            lemma_encode_utf8_singleton(c);
            lemma_decode_utf8_concat(self.spec_bytes(), encode_scalar(c as u32));
        }
        let (ebuf, elen) = encode_char(c);
        if self.remaining_capacity() < elen {
            self.realloc(elen);
        }
        let old_len = self.len();
        let mut tmp = LongString { len: 0, buf: RawBuf::dangling(), capacity: 0 };
        core::mem::swap(self, &mut tmp);
        proof {
            use_type_invariant(&tmp);
        }
        let LongString { len: _, mut buf, capacity } = tmp;
        buf.append_from_slice(&ebuf[0..elen]);
        *self = LongString { len: 2 * (old_len + elen), buf, capacity };
    }

    /// Removes and returns the last character, or `None` when the form is
    /// empty.  The buffer and its capacity stay as they are.
    pub fn pop(&mut self) -> (r: Option<char>)
        ensures
            old(self)@.len() == 0 ==> r is None && *final(self) == *old(self),
            old(self)@.len() > 0 ==> r == Some(old(self)@.last()) && final(self)@ == old(
                self,
            )@.drop_last(),
            final(self).spec_capacity() == old(self).spec_capacity(),
    {
        proof {
            use_type_invariant(&*self);
        }
        if self.len() == 0 {
            proof {
                assert(old(self)@ =~= Seq::<char>::empty());
            }
            return None;
        }
        let (c, new_len) = crate::encoding::split_last_char(self.as_bytes());
        let mut tmp = LongString { len: 0, buf: RawBuf::dangling(), capacity: 0 };
        core::mem::swap(self, &mut tmp);
        proof {
            use_type_invariant(&tmp);
        }
        let LongString { len: _, mut buf, capacity } = tmp;
        buf.truncate(new_len);
        *self = LongString { len: 2 * new_len, buf, capacity };
        Some(c)
    }

    /// Replaces the buffer with a fresh one of exactly `new_capacity`
    /// bytes, copies the text over and frees the old buffer.  This is the
    /// one path by which a heap form's capacity can shrink.
    pub fn realloc_exact(&mut self, new_capacity: usize)
        requires
            old(self).spec_len() <= new_capacity <= MAX_ALLOC_SIZE,
        ensures
            final(self).spec_bytes() == old(self).spec_bytes(),
            final(self)@ == old(self)@,
            final(self).spec_capacity() == new_capacity,
    {
        proof {
            use_type_invariant(&*self);
        }
        let mut fresh = Self::with_capacity(new_capacity);
        fresh.copy_from(self.as_str());
        core::mem::swap(self, &mut fresh);
        fresh.free();
    }

    /// Forgets the text: length 0, buffer and capacity kept as they are.
    pub fn clear(&mut self)
        ensures
            final(self).spec_len() == 0,
            final(self)@ == Seq::<char>::empty(),
            final(self).spec_capacity() == old(self).spec_capacity(),
    {
        proof {
            use_type_invariant(&*self);
        }
        let mut tmp = LongString { len: 0, buf: RawBuf::dangling(), capacity: 0 };
        core::mem::swap(self, &mut tmp);
        let LongString { len: _, mut buf, capacity } = tmp;
        buf.clear();
        *self = LongString { len: 0, buf, capacity };
    }

    /// Frees the owned buffer, handing the allocator back its exact granted
    /// size, and leaves the sentinel state behind — length 0, capacity 0,
    /// non-owning handle — so that reuse cannot free the buffer twice.  The
    /// sentinel itself owns nothing and is not passed to the allocator.
    pub fn free(&mut self)
        ensures
            final(self).spec_len() == 0,
            final(self).spec_capacity() == 0,
            final(self)@ == Seq::<char>::empty(),
    {
        proof {
            use_type_invariant(&*self);
        }
        let mut tmp = LongString { len: 0, buf: RawBuf::dangling(), capacity: 0 };
        core::mem::swap(self, &mut tmp);
        let LongString { len: _, buf, capacity } = tmp;
        if capacity != 0 {
            match buf.dealloc(capacity) {
                Ok(_) => {},
                Err(_) => {
                    proof {
                        assert(false);
                    }
                },
            }
        }
    }

    /// Whether the text — or `min_capacity`, if larger — would fit within
    /// the inline form's capacity, making demotion possible.
    pub fn demote_check(&self, min_capacity: usize) -> (r: bool)
        ensures
            r <==> (min_capacity <= MAX_CAPACITY && self.spec_len() <= MAX_CAPACITY),
    {
        let len = self.len();
        let need = if min_capacity >= len {
            min_capacity
        } else {
            len
        };
        need <= MAX_CAPACITY
    }
}

impl Clone for LongString {
    /// A deep copy: a fresh buffer of the same capacity holding the same
    /// text; no sharing with the source.
    fn clone(&self) -> (r: Self)
        ensures
            r.spec_bytes() == self.spec_bytes(),
            r@ == self@,
            r.spec_capacity() == self.spec_capacity(),
    {
        proof {
            use_type_invariant(self);
        }
        self.clone_with_additional_capacity(0)
    }
}

} // verus!
