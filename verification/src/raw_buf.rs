//! The buffer allocator's side of the container: raw regions of `T`.
//!
//! A [`RawBuf`] is the handle for one allocated region.  `new` grants a
//! region of at least the requested capacity and reports the granted size
//! exactly; `dealloc` frees the region and demands that exact size back.  A
//! zero-capacity request yields a non-owning sentinel that owns nothing and
//! must never be deallocated.
//!
//! The region starts out uninitialized.  Values become readable only once
//! they have been written, one after the other from the start, which is
//! tracked by the handle itself: its view is the sequence of values written
//! so far, never longer than the granted capacity.

use crate::unified_alloc::{new_slice_layout, Layout, MAX_ALLOC_SIZE};
use vstd::layout::size_of;
use vstd::prelude::*;

verus! {

/// A deallocation request whose size cannot correspond to a real allocation.
#[derive(Debug, PartialEq, Eq, Structural)]
pub struct InvalidArgumentError;

/// Handle to one allocated region holding up to `granted` values of `T`, of
/// which the first `self@.len()` have been written.
#[derive(Debug)]
pub struct RawBuf<T> {
    data: Vec<T>,
    granted: usize,
}

impl<T> View for RawBuf<T> {
    type V = Seq<T>;

    closed spec fn view(&self) -> Seq<T> {
        self.data@
    }
}

impl<T> RawBuf<T> {
    #[verifier::type_invariant]
    spec fn wf(&self) -> bool {
        &&& self.data@.len() <= self.granted
        &&& self.granted <= MAX_ALLOC_SIZE
    }

    /// The exact size of the region, as the allocator granted it.  Zero for
    /// the non-owning sentinel.
    pub closed spec fn spec_granted(&self) -> usize {
        self.granted
    }

    /// The non-owning sentinel: no region, no capacity.
    pub fn dangling() -> (r: Self)
        ensures
            r.spec_granted() == 0,
            r@ == Seq::<T>::empty(),
    {
        RawBuf { data: Vec::new(), granted: 0 }
    }

    /// The layout of a region holding `capacity` values of `T`, and the
    /// stride between consecutive values.
    pub fn new_layout(capacity: usize) -> (r: (Layout, usize))
        requires
            1 <= size_of::<T>(),
            1 <= capacity,
            size_of::<T>() * capacity <= MAX_ALLOC_SIZE,
        ensures
            r.0.spec_size() == size_of::<T>() * capacity,
            r.1 == size_of::<T>(),
    {
        new_slice_layout::<T>(capacity)
    }

    /// Allocates a region for `capacity` values of `T` and returns the
    /// handle together with the granted capacity, which is what this
    /// allocator grants: the requested capacity exactly.  A request for zero
    /// values allocates nothing and returns the sentinel.
    pub fn new(capacity: usize) -> (r: (Self, usize))
        requires
            capacity == 0 || (1 <= size_of::<T>() && size_of::<T>() * capacity
                <= MAX_ALLOC_SIZE),
        ensures
            r.1 == capacity,
            r.0.spec_granted() == capacity,
            r.0@ == Seq::<T>::empty(),
    {
        if capacity == 0 {
            return (Self::dangling(), 0);
        }
        let (layout, stride) = Self::new_layout(capacity);
        let data: Vec<T> = Vec::with_capacity(capacity);
        let byte_count = layout.size();
        let granted = byte_count / stride;
        proof {
            assert(granted == capacity) by (nonlinear_arith)
                requires
                    byte_count == stride * capacity,
                    stride >= 1,
                    granted == byte_count / stride,
            ;
        }
        (RawBuf { data, granted }, granted)
    }

    /// Deallocates the region, given the exact size that was granted for it.
    /// Any other size, and the sentinel in particular, is refused with
    /// [`InvalidArgumentError`]; on success the handle left behind is the
    /// sentinel, so a second deallocation is refused as well.
    pub fn dealloc(self, len: usize) -> (r: Result<Self, InvalidArgumentError>)
        ensures
            r is Ok <==> (len == self.spec_granted() && len != 0),
            r matches Ok(b) ==> b.spec_granted() == 0 && b@ == Seq::<T>::empty(),
    {
        if len == self.granted && len != 0 {
            Ok(Self::dangling())
        } else {
            Err(InvalidArgumentError)
        }
    }

    /// The values written so far, in order.
    pub fn as_slice(&self) -> (r: &[T])
        ensures
            r@ == self@,
    {
        self.data.as_slice()
    }

    /// The granted capacity of the region.  The capacity never exceeds
    /// [`MAX_ALLOC_SIZE`], and the written prefix never exceeds the capacity.
    pub fn granted(&self) -> (r: usize)
        ensures
            r == self.spec_granted(),
            self@.len() <= r <= MAX_ALLOC_SIZE,
    {
        proof {
            use_type_invariant(self);
        }
        self.granted
    }

    /// How many values have been written so far.
    pub fn len(&self) -> (r: usize)
        ensures
            r == self@.len(),
            r <= self.spec_granted(),
    {
        proof {
            use_type_invariant(self);
        }
        self.data.len()
    }

    /// Forgets every written value past the first `n`; the region itself
    /// stays granted.
    pub fn truncate(&mut self, n: usize)
        requires
            n <= old(self)@.len(),
        ensures
            final(self)@ == old(self)@.subrange(0, n as int),
            final(self).spec_granted() == old(self).spec_granted(),
    {
        proof {
            use_type_invariant(&*self);
        }
        let mut data: Vec<T> = Vec::new();
        core::mem::swap(&mut data, &mut self.data);
        data.truncate(n);
        self.data = data;
    }

    /// Forgets every value written so far; the region itself stays granted.
    pub fn clear(&mut self)
        ensures
            final(self)@ == Seq::<T>::empty(),
            final(self).spec_granted() == old(self).spec_granted(),
    {
        proof {
            use_type_invariant(&*self);
        }
        let mut data: Vec<T> = Vec::new();
        core::mem::swap(&mut data, &mut self.data);
        data.clear();
        self.data = data;
    }
}

impl<T: Copy> RawBuf<T> {
    /// Writes the values of `s` after the ones already written.  The region
    /// must have space for all of them: a partial write is never performed.
    pub fn append_from_slice(&mut self, s: &[T])
        requires
            old(self)@.len() + s@.len() <= old(self).spec_granted(),
        ensures
            final(self)@ == old(self)@ + s@,
            final(self).spec_granted() == old(self).spec_granted(),
    {
        proof {
            use_type_invariant(&*self);
        }
        let mut data: Vec<T> = Vec::new();
        core::mem::swap(&mut data, &mut self.data);
        let n = s.len();
        let mut i: usize = 0;
        while i < n
            invariant
                i <= n,
                n == s@.len(),
                data@ == old(self)@ + s@.subrange(0, i as int),
            decreases n - i,
        {
            data.push(s[i]);
            i += 1;
            proof {
                assert(data@ == old(self)@ + s@.subrange(0, i as int));
            }
        }
        proof {
            assert(s@.subrange(0, n as int) == s@);
        }
        self.data = data;
    }
}

impl<T: Clone> Clone for RawBuf<T> {
    /// A fresh handle over a fresh region of the same granted capacity,
    /// holding clones of the written values.
    fn clone(&self) -> (r: Self)
        ensures
            r@.len() == self@.len(),
            r.spec_granted() == self.spec_granted(),
    {
        proof {
            use_type_invariant(self);
        }
        RawBuf { data: self.data.clone(), granted: self.granted }
    }
}

} // verus!
