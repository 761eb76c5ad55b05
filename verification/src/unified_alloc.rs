//! Size and alignment arithmetic for slice allocations.
//!
//! The buffer allocator hands out regions described by a [`Layout`]: a size
//! in bytes together with an alignment.  The functions here compute the
//! layout of an allocation holding `n` values of some type, exactly as the
//! allocator will grant it.

use vstd::layout::{align_of, align_nonzero, align_properties, size_of};
use vstd::pervasive::unreached;
use vstd::prelude::*;

verus! {

/// Largest size in bytes a single allocation request may ask for.  Requests
/// beyond this bound are refused by the allocator rather than attempted.
pub const MAX_ALLOC_SIZE: usize = usize::MAX / 2;

/// Number of padding bytes that must follow a region of `size` bytes so that
/// the next region starts at a multiple of `align`.
pub open spec fn spec_padding(size: usize, align: usize) -> int
    recommends
        1 <= align,
{
    if size % align == 0 {
        0
    } else {
        align - size % align
    }
}

/// Shape of one allocation request: a size in bytes and an alignment.
#[derive(Clone, Copy, Debug)]
pub struct Layout {
    size: usize,
    align: usize,
}

impl Layout {
    #[verifier::type_invariant]
    spec fn wf(&self) -> bool {
        1 <= self.align
    }

    /// The size in bytes this layout describes.
    pub closed spec fn spec_size(&self) -> usize {
        self.size
    }

    /// The alignment this layout requires; always at least 1.
    pub closed spec fn spec_align(&self) -> usize {
        self.align
    }

    /// The layout of a single value of `T`.
    pub fn new_for<T>() -> (r: Self)
        ensures
            r.spec_size() == size_of::<T>(),
            r.spec_align() == align_of::<T>(),
    {
        proof {
            broadcast use align_nonzero;
        }
        Layout { size: core::mem::size_of::<T>(), align: core::mem::align_of::<T>() }
    }

    /// A layout of the given size and alignment, or `None` when the pair is
    /// not one the allocator accepts: an alignment of zero, or a size beyond
    /// [`MAX_ALLOC_SIZE`].
    pub fn from_size_align(size: usize, align: usize) -> (r: Option<Self>)
        ensures
            r is Some <==> (1 <= align && size <= MAX_ALLOC_SIZE),
            r matches Some(l) ==> l.spec_size() == size && l.spec_align() == align,
    {
        if align >= 1 && size <= MAX_ALLOC_SIZE {
            Some(Layout { size, align })
        } else {
            None
        }
    }

    /// The size in bytes.
    pub fn size(&self) -> (r: usize)
        ensures
            r == self.spec_size(),
    {
        self.size
    }

    /// The alignment in bytes.
    pub fn align(&self) -> (r: usize)
        ensures
            r == self.spec_align(),
    {
        self.align
    }
}

/// Padding bytes needed after `layout` so that a following region starts at a
/// multiple of `align`.
pub fn padding_needed_for(layout: &Layout, align: usize) -> (r: usize)
    requires
        1 <= align,
    ensures
        r == spec_padding(layout.spec_size(), align),
{
    let rem = layout.size % align;
    if rem == 0 {
        0
    } else {
        align - rem
    }
}

/// The layout of `n` values of `layout` laid end to end, each padded to
/// `layout`'s own alignment, together with the stride between consecutive
/// values.  `None` when such an allocation would exceed what the allocator
/// accepts.
pub fn repeat(layout: &Layout, n: usize) -> (r: Option<(Layout, usize)>)
    ensures
        ({
            let padded = layout.spec_size() + spec_padding(layout.spec_size(), layout.spec_align());
            &&& r is Some <==> (padded <= usize::MAX && padded * n <= MAX_ALLOC_SIZE)
            &&& r matches Some(p) ==> p.0.spec_size() == padded * n && p.0.spec_align()
                == layout.spec_align() && p.1 == padded
        }),
{
    proof {
        use_type_invariant(layout);
    }
    let padding = padding_needed_for(layout, layout.align);
    let padded = match layout.size.checked_add(padding) {
        Some(p) => p,
        None => {
            return None;
        },
    };
    let alloc_size = match padded.checked_mul(n) {
        Some(s) => s,
        None => {
            proof {
                assert(padded * n > usize::MAX >= MAX_ALLOC_SIZE) by (nonlinear_arith)
                    requires
                        padded * n > usize::MAX,
                        n >= 0,
                ;
            }
            return None;
        },
    };
    match Layout::from_size_align(alloc_size, layout.align) {
        Some(l) => Some((l, padded)),
        None => None,
    }
}

/// The layout of an allocation holding `capacity` values of `T`, and the
/// stride between consecutive values.  The resulting layout never has size
/// zero: zero-sized types and empty slices get no allocation at all.
pub fn new_slice_layout<T>(capacity: usize) -> (r: (Layout, usize))
    requires
        1 <= size_of::<T>(),
        1 <= capacity,
        size_of::<T>() * capacity <= MAX_ALLOC_SIZE,
    ensures
        r.0.spec_size() == size_of::<T>() * capacity,
        r.0.spec_align() == align_of::<T>(),
        r.1 == size_of::<T>(),
{
    let elem = Layout::new_for::<T>();
    proof {
        broadcast use align_properties;
        assert(spec_padding(elem.spec_size(), elem.spec_align()) == 0);
    }
    match repeat(&elem, capacity) {
        Some(p) => p,
        None => unreached(),
    }
}

} // verus!
