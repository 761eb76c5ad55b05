//! The container: a tagged union of the inline and the heap form.
//!
//! A container always holds exactly one of the two forms — never both,
//! never neither.  It starts out inline and empty; an append that no longer
//! fits inline promotes it to the heap form, an explicit shrink whose
//! content fits demotes it back.  Each transition replaces the whole value
//! in one step, and a heap buffer left behind is freed exactly once.
//! Equality and formatting go by the realized text alone, never by which
//! form backs it.

use crate::encoding::{bytes_eq, lemma_bytes_eq_iff_views_eq, lemma_str_view_of_bytes};
use crate::long_string::{spec_grown_capacity, LongString};
use crate::short_string::{ShortString64, MAX_CAPACITY};
use crate::unified_alloc::MAX_ALLOC_SIZE;
use vstd::pervasive::arbitrary;
use vstd::prelude::*;
use vstd::std_specs::cmp::PartialEqSpec;
use vstd::std_specs::iter::IteratorSpec;
use vstd::string::{StringExecFns, StringSliceAdditionalSpecFns};
use vstd::utf8::{decode_utf8, encode_scalar, encode_utf8, valid_utf8};

verus! {

/// The form a container currently holds.
#[derive(Debug)]
enum SsoForm {
    Short(ShortString64),
    Long(LongString),
}

/// A growable text container with small-string optimization.
#[derive(Debug)]
pub struct SsoString {
    form: SsoForm,
}

impl View for SsoString {
    type V = Seq<char>;

    /// The realized text: what the active form's bytes decode to.
    open spec fn view(&self) -> Seq<char> {
        decode_utf8(self.spec_bytes())
    }
}

impl SsoString {
    /// The stored text bytes of the active form.
    pub closed spec fn spec_bytes(&self) -> Seq<u8> {
        match self.form {
            SsoForm::Short(s) => s.spec_bytes(),
            SsoForm::Long(l) => l.spec_bytes(),
        }
    }

    /// The length of the text in bytes.
    pub open spec fn spec_len(&self) -> nat {
        self.spec_bytes().len()
    }

    /// Whether the inline form is active.
    pub closed spec fn spec_is_short(&self) -> bool {
        self.form is Short
    }

    /// How many text bytes the container can hold before its next
    /// allocation: the inline capacity, or the heap buffer's granted size.
    pub closed spec fn spec_capacity(&self) -> int {
        match self.form {
            SsoForm::Short(_) => MAX_CAPACITY as int,
            SsoForm::Long(l) => l.spec_capacity() as int,
        }
    }

    /// A new container: inline, empty, no allocation.
    pub fn new() -> (r: Self)
        ensures
            r@ == Seq::<char>::empty(),
            r.spec_len() == 0,
            r.spec_is_short(),
            r.spec_capacity() == MAX_CAPACITY,
    {
        SsoString { form: SsoForm::Short(ShortString64::new()) }
    }

    /// An empty container able to hold `capacity` bytes before allocating
    /// again.  A capacity within the inline bound — zero in particular —
    /// performs no allocation and yields an inline container.
    pub fn with_capacity(capacity: usize) -> (r: Self)
        requires
            capacity <= MAX_ALLOC_SIZE,
        ensures
            r@ == Seq::<char>::empty(),
            r.spec_len() == 0,
            r.spec_is_short() <==> capacity <= MAX_CAPACITY,
            r.spec_capacity() == (if capacity <= MAX_CAPACITY {
                MAX_CAPACITY as int
            } else {
                capacity as int
            }),
    {
        if capacity <= MAX_CAPACITY {
            Self::new()
        } else {
            SsoString { form: SsoForm::Long(LongString::with_capacity(capacity)) }
        }
    }

    /// Reads the shared discriminant bit of the active form, without
    /// knowing which form wrote it: set means inline, clear means heap.
    pub fn is_short(&self) -> (r: bool)
        ensures
            r == self.spec_is_short(),
    {
        match &self.form {
            SsoForm::Short(s) => s.is_short(),
            SsoForm::Long(l) => l.is_short(),
        }
    }

    /// Whether the heap form is active: the negation of [`Self::is_short`].
    pub fn is_long(&self) -> (r: bool)
        ensures
            r == !self.spec_is_short(),
    {
        !self.is_short()
    }

    /// The length of the text in bytes; never more than the capacity.
    pub fn len(&self) -> (r: usize)
        ensures
            r == self.spec_len(),
            r <= self.spec_capacity(),
    {
        match &self.form {
            SsoForm::Short(s) => s.len(),
            SsoForm::Long(l) => l.len(),
        }
    }

    /// How many text bytes the container can hold before its next
    /// allocation; never less than the length.
    pub fn capacity(&self) -> (r: usize)
        ensures
            r == self.spec_capacity(),
            self.spec_len() <= r,
    {
        match &self.form {
            SsoForm::Short(s) => s.capacity(),
            SsoForm::Long(l) => l.capacity(),
        }
    }

    /// How many more bytes fit before the next allocation.
    pub fn remaining_capacity(&self) -> (r: usize)
        ensures
            r == self.spec_capacity() - self.spec_len(),
    {
        match &self.form {
            SsoForm::Short(s) => s.remaining_capacity(),
            SsoForm::Long(l) => l.remaining_capacity(),
        }
    }

    /// The realized text, whichever form backs it.
    pub fn as_str(&self) -> (r: &str)
        ensures
            r@ == self@,
            r.spec_bytes() == self.spec_bytes(),
    {
        match &self.form {
            SsoForm::Short(s) => s.as_str(),
            SsoForm::Long(l) => l.as_str(),
        }
    }

    /// Appends the text of `s`.  While the result still fits inline the
    /// inline form is mutated in place; the first append that does not fit
    /// promotes the container to the heap form, sized for the inline
    /// capacity plus the appended text; a heap container grows as needed.
    /// The capacity never decreases.
    pub fn push_str(&mut self, s: &str)
        requires
            old(self).spec_capacity() + s.spec_bytes().len() <= MAX_ALLOC_SIZE,
        ensures
            final(self).spec_bytes() == old(self).spec_bytes() + s.spec_bytes(),
            final(self)@ == old(self)@ + s@,
            final(self).spec_len() == old(self).spec_len() + s.spec_bytes().len(),
            final(self).spec_is_short() <==> (old(self).spec_is_short() && old(self).spec_len()
                + s.spec_bytes().len() <= MAX_CAPACITY),
            old(self).spec_capacity() <= final(self).spec_capacity(),
            final(self).spec_capacity() == (if old(self).spec_is_short() {
                if old(self).spec_len() + s.spec_bytes().len() <= MAX_CAPACITY {
                    MAX_CAPACITY as int
                } else {
                    MAX_CAPACITY + s.spec_bytes().len()
                }
            } else {
                if old(self).spec_len() + s.spec_bytes().len() <= old(self).spec_capacity() {
                    old(self).spec_capacity()
                } else {
                    spec_grown_capacity(
                        old(self).spec_capacity(),
                        old(self).spec_len() + s.spec_bytes().len() as int,
                    )
                }
            }),
    {
        proof {
            lemma_str_view_of_bytes(s);
        }
        let bytes_len = s.as_bytes().len();
        let mut tmp = Self::new();
        core::mem::swap(self, &mut tmp);
        let SsoString { form } = tmp;
        self.form = match form {
            SsoForm::Short(mut sh) => {
                if bytes_len <= sh.remaining_capacity() {
                    sh.push_str(s);
                    SsoForm::Short(sh)
                } else {
                    let mut long = sh.into_long(bytes_len);
                    long.push_str(s);
                    SsoForm::Long(long)
                }
            },
            SsoForm::Long(mut l) => {
                let long_len = l.len();
                proof {
                    assert(long_len + s.spec_bytes().len() <= MAX_ALLOC_SIZE);
                }
                l.push_str(s);
                SsoForm::Long(l)
            },
        };
    }

    /// Appends a single character; promotes or grows exactly as an append
    /// of its encoding would.
    pub fn push(&mut self, c: char)
        requires
            old(self).spec_capacity() + encode_scalar(c as u32).len() <= MAX_ALLOC_SIZE,
        ensures
            final(self).spec_bytes() == old(self).spec_bytes() + encode_scalar(c as u32),
            final(self)@ == old(self)@ + seq![c],
            final(self).spec_is_short() <==> (old(self).spec_is_short() && old(self).spec_len()
                + encode_scalar(c as u32).len() <= MAX_CAPACITY),
            old(self).spec_capacity() <= final(self).spec_capacity(),
    {
        proof {
            crate::encoding::lemma_encode_utf8_singleton(c);
        }
        let elen = crate::encoding::encode_char(c).1;
        let mut tmp = Self::new();
        core::mem::swap(self, &mut tmp);
        let SsoString { form } = tmp;
        self.form = match form {
            SsoForm::Short(mut sh) => {
                if elen <= sh.remaining_capacity() {
                    sh.push(c);
                    SsoForm::Short(sh)
                } else {
                    let mut long = sh.into_long(elen);
                    long.push(c);
                    SsoForm::Long(long)
                }
            },
            SsoForm::Long(mut l) => {
                let long_len = l.len();
                proof {
                    assert(long_len + encode_scalar(c as u32).len() <= MAX_ALLOC_SIZE);
                }
                l.push(c);
                SsoForm::Long(l)
            },
        };
    }

    /// Reserves room for at least `additional` more bytes, promoting to the
    /// heap form even when the content would still fit inline: callers ask
    /// for this explicitly to obtain heap capacity headroom.  The request
    /// may be overallocated by the growth policy; the capacity never
    /// decreases, and afterwards at least `additional` bytes remain free.
    pub fn reserve(&mut self, additional: usize)
        requires
            old(self).spec_capacity() + additional <= MAX_ALLOC_SIZE,
        ensures
            final(self).spec_bytes() == old(self).spec_bytes(),
            final(self)@ == old(self)@,
            !final(self).spec_is_short(),
            old(self).spec_capacity() <= final(self).spec_capacity(),
            old(self).spec_len() + additional <= final(self).spec_capacity(),
            final(self).spec_capacity() == (if old(self).spec_is_short() {
                MAX_CAPACITY + additional
            } else {
                if old(self).spec_len() + additional <= old(self).spec_capacity() {
                    old(self).spec_capacity()
                } else {
                    spec_grown_capacity(
                        old(self).spec_capacity(),
                        old(self).spec_len() + additional as int,
                    )
                }
            }),
    {
        let mut tmp = Self::new();
        core::mem::swap(self, &mut tmp);
        let SsoString { form } = tmp;
        self.form = match form {
            SsoForm::Short(sh) => SsoForm::Long(sh.into_long(additional)),
            SsoForm::Long(mut l) => {
                if l.remaining_capacity() < additional {
                    l.realloc(additional);
                }
                SsoForm::Long(l)
            },
        };
    }

    /// Reserves room for at least `additional` more bytes, promoting to the
    /// heap form even when the content would still fit inline, and requests
    /// the minimal amount the allocator will grant: exactly the length plus
    /// `additional`, unless a heap buffer already offers that much.
    pub fn reserve_exact(&mut self, additional: usize)
        requires
            old(self).spec_capacity() + additional <= MAX_ALLOC_SIZE,
        ensures
            final(self).spec_bytes() == old(self).spec_bytes(),
            final(self)@ == old(self)@,
            !final(self).spec_is_short(),
            old(self).spec_len() + additional <= final(self).spec_capacity(),
            final(self).spec_capacity() == (if !old(self).spec_is_short() && old(self).spec_len()
                + additional <= old(self).spec_capacity() {
                old(self).spec_capacity()
            } else {
                old(self).spec_len() + additional as int
            }),
    {
        let mut tmp = Self::new();
        core::mem::swap(self, &mut tmp);
        let SsoString { form } = tmp;
        self.form = match form {
            SsoForm::Short(sh) => {
                let len = sh.len();
                let mut long = LongString::with_capacity(len + additional);
                long.copy_from(sh.as_str());
                SsoForm::Long(long)
            },
            SsoForm::Long(mut l) => {
                if l.remaining_capacity() < additional {
                    let len = l.len();
                    l.realloc_exact(len + additional);
                }
                SsoForm::Long(l)
            },
        };
    }

    /// Shrinks the capacity towards `min_capacity`, never below the length.
    /// A heap container whose target fits inline is demoted — the only
    /// demotion path in the system: the text is copied into a fresh inline
    /// form and the heap buffer is freed.  Otherwise a heap buffer larger
    /// than the target is reallocated down to it exactly, and an inline
    /// container is left as it is.
    pub fn shrink_to(&mut self, min_capacity: usize)
        ensures
            final(self).spec_bytes() == old(self).spec_bytes(),
            final(self)@ == old(self)@,
            final(self).spec_is_short() <==> (old(self).spec_is_short() || (min_capacity
                <= MAX_CAPACITY && old(self).spec_len() <= MAX_CAPACITY)),
            final(self).spec_capacity() == (if final(self).spec_is_short() {
                MAX_CAPACITY as int
            } else {
                ({
                    let target = if min_capacity >= old(self).spec_len() {
                        min_capacity as int
                    } else {
                        old(self).spec_len() as int
                    };
                    if target < old(self).spec_capacity() {
                        target
                    } else {
                        old(self).spec_capacity()
                    }
                })
            }),
    {
        let mut tmp = Self::new();
        core::mem::swap(self, &mut tmp);
        let SsoString { form } = tmp;
        self.form = match form {
            SsoForm::Short(sh) => SsoForm::Short(sh),
            SsoForm::Long(mut l) => {
                if l.demote_check(min_capacity) {
                    let mut sh = ShortString64::new();
                    sh.push_str(l.as_str());
                    l.free();
                    proof {
                        assert(Seq::<u8>::empty() + old(self).spec_bytes() =~= old(
                            self,
                        ).spec_bytes());
                    }
                    SsoForm::Short(sh)
                } else {
                    let len = l.len();
                    let target = if min_capacity >= len {
                        min_capacity
                    } else {
                        len
                    };
                    if target < l.capacity() {
                        l.realloc_exact(target);
                    }
                    SsoForm::Long(l)
                }
            },
        };
    }

    /// Forgets the text: length 0, the active form and its capacity kept.
    /// In the inline form the discriminant bit is preserved while the
    /// length bits are zeroed; a heap buffer stays allocated.
    pub fn clear(&mut self)
        ensures
            final(self)@ == Seq::<char>::empty(),
            final(self).spec_len() == 0,
            final(self).spec_is_short() == old(self).spec_is_short(),
            final(self).spec_capacity() == old(self).spec_capacity(),
    {
        let mut tmp = Self::new();
        core::mem::swap(self, &mut tmp);
        let SsoString { form } = tmp;
        self.form = match form {
            SsoForm::Short(mut sh) => {
                sh.set_len(0);
                proof {
                    assert(sh.spec_buf().subrange(0, 0) =~= Seq::<u8>::empty());
                }
                SsoForm::Short(sh)
            },
            SsoForm::Long(mut l) => {
                l.clear();
                SsoForm::Long(l)
            },
        };
    }

    /// Appends a character that already fits in the remaining capacity; the
    /// active form and the capacity stay as they are.
    fn push_char_within(&mut self, c: char)
        requires
            old(self).spec_len() + encode_scalar(c as u32).len() <= old(self).spec_capacity(),
        ensures
            final(self).spec_bytes() == old(self).spec_bytes() + encode_scalar(c as u32),
            final(self)@ == old(self)@ + seq![c],
            final(self).spec_is_short() == old(self).spec_is_short(),
            final(self).spec_capacity() == old(self).spec_capacity(),
    {
        proof {
            crate::encoding::lemma_encode_utf8_singleton(c);
        }
        let mut tmp = Self::new();
        core::mem::swap(self, &mut tmp);
        let SsoString { form } = tmp;
        self.form = match form {
            SsoForm::Short(mut sh) => {
                sh.push(c);
                SsoForm::Short(sh)
            },
            SsoForm::Long(mut l) => {
                let cap = l.capacity();
                proof {
                    assert(l.spec_len() + encode_scalar(c as u32).len() <= cap <= MAX_ALLOC_SIZE);
                }
                l.push(c);
                SsoForm::Long(l)
            },
        };
    }

    /// Keeps only the characters the predicate approves of, in order; the
    /// active form and the capacity stay as they are.  The result is the
    /// subsequence selected by a mask in which each entry is an answer the
    /// predicate can give for the character at that position.
    pub fn retain<F: Fn(char) -> bool>(&mut self, f: F)
        requires
            forall|c: char| #[trigger] f.requires((c,)),
        ensures
            final(self).spec_is_short() == old(self).spec_is_short(),
            final(self).spec_capacity() == old(self).spec_capacity(),
            exists|keep: Seq<bool>|
                {
                    &&& keep.len() == old(self)@.len()
                    &&& (forall|i: int|
                        0 <= i < keep.len() ==> call_ensures(f, (old(self)@[i],), #[trigger] keep[i]))
                    &&& final(self)@ == filter_by_mask(old(self)@, keep)
                },
    {
        let ghost t = old(self)@;
        let text = self.as_str();
        proof {
            lemma_str_view_of_bytes(text);
            vstd::utf8::decode_utf8_encode_utf8(self.spec_bytes());
        }
        let entries = self.chars_indices();
        let capacity = self.capacity();
        self.clear();
        let ghost mut mask: Seq<bool> = Seq::empty();
        let n = entries.len();
        let mut i: usize = 0;
        proof {
            assert(self.spec_len() == 0);
            assert(self.spec_bytes() =~= Seq::<u8>::empty());
            assert(t.take(0) =~= Seq::<char>::empty());
            assert(self.spec_bytes() =~= encode_utf8(filter_by_mask(t.take(0), mask)));
        }
        while i < n
            invariant
                i <= n,
                n == entries@.len(),
                n == t.len(),
                forall|q: int| 0 <= q < n ==> (#[trigger] entries@[q]).1 == t[q],
                mask.len() == i,
                forall|q: int| 0 <= q < i ==> call_ensures(f, (t[q],), #[trigger] mask[q]),
                self.spec_bytes() == encode_utf8(filter_by_mask(t.take(i as int), mask)),
                self@ == filter_by_mask(t.take(i as int), mask),
                self.spec_capacity() == capacity,
                capacity == old(self).spec_capacity(),
                self.spec_is_short() == old(self).spec_is_short(),
                encode_utf8(t).len() <= capacity,
                forall|c: char| #[trigger] f.requires((c,)),
            decreases n - i,
        {
            let ghost pre_mask = mask;
            let ghost pre_kept = filter_by_mask(t.take(i as int), pre_mask);
            let c = entries[i].1;
            let keep = f(c);
            proof {
                lemma_filter_by_mask_snoc(t.take(i as int), pre_mask, c, keep);
                assert(t.take(i as int).push(c) =~= t.take(i + 1));
                mask = pre_mask.push(keep);
            }
            if keep {
                proof {
                    crate::encoding::lemma_encode_utf8_concat(pre_kept, seq![c]);
                    crate::encoding::lemma_encode_utf8_singleton(c);
                    lemma_filter_by_mask_bytes_le(t.take(i + 1), mask);
                    crate::encoding::lemma_encode_utf8_concat(t.take(i + 1), t.skip(i + 1));
                    assert(t.take(i + 1) + t.skip(i + 1) =~= t);
                    assert(filter_by_mask(t.take(i + 1), mask) =~= pre_kept + seq![c]);
                }
                self.push_char_within(c);
                proof {
                    assert(self.spec_bytes() =~= encode_utf8(filter_by_mask(t.take(i + 1), mask)));
                }
            } else {
                proof {
                    assert(filter_by_mask(t.take(i + 1), mask) =~= pre_kept);
                    assert(pre_kept + Seq::<char>::empty() =~= pre_kept);
                }
            }
            i += 1;
        }
        proof {
            assert(t.take(n as int) =~= t);
        }
    }

    /// Removes and returns the last character, or `None` when the container
    /// is empty.  The active form and its capacity stay as they are.
    pub fn pop(&mut self) -> (r: Option<char>)
        ensures
            old(self)@.len() == 0 ==> r is None && *final(self) == *old(self),
            old(self)@.len() > 0 ==> r == Some(old(self)@.last()) && final(self)@ == old(
                self,
            )@.drop_last(),
            final(self).spec_is_short() == old(self).spec_is_short(),
            final(self).spec_capacity() == old(self).spec_capacity(),
    {
        let mut tmp = Self::new();
        core::mem::swap(self, &mut tmp);
        let SsoString { form } = tmp;
        let (form, r) = match form {
            SsoForm::Short(mut sh) => {
                let r = sh.pop();
                (SsoForm::Short(sh), r)
            },
            SsoForm::Long(mut l) => {
                let r = l.pop();
                (SsoForm::Long(l), r)
            },
        };
        self.form = form;
        r
    }

    /// An iterator over the characters of the realized text.
    pub fn chars(&self) -> (r: core::str::Chars<'_>)
        ensures
            r.remaining() == self@,
    {
        proof {
            broadcast use vstd::string::axiom_spec_iter;

        }
        self.as_str().chars()
    }

    /// The characters of the realized text, each paired with the byte
    /// offset at which its encoding starts.
    pub fn chars_indices(&self) -> (r: Vec<(usize, char)>)
        ensures
            r@.len() == self@.len(),
            forall|i: int|
                0 <= i < r@.len() ==> (#[trigger] r@[i]).1 == self@[i] && r@[i].0 == encode_utf8(
                    self@.take(i),
                ).len(),
    {
        let text = self.as_str();
        proof {
            lemma_str_view_of_bytes(text);
        }
        let bytes = text.as_bytes();
        let ghost t = self@;
        let ghost total = t.len() as int;
        let mut rev: Vec<(usize, char)> = Vec::new();
        let mut m = bytes.len();
        proof {
            assert(bytes@.subrange(0, m as int) =~= bytes@);
            assert(t.take(total) =~= t);
        }
        while m > 0
            invariant
                m <= bytes@.len(),
                valid_utf8(bytes@),
                rev@.len() <= total,
                total == t.len(),
                valid_utf8(bytes@.subrange(0, m as int)),
                decode_utf8(bytes@.subrange(0, m as int)) == t.take(total - rev@.len()),
                m == encode_utf8(t.take(total - rev@.len())).len(),
                forall|q: int|
                    0 <= q < rev@.len() ==> (#[trigger] rev@[q]).1 == t[total - 1 - q]
                        && rev@[q].0 == encode_utf8(t.take(total - 1 - q)).len(),
            decreases m,
        {
            let ghost p = rev@.len() as int;
            let ghost prefix = bytes@.subrange(0, m as int);
            let (c, new_m) = crate::encoding::split_last_char(&bytes[0..m]);
            proof {
                assert(decode_utf8(prefix).len() > 0);
                assert(t.take(total - p).len() == total - p);
                assert(decode_utf8(prefix).last() == t[total - p - 1]);
                assert(prefix.subrange(0, new_m as int) =~= bytes@.subrange(0, new_m as int));
                assert(t.take(total - p).drop_last() =~= t.take(total - p - 1));
                vstd::utf8::decode_utf8_encode_utf8(bytes@.subrange(0, new_m as int));
            }
            rev.push((new_m, c));
            m = new_m;
        }
        proof {
            assert(t.take(total - rev@.len()).len() == 0);
            assert(rev@.len() == total);
        }
        let count = rev.len();
        let mut out: Vec<(usize, char)> = Vec::new();
        let mut j: usize = 0;
        while j < count
            invariant
                j <= count,
                count == rev@.len() == total,
                total == t.len(),
                out@.len() == j,
                forall|q: int|
                    0 <= q < rev@.len() ==> (#[trigger] rev@[q]).1 == t[total - 1 - q]
                        && rev@[q].0 == encode_utf8(t.take(total - 1 - q)).len(),
                forall|i: int|
                    0 <= i < j ==> (#[trigger] out@[i]).1 == t[i] && out@[i].0 == encode_utf8(
                        t.take(i),
                    ).len(),
            decreases count - j,
        {
            let entry = rev[count - 1 - j];
            out.push(entry);
            j += 1;
        }
        out
    }

    /// The realized text as an owned string: the human-readable rendering,
    /// identical for equal texts whatever form backs them.
    pub fn display_string(&self) -> (r: String)
        ensures
            r@ == self@,
    {
        self.as_str().to_owned()
    }

    /// A rendering that names the active form around the text, without
    /// escaping the text itself.
    pub fn debug_string(&self) -> (r: String)
        ensures
            self.spec_is_short() ==> r@ == "Short(\""@ + self@ + "\")"@,
            !self.spec_is_short() ==> r@ == "Long(\""@ + self@ + "\")"@,
    {
        let mut out = if self.is_short() {
            "Short(\"".to_owned()
        } else {
            "Long(\"".to_owned()
        };
        out.append(self.as_str());
        out.append("\")");
        out
    }
}

/// The subsequence of `s` selected by the mask `keep`, position by
/// position.
pub open spec fn filter_by_mask(s: Seq<char>, keep: Seq<bool>) -> Seq<char>
    decreases s.len(),
{
    if s.len() == 0 || keep.len() == 0 {
        Seq::empty()
    } else {
        (if keep[0] {
            seq![s[0]]
        } else {
            Seq::empty()
        }) + filter_by_mask(s.drop_first(), keep.drop_first())
    }
}

/// Extending text and mask by one position extends the selection by the
/// character exactly when its mask entry is set.
proof fn lemma_filter_by_mask_snoc(s: Seq<char>, keep: Seq<bool>, c: char, b: bool)
    requires
        s.len() == keep.len(),
    ensures
        filter_by_mask(s.push(c), keep.push(b)) == filter_by_mask(s, keep) + (if b {
            seq![c]
        } else {
            Seq::<char>::empty()
        }),
    decreases s.len(),
{
    let tail = if b {
        seq![c]
    } else {
        Seq::<char>::empty()
    };
    if s.len() == 0 {
        assert(s.push(c).drop_first() =~= Seq::<char>::empty());
        assert(keep.push(b).drop_first() =~= Seq::<bool>::empty());
        assert(keep.push(b)[0] == b);
        assert(s.push(c)[0] == c);
        assert(filter_by_mask(s.push(c), keep.push(b)) == tail + filter_by_mask(
            s.push(c).drop_first(),
            keep.push(b).drop_first(),
        ));
        assert(filter_by_mask(s.push(c).drop_first(), keep.push(b).drop_first()) =~= Seq::<
            char,
        >::empty());
        assert(filter_by_mask(s.push(c), keep.push(b)) =~= filter_by_mask(s, keep) + tail);
    } else {
        assert(s.push(c).drop_first() =~= s.drop_first().push(c));
        assert(keep.push(b).drop_first() =~= keep.drop_first().push(b));
        lemma_filter_by_mask_snoc(s.drop_first(), keep.drop_first(), c, b);
        assert(filter_by_mask(s.push(c), keep.push(b)) =~= filter_by_mask(s, keep) + tail);
    }
}

/// A selected subsequence never encodes to more bytes than the whole text.
proof fn lemma_filter_by_mask_bytes_le(s: Seq<char>, keep: Seq<bool>)
    ensures
        encode_utf8(filter_by_mask(s, keep)).len() <= encode_utf8(s).len(),
    decreases s.len(),
{
    if s.len() == 0 || keep.len() == 0 {
    } else {
        let head = if keep[0] {
            seq![s[0]]
        } else {
            Seq::<char>::empty()
        };
        let rest = filter_by_mask(s.drop_first(), keep.drop_first());
        lemma_filter_by_mask_bytes_le(s.drop_first(), keep.drop_first());
        crate::encoding::lemma_encode_utf8_concat(head, rest);
        crate::encoding::lemma_encode_utf8_singleton(s[0]);
        assert(encode_utf8(head).len() <= encode_scalar(s[0] as u32).len());
    }
}

/// Round trip: pushing text into a newly constructed empty container and
/// reading the view back yields exactly that text.  The premises are the
/// postconditions of [`SsoString::new`] and [`SsoString::push_str`]; what
/// [`SsoString::as_str`] returns is the view itself.
pub proof fn lemma_round_trip(fresh: SsoString, filled: SsoString, text: Seq<char>)
    requires
        fresh@ == Seq::<char>::empty(),
        filled@ == fresh@ + text,
    ensures
        filled@ == text,
{
    assert(Seq::<char>::empty() + text =~= text);
}

/// Form-independent equality: two containers compare equal exactly when
/// their realized texts are equal, whichever forms back them — an inline
/// and a heap container holding the same text are equal.
pub proof fn lemma_eq_form_independent(a: &SsoString, b: &SsoString)
    ensures
        a.eq_spec(b) <==> a@ == b@,
{
}

impl PartialEq<SsoString> for SsoString {
    /// Compares the realized texts; the backing forms play no part.
    fn eq(&self, other: &SsoString) -> (r: bool) {
        let a = self.as_str();
        let b = other.as_str();
        proof {
            lemma_str_view_of_bytes(a);
            lemma_str_view_of_bytes(b);
            lemma_bytes_eq_iff_views_eq(self.spec_bytes(), other.spec_bytes());
        }
        bytes_eq(a.as_bytes(), b.as_bytes())
    }
}

impl vstd::std_specs::cmp::PartialEqSpecImpl<SsoString> for SsoString {
    open spec fn obeys_eq_spec() -> bool {
        true
    }

    open spec fn eq_spec(&self, other: &SsoString) -> bool {
        self@ == other@
    }
}

impl PartialEq<str> for SsoString {
    /// A container equals a string slice exactly when the realized text
    /// equals the slice's text.
    fn eq(&self, other: &str) -> (r: bool) {
        let a = self.as_str();
        proof {
            lemma_str_view_of_bytes(a);
            lemma_str_view_of_bytes(other);
            lemma_bytes_eq_iff_views_eq(self.spec_bytes(), other.spec_bytes());
        }
        bytes_eq(a.as_bytes(), other.as_bytes())
    }
}

impl vstd::std_specs::cmp::PartialEqSpecImpl<str> for SsoString {
    open spec fn obeys_eq_spec() -> bool {
        true
    }

    open spec fn eq_spec(&self, other: &str) -> bool {
        self@ == other@
    }
}

impl PartialEq<SsoString> for str {
    /// A string slice equals a container exactly when the texts are equal.
    fn eq(&self, other: &SsoString) -> (r: bool) {
        let b = other.as_str();
        proof {
            lemma_str_view_of_bytes(self);
            lemma_str_view_of_bytes(b);
            lemma_bytes_eq_iff_views_eq(self.spec_bytes(), other.spec_bytes());
        }
        bytes_eq(self.as_bytes(), b.as_bytes())
    }
}

impl vstd::std_specs::cmp::PartialEqSpecImpl<SsoString> for str {
    open spec fn obeys_eq_spec() -> bool {
        true
    }

    open spec fn eq_spec(&self, other: &SsoString) -> bool {
        self@ == other@
    }
}

impl<'a> From<&'a str> for SsoString {
    /// A container holding the text of `value`: inline when it fits, heap
    /// otherwise.  Text so large that even the promoted allocation could
    /// not hold it — no real string slice reaches that size — yields an
    /// empty container instead of a partial one.
    fn from(value: &'a str) -> (r: Self)
        ensures
            MAX_CAPACITY + value.spec_bytes().len() <= MAX_ALLOC_SIZE ==> (r@ == value@ && (
            r.spec_is_short() <==> value.spec_bytes().len() <= MAX_CAPACITY)),
            MAX_CAPACITY + value.spec_bytes().len() > MAX_ALLOC_SIZE ==> r@ == Seq::<
                char,
            >::empty(),
    {
        let mut s = Self::new();
        let n = value.as_bytes().len();
        if n <= MAX_ALLOC_SIZE - MAX_CAPACITY {
            s.push_str(value);
        }
        s
    }
}

// `from_spec` would have to name the exact representation `From` builds,
// which the contract on `From::from` above states instead; with
// `obeys_from_spec` false the unused `from_spec` carries no claim.
impl<'a> vstd::std_specs::convert::FromSpecImpl<&'a str> for SsoString {
    open spec fn obeys_from_spec() -> bool {
        false
    }

    open spec fn from_spec(v: &'a str) -> Self {
        arbitrary()
    }
}

impl Clone for SsoString {
    /// A deep copy: same text, same form, same capacity.  A heap buffer is
    /// freshly allocated for the copy, never shared, so mutating either
    /// container can never change the other.
    fn clone(&self) -> (r: Self)
        ensures
            r@ == self@,
            r.spec_bytes() == self.spec_bytes(),
            r.spec_is_short() == self.spec_is_short(),
            r.spec_capacity() == self.spec_capacity(),
    {
        match &self.form {
            SsoForm::Short(sh) => SsoString { form: SsoForm::Short(*sh) },
            SsoForm::Long(l) => SsoString { form: SsoForm::Long(l.clone()) },
        }
    }
}

} // verus!
