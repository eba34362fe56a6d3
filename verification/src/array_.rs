//! Slice capabilities: contracts for container shapes whose items sit in
//! contiguous storage, plus the fixed-length refinement for shapes whose
//! item count is a type-level constant.

use vstd::prelude::*;

verus! {

/// A shape that can be viewed as a contiguous, read-only sequence of
/// elements.
///
/// `spec_items` is the logical model: the container's current contents in
/// enumeration order. `as_slice` must expose exactly that model, so its
/// length always equals the logical item count at the moment of the call.
pub trait TrAsSlice {
    type Elem;

    /// The container's logical contents, in order.
    spec fn spec_items(&self) -> Seq<Self::Elem>;

    /// A read-only contiguous view of the whole container.
    fn as_slice(&self) -> (r: &[Self::Elem])
        ensures
            r@ == self.spec_items(),
    ;
}

/// A shape that can additionally be viewed as an exclusive, mutable
/// contiguous sequence. While the returned slice is held, the borrow
/// checker rejects every other view into the container.
pub trait TrAsSliceMut: TrAsSlice {
    /// An exclusive mutable contiguous view of the whole container.
    ///
    /// The view starts out holding exactly the container's contents, and
    /// whatever the caller leaves in the view is what the container holds
    /// afterwards.
    fn as_slice_mut(&mut self) -> (r: &mut [Self::Elem])
        ensures
            r@ == old(self).spec_items(),
            final(self).spec_items() == final(r)@,
    ;
}

/// A shape whose item count is a constant of the type itself, not merely
/// of the instance.
///
/// The proof obligation ties the constant to the model: every instance's
/// slice view has exactly `LENGTH` elements, at all times.
pub trait TrArray: TrAsSliceMut {
    const LENGTH: usize;

    /// Law: the type-level constant equals every instance's logical item
    /// count, and therefore the length of every slice view of it.
    proof fn lemma_length_is_item_count(&self)
        ensures
            Self::LENGTH == self.spec_items().len(),
    ;
}

impl<T, const N: usize> TrAsSlice for [T; N] {
    type Elem = T;

    open spec fn spec_items(&self) -> Seq<T> {
        self@
    }

    fn as_slice(&self) -> (r: &[T]) {
        vstd::array::array_as_slice(self)
    }
}

impl<T, const N: usize> TrAsSliceMut for [T; N] {
    fn as_slice_mut(&mut self) -> (r: &mut [T]) {
        let r: &mut [T] = self;
        r
    }
}

impl<T, const N: usize> TrArray for [T; N] {
    const LENGTH: usize = N;

    proof fn lemma_length_is_item_count(&self) {
        assert(self@.len() == N);
    }
}

impl<T> TrAsSlice for [T] {
    type Elem = T;

    open spec fn spec_items(&self) -> Seq<T> {
        self@
    }

    fn as_slice(&self) -> (r: &[T]) {
        self
    }
}

impl<T> TrAsSliceMut for [T] {
    fn as_slice_mut(&mut self) -> (r: &mut [T]) {
        self
    }
}

impl<'s, T> TrAsSlice for &'s [T] {
    type Elem = T;

    open spec fn spec_items(&self) -> Seq<T> {
        self@
    }

    fn as_slice(&self) -> (r: &[T]) {
        *self
    }
}

impl<'s, T> TrAsSlice for &'s mut [T] {
    type Elem = T;

    open spec fn spec_items(&self) -> Seq<T> {
        (*self)@
    }

    fn as_slice(&self) -> (r: &[T]) {
        &**self
    }
}

impl<'s, T> TrAsSliceMut for &'s mut [T] {
    fn as_slice_mut(&mut self) -> (r: &mut [T]) {
        &mut **self
    }
}

impl<T> TrAsSlice for Vec<T> {
    type Elem = T;

    open spec fn spec_items(&self) -> Seq<T> {
        self@
    }

    fn as_slice(&self) -> (r: &[T]) {
        Vec::as_slice(self)
    }
}

impl<T> TrAsSliceMut for Vec<T> {
    fn as_slice_mut(&mut self) -> (r: &mut [T]) {
        Vec::as_mut_slice(self)
    }
}

/// Law: for every slice-capable shape, the slice view's length equals the
/// container's logical item count at the moment of the call.
pub proof fn lemma_as_slice_len_is_item_count<C: TrAsSlice>(c: &C, r: &[C::Elem])
    requires
        r@ == c.spec_items(),
    ensures
        r@.len() == c.spec_items().len(),
{
}

} // verus!
