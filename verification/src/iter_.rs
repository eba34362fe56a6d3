//! Item-view producers: contracts for container shapes that can enumerate
//! their logical items in order, whether or not the items sit in
//! contiguous storage.

use vstd::prelude::*;
use crate::array_::TrAsSlice;

verus! {

/// A shape that produces an ordered, finite sequence of read-only views,
/// one per logical item.
///
/// `spec_items_seq` is the logical model: the items the container holds,
/// in its natural enumeration order. `items_ref_view` must yield exactly
/// one view per model item, in model order, so every call on an
/// unmodified container yields the same sequence.
pub trait TrItemsRefView {
    type Item;

    /// The container's logical items, in natural enumeration order.
    spec fn spec_items_seq(&self) -> Seq<Self::Item>;

    /// One read-only view per logical item, in enumeration order.
    fn items_ref_view(&self) -> (views: Vec<&Self::Item>)
        ensures
            views@.len() == self.spec_items_seq().len(),
            forall|k: int| 0 <= k < views@.len() ==> *views@[k] == self.spec_items_seq()[k],
    ;
}

/// An exclusive view handle: it identifies one logical item by its
/// position in the container's enumeration order and is validated at each
/// use. Holding handles carries no borrow, so exclusivity is enforced
/// where the handle is spent: writing through one takes the container
/// exclusively, which statically rules out any concurrent read view.
pub struct MutItemView {
    /// The position of the viewed item in enumeration order.
    pub position: usize,
}

/// The mutable counterpart of [`TrItemsRefView`]: produces one exclusive
/// view per logical item, through which that item alone can be replaced.
pub trait TrItemsMutView: TrItemsRefView + Sized {
    /// One exclusive view handle per logical item, in enumeration order.
    /// Producing the handles leaves the container unchanged.
    fn items_mut_view(&mut self) -> (views: Vec<MutItemView>)
        ensures
            *final(self) == *old(self),
            views@.len() == old(self).spec_items_seq().len(),
            forall|k: int| 0 <= k < views@.len() ==> views@[k].position == k,
        default_ensures
            *final(self) == *old(self),
            views@.len() == old(self).spec_items_seq().len(),
            forall|k: int| 0 <= k < views@.len() ==> views@[k].position == k,
    {
        let snapshot = self.items_ref_view();
        let n: usize = snapshot.len();
        let mut views: Vec<MutItemView> = Vec::new();
        let mut i: usize = 0;
        while i < n
            invariant
                i <= n,
                n == self.spec_items_seq().len(),
                views@.len() == i,
                forall|k: int| 0 <= k < i ==> views@[k].position == k,
            decreases n - i,
        {
            views.push(MutItemView { position: i });
            i += 1;
        }
        views
    }

    /// Writes `value` through an exclusive item view: the viewed item is
    /// replaced and every other item is left as it was.
    fn write_through(&mut self, view: &MutItemView, value: Self::Item)
        requires
            view.position < old(self).spec_items_seq().len(),
        ensures
            final(self).spec_items_seq() == old(self).spec_items_seq().update(
                view.position as int,
                value,
            ),
    ;
}

/// One read-only view per slice element, in index order.
pub fn slice_item_views<T>(s: &[T]) -> (views: Vec<&T>)
    ensures
        views@.len() == s@.len(),
        forall|k: int| 0 <= k < s@.len() ==> *views@[k] == s@[k],
{
    let n: usize = s.len();
    let mut views: Vec<&T> = Vec::new();
    let mut i: usize = 0;
    while i < n
        invariant
            i <= n,
            n == s@.len(),
            views@.len() == i,
            forall|k: int| 0 <= k < i ==> *views@[k] == s@[k],
        decreases n - i,
    {
        views.push(&s[i]);
        i += 1;
    }
    views
}

impl<T, const N: usize> TrItemsRefView for [T; N] {
    type Item = T;

    open spec fn spec_items_seq(&self) -> Seq<T> {
        self@
    }

    fn items_ref_view(&self) -> (views: Vec<&T>) {
        slice_item_views(vstd::array::array_as_slice(self))
    }
}

impl<T, const N: usize> TrItemsMutView for [T; N] {
    fn write_through(&mut self, view: &MutItemView, value: T) {
        self[view.position] = value;
    }
}

impl<T> TrItemsRefView for [T] {
    type Item = T;

    open spec fn spec_items_seq(&self) -> Seq<T> {
        self@
    }

    fn items_ref_view(&self) -> (views: Vec<&T>) {
        slice_item_views(self)
    }
}

impl<'s, T> TrItemsRefView for &'s [T] {
    type Item = T;

    open spec fn spec_items_seq(&self) -> Seq<T> {
        self@
    }

    fn items_ref_view(&self) -> (views: Vec<&T>) {
        slice_item_views(self)
    }
}

impl<'s, T> TrItemsRefView for &'s mut [T] {
    type Item = T;

    open spec fn spec_items_seq(&self) -> Seq<T> {
        (*self)@
    }

    fn items_ref_view(&self) -> (views: Vec<&T>) {
        slice_item_views(&**self)
    }
}

impl<'s, T> TrItemsMutView for &'s mut [T] {
    fn write_through(&mut self, view: &MutItemView, value: T) {
        (**self)[view.position] = value;
    }
}

impl<T> TrItemsRefView for Vec<T> {
    type Item = T;

    open spec fn spec_items_seq(&self) -> Seq<T> {
        self@
    }

    fn items_ref_view(&self) -> (views: Vec<&T>) {
        slice_item_views(Vec::as_slice(self))
    }
}

impl<T> TrItemsMutView for Vec<T> {
    fn write_through(&mut self, view: &MutItemView, value: T) {
        self[view.position] = value;
    }
}

impl<T> TrItemsRefView for Option<T> {
    type Item = T;

    open spec fn spec_items_seq(&self) -> Seq<T> {
        match *self {
            Some(x) => seq![x],
            None => Seq::empty(),
        }
    }

    fn items_ref_view(&self) -> (views: Vec<&T>) {
        let mut views: Vec<&T> = Vec::new();
        match self {
            Some(x) => {
                views.push(x);
            },
            None => {},
        }
        views
    }
}

impl<T> TrItemsMutView for Option<T> {
    fn write_through(&mut self, view: &MutItemView, value: T) {
        match self {
            Some(slot) => {
                *slot = value;
            },
            None => {
                proof {
                    assert(false);
                }
            },
        }
        proof {
            assert(final(self).spec_items_seq() =~= old(self).spec_items_seq().update(
                view.position as int,
                value,
            ));
        }
    }
}

impl<T, E> TrItemsRefView for Result<T, E> {
    type Item = T;

    open spec fn spec_items_seq(&self) -> Seq<T> {
        match *self {
            Ok(x) => seq![x],
            Err(_) => Seq::empty(),
        }
    }

    fn items_ref_view(&self) -> (views: Vec<&T>) {
        let mut views: Vec<&T> = Vec::new();
        match self {
            Ok(x) => {
                views.push(x);
            },
            Err(_) => {},
        }
        views
    }
}

impl<T, E> TrItemsMutView for Result<T, E> {
    fn write_through(&mut self, view: &MutItemView, value: T) {
        match self {
            Ok(slot) => {
                *slot = value;
            },
            Err(_) => {
                proof {
                    assert(false);
                }
            },
        }
        proof {
            assert(final(self).spec_items_seq() =~= old(self).spec_items_seq().update(
                view.position as int,
                value,
            ));
        }
    }
}

/// Contiguity fidelity: a shape that is both slice-capable and an
/// item-view producer enumerates exactly its slice contents, so the i-th
/// view denotes the same item as index i of the slice view.
pub trait TrContiguousItems: TrAsSlice + TrItemsRefView<Item = <Self as TrAsSlice>::Elem> {
    /// Law: the producer's model and the slice capability's model agree.
    proof fn lemma_items_match_slice(&self)
        ensures
            self.spec_items_seq() == self.spec_items(),
    ;
}

impl<T, const N: usize> TrContiguousItems for [T; N] {
    proof fn lemma_items_match_slice(&self) {
    }
}

impl<T> TrContiguousItems for [T] {
    proof fn lemma_items_match_slice(&self) {
    }
}

impl<'s, T> TrContiguousItems for &'s [T] {
    proof fn lemma_items_match_slice(&self) {
    }
}

impl<'s, T> TrContiguousItems for &'s mut [T] {
    proof fn lemma_items_match_slice(&self) {
    }
}

impl<T> TrContiguousItems for Vec<T> {
    proof fn lemma_items_match_slice(&self) {
    }
}

/// Law: for a contiguous provider, the i-th produced view's referent
/// equals element i of the slice view, and the number of views equals the
/// slice view's length.
pub proof fn lemma_contiguous_views_match_slice<C: TrContiguousItems>(
    c: &C,
    views: Seq<&<C as TrAsSlice>::Elem>,
    r: &[<C as TrAsSlice>::Elem],
)
    requires
        r@ == c.spec_items(),
        views.len() == c.spec_items_seq().len(),
        forall|k: int| 0 <= k < views.len() ==> *views[k] == c.spec_items_seq()[k],
    ensures
        views.len() == r@.len(),
        forall|k: int| 0 <= k < views.len() ==> *views[k] == r@[k],
{
    c.lemma_items_match_slice();
}

/// Law: two calls of `items_ref_view` on an unmodified container yield
/// sequences of identical length, order and content.
pub proof fn lemma_ref_views_restartable<C: TrItemsRefView>(
    c: &C,
    first: Seq<&C::Item>,
    second: Seq<&C::Item>,
)
    requires
        first.len() == c.spec_items_seq().len(),
        forall|k: int| 0 <= k < first.len() ==> *first[k] == c.spec_items_seq()[k],
        second.len() == c.spec_items_seq().len(),
        forall|k: int| 0 <= k < second.len() ==> *second[k] == c.spec_items_seq()[k],
    ensures
        first.len() == second.len(),
        forall|k: int| 0 <= k < first.len() ==> *first[k] == *second[k],
{
}

/// Law: a write through an exclusive item view is observable in every
/// later read view: the written position holds the new value and every
/// other position is unchanged.
pub proof fn lemma_write_then_read<C: TrItemsMutView>(
    before: Seq<C::Item>,
    after: Seq<C::Item>,
    views: Seq<&C::Item>,
    i: int,
    v: C::Item,
)
    requires
        0 <= i < before.len(),
        after == before.update(i, v),
        views.len() == after.len(),
        forall|k: int| 0 <= k < views.len() ==> *views[k] == after[k],
    ensures
        views.len() == before.len(),
        *views[i] == v,
        forall|k: int| 0 <= k < before.len() && k != i ==> *views[k] == before[k],
{
}

/// Law: an optional single-value shape yields exactly one view when a
/// value is present and none when it is absent.
pub proof fn lemma_optional_view_count<T>(c: &Option<T>)
    ensures
        c is Some ==> c.spec_items_seq().len() == 1,
        c is None ==> c.spec_items_seq().len() == 0,
{
}

/// Law: a fallible two-state shape yields exactly one view on success and
/// none on error; only the success payload is ever enumerated.
pub proof fn lemma_fallible_view_count<T, E>(c: &Result<T, E>)
    ensures
        c is Ok ==> c.spec_items_seq().len() == 1 && c.spec_items_seq()[0] == c->Ok_0,
        c is Err ==> c.spec_items_seq().len() == 0,
{
}

} // verus!
