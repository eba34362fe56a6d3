//! A capability-contract layer for viewing the items of heterogeneous
//! container shapes.
//!
//! Generic algorithms are written once against a small set of traits:
//! [`TrAsSlice`] / [`TrAsSliceMut`] for shapes with a contiguous storage
//! view, [`TrArray`] for shapes whose length is a type-level constant, and
//! [`TrItemsRefView`] / [`TrItemsMutView`] for shapes that can merely
//! enumerate their logical items in order. Each trait carries a
//! specification-level model of the container's contents, and every
//! provider implementation is verified against it.

mod array_;
mod collections_;
mod iter_;

pub use array_::{lemma_as_slice_len_is_item_count, TrArray, TrAsSlice, TrAsSliceMut};
pub use collections_::{
    lemma_ordered_set_views_ascending, lemma_text_views_reassemble, reassembled, ChainList,
    OrderedSet, Text,
};
pub use iter_::{
    lemma_contiguous_views_match_slice, lemma_fallible_view_count, lemma_optional_view_count,
    lemma_ref_views_restartable, lemma_write_then_read, slice_item_views, MutItemView,
    TrContiguousItems, TrItemsMutView, TrItemsRefView,
};
