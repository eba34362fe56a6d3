//! Provider shapes beyond the contiguous ones: the double-ended queue, an
//! ordered set of keys, a singly-linked list, and an encoded-text
//! sequence enumerated one character cluster at a time.

use std::collections::VecDeque;

use vstd::prelude::*;
use crate::iter_::{slice_item_views, MutItemView, TrItemsMutView, TrItemsRefView};

verus! {

impl<T> TrItemsRefView for VecDeque<T> {
    type Item = T;

    open spec fn spec_items_seq(&self) -> Seq<T> {
        self@
    }

    fn items_ref_view(&self) -> (views: Vec<&T>) {
        let n: usize = self.len();
        let mut views: Vec<&T> = Vec::new();
        let mut i: usize = 0;
        while i < n
            invariant
                i <= n,
                n == self@.len(),
                views@.len() == i,
                forall|k: int| 0 <= k < i ==> *views@[k] == self@[k],
            decreases n - i,
        {
            views.push(&self[i]);
            i += 1;
        }
        views
    }
}

impl<T> TrItemsMutView for VecDeque<T> {
    fn write_through(&mut self, view: &MutItemView, value: T) {
        let _ = self.remove(view.position);
        self.insert(view.position, value);
        proof {
            let i = view.position as int;
            assert(self@ =~= old(self)@.update(i, value));
        }
    }
}

/// An ordered set of keys: a shape that holds each key at most once and
/// enumerates its keys in strictly ascending order.
///
/// The set deliberately offers no mutable item views: replacing a key in
/// place could break the ordering that is the set's own invariant.
pub struct OrderedSet {
    keys: Vec<u64>,
}

impl OrderedSet {
    /// Well-formed: the keys are held in strictly ascending order, so
    /// each key occurs at most once.
    pub closed spec fn well_formed(&self) -> bool {
        forall|i: int, j: int| 0 <= i < j < self.keys@.len() ==> self.keys@[i] < self.keys@[j]
    }

    /// The distinct keys, in ascending order.
    pub closed spec fn spec_keys(&self) -> Seq<u64> {
        self.keys@
    }

    /// An empty set.
    pub fn new() -> (s: Self)
        ensures
            s.well_formed(),
            s.spec_keys() == Seq::<u64>::empty(),
    {
        OrderedSet { keys: Vec::new() }
    }

    /// The number of distinct keys held.
    pub fn len(&self) -> (n: usize)
        ensures
            n == self.spec_keys().len(),
    {
        self.keys.len()
    }

    /// The items enumerated are exactly the keys, in the same order.
    pub proof fn lemma_items_are_keys(&self)
        ensures
            self.spec_items_seq() == self.spec_keys(),
    {
    }

    /// Whether `key` is held.
    pub fn contains(&self, key: u64) -> (r: bool)
        ensures
            r == self.spec_keys().contains(key),
    {
        let n: usize = self.keys.len();
        let mut i: usize = 0;
        while i < n
            invariant
                i <= n,
                n == self.keys@.len(),
                forall|k: int| 0 <= k < i ==> self.keys@[k] != key,
            decreases n - i,
        {
            if self.keys[i] == key {
                proof {
                    assert(self.spec_keys().contains(key)) by {
                        assert(self.spec_keys()[i as int] == key);
                    };
                }
                return true;
            }
            i += 1;
        }
        proof {
            assert(!self.spec_keys().contains(key)) by {
                assert(forall|k: int|
                    0 <= k < self.keys@.len() ==> self.keys@[k] != key);
            };
        }
        false
    }

    /// Adds `key` to the set. Returns whether the set grew: a key that is
    /// already held is not added again, and in that case the set is left
    /// exactly as it was. Afterwards the set holds `key`, every key it
    /// held before, and nothing else, still in strictly ascending order.
    pub fn insert(&mut self, key: u64) -> (added: bool)
        requires
            old(self).well_formed(),
        ensures
            final(self).well_formed(),
            added == !old(self).spec_keys().contains(key),
            !added ==> final(self).spec_keys() == old(self).spec_keys(),
            added ==> final(self).spec_keys().len() == old(self).spec_keys().len() + 1,
            final(self).spec_keys().contains(key),
            forall|q: u64|
                old(self).spec_keys().contains(q) ==> final(self).spec_keys().contains(q),
            forall|q: u64|
                final(self).spec_keys().contains(q) ==> q == key || old(self).spec_keys().contains(
                    q,
                ),
    {
        let n: usize = self.keys.len();
        let mut idx: usize = 0;
        loop
            invariant
                idx <= n,
                n == self.keys@.len(),
                *self == *old(self),
                forall|k: int| 0 <= k < idx ==> self.keys@[k] < key,
            ensures
                idx <= n,
                *self == *old(self),
                forall|k: int| 0 <= k < idx ==> self.keys@[k] < key,
                idx < n ==> key <= self.keys@[idx as int],
            decreases n - idx,
        {
            if idx == n {
                break;
            }
            if key <= self.keys[idx] {
                break;
            }
            idx += 1;
        }
        if idx < n && self.keys[idx] == key {
            proof {
                assert(self.spec_keys().contains(key)) by {
                    assert(self.spec_keys()[idx as int] == key);
                };
            }
            false
        } else {
            proof {
                assert(!old(self).spec_keys().contains(key)) by {
                    assert forall|k: int|
                        0 <= k < self.keys@.len() implies self.keys@[k] != key by {
                        if idx <= k {
                            assert(idx < self.keys@.len());
                            if idx < k {
                                assert(self.keys@[idx as int] < self.keys@[k]);
                            }
                        }
                    };
                };
                old(self).spec_keys().insert_ensures(idx as int, key);
            }
            self.keys.insert(idx, key);
            proof {
                let before = old(self).spec_keys();
                let now = self.spec_keys();
                assert(now == before.insert(idx as int, key));
                assert(self.well_formed()) by {
                    assert forall|i: int, j: int|
                        0 <= i < j < now.len() implies now[i] < now[j] by {
                        if j < idx {
                            assert(before[i] < before[j]);
                        } else if i < idx && j == idx {
                            assert(now[i] == before[i] && now[j] == key);
                        } else if i < idx && j > idx {
                            assert(now[i] == before[i] && now[j] == before[j - 1]);
                            assert(idx <= j - 1 < before.len());
                            assert(key <= before[idx as int]);
                            if idx < j - 1 {
                                assert(before[idx as int] < before[j - 1]);
                            }
                            assert(before[i] < key);
                        } else if i == idx {
                            assert(now[i] == key && now[j] == before[j - 1]);
                            assert(idx <= j - 1 < before.len());
                            assert(key < before[idx as int] || key == before[idx as int]);
                            assert(before[idx as int] != key);
                            if idx < j - 1 {
                                assert(before[idx as int] < before[j - 1]);
                            }
                        } else {
                            assert(now[i] == before[i - 1] && now[j] == before[j - 1]);
                            assert(before[i - 1] < before[j - 1]);
                        }
                    };
                };
                assert(now.contains(key)) by {
                    assert(now[idx as int] == key);
                };
                assert forall|q: u64| before.contains(q) implies now.contains(q) by {
                    let w = choose|w: int| 0 <= w < before.len() && before[w] == q;
                    if w < idx {
                        assert(now[w] == q);
                    } else {
                        assert(now[w + 1] == q);
                    }
                };
                assert forall|q: u64|
                    now.contains(q) implies q == key || before.contains(q) by {
                    let w = choose|w: int| 0 <= w < now.len() && now[w] == q;
                    if w < idx {
                        assert(before[w] == q);
                    } else if w == idx {
                    } else {
                        assert(before[w - 1] == q);
                    }
                };
            }
            true
        }
    }
}

impl TrItemsRefView for OrderedSet {
    type Item = u64;

    closed spec fn spec_items_seq(&self) -> Seq<u64> {
        self.keys@
    }



    fn items_ref_view(&self) -> (views: Vec<&u64>) {
        slice_item_views(Vec::as_slice(&self.keys))
    }
}

/// Law: an ordered set's keys enumerate in ascending order, so its read
/// views come out in strictly ascending key order.
pub proof fn lemma_ordered_set_views_ascending(s: &OrderedSet, views: Seq<&u64>)
    requires
        s.well_formed(),
        views.len() == s.spec_items_seq().len(),
        forall|k: int| 0 <= k < views.len() ==> *views[k] == s.spec_items_seq()[k],
    ensures
        forall|i: int, j: int| 0 <= i < j < views.len() ==> *views[i] < *views[j],
{
    assert(s.spec_items_seq() == s.spec_keys());
}

/// An encoded-text sequence. Its logical items are character clusters:
/// one decoded character per view, never a raw storage unit, so the views
/// partition the content exactly, with no gap or overlap.
pub struct Text {
    chars: Vec<char>,
}

impl Text {
    /// The decoded content, one character cluster per element.
    pub closed spec fn spec_chars(&self) -> Seq<char> {
        self.chars@
    }

    /// An empty text.
    pub fn new() -> (t: Self)
        ensures
            t.spec_chars() == Seq::<char>::empty(),
    {
        Text { chars: Vec::new() }
    }

    /// Appends one character cluster to the content.
    pub fn push_char(&mut self, c: char)
        ensures
            final(self).spec_chars() == old(self).spec_chars().push(c),
    {
        self.chars.push(c);
    }

    /// The items enumerated are exactly the character clusters, in the
    /// same order.
    pub proof fn lemma_items_are_chars(&self)
        ensures
            self.spec_items_seq() == self.spec_chars(),
    {
    }

    /// The number of character clusters held.
    pub fn len(&self) -> (n: usize)
        ensures
            n == self.spec_chars().len(),
    {
        self.chars.len()
    }

    /// Decodes borrowed text into a cluster sequence: one logical item
    /// per decoded character, in order, partitioning the input exactly.
    pub fn from_text(s: &str) -> (t: Text)
        ensures
            t.spec_chars() == s@,
    {
        let mut out: Vec<char> = Vec::new();
        for c in it: s.chars()
            invariant
                it.seq() == s@,
                out@ == it.seq().subrange(0, it.index() as int),
        {
            out.push(c);
        }
        proof {
            assert(out@ =~= s@);
        }
        Text { chars: out }
    }
}

impl TrItemsRefView for Text {
    type Item = char;

    closed spec fn spec_items_seq(&self) -> Seq<char> {
        self.chars@
    }

    fn items_ref_view(&self) -> (views: Vec<&char>) {
        slice_item_views(Vec::as_slice(&self.chars))
    }
}

/// The content spelled by a sequence of character-cluster views, in
/// order.
pub open spec fn reassembled(views: Seq<&char>) -> Seq<char> {
    Seq::new(views.len(), |i: int| *views[i])
}

/// Law: a text yields one view per character cluster, and concatenating
/// the clusters under all yielded views reconstructs the content exactly,
/// with no gap or overlap.
pub proof fn lemma_text_views_reassemble(t: &Text, views: Seq<&char>)
    requires
        views.len() == t.spec_items_seq().len(),
        forall|k: int| 0 <= k < views.len() ==> *views[k] == t.spec_items_seq()[k],
    ensures
        views.len() == t.spec_chars().len(),
        reassembled(views) == t.spec_chars(),
{
    assert(reassembled(views) =~= t.spec_chars());
}

/// A singly-linked list: a shape whose items are logically enumerable,
/// front to back, though nothing about its storage is contiguous.
pub enum ChainList<T> {
    Nil,
    Cons(T, Box<ChainList<T>>),
}

impl<T> ChainList<T> {
    /// The items held, front to back.
    pub open spec fn spec_seq(&self) -> Seq<T>
        decreases self,
    {
        match self {
            ChainList::Nil => Seq::empty(),
            ChainList::Cons(x, rest) => seq![*x] + rest.spec_seq(),
        }
    }

    /// An empty list.
    pub fn new() -> (l: Self)
        ensures
            l.spec_seq() == Seq::<T>::empty(),
    {
        ChainList::Nil
    }

    /// Adds one item at the front.
    pub fn push_front(self, x: T) -> (l: Self)
        ensures
            l.spec_seq() == seq![x] + self.spec_seq(),
    {
        ChainList::Cons(x, Box::new(self))
    }
}

/// One read-only view per list node, front to back.
fn chain_item_views<T>(l: &ChainList<T>) -> (views: Vec<&T>)
    ensures
        views@.len() == l.spec_seq().len(),
        forall|k: int| 0 <= k < views@.len() ==> *views@[k] == l.spec_seq()[k],
    decreases *l,
{
    match l {
        ChainList::Nil => Vec::new(),
        ChainList::Cons(x, rest) => {
            let mut tail = chain_item_views(rest);
            let mut views: Vec<&T> = Vec::new();
            views.push(x);
            views.append(&mut tail);
            proof {
                assert forall|k: int|
                    0 <= k < views@.len() implies *views@[k] == l.spec_seq()[k] by {
                    if k > 0 {
                        assert(views@[k] == rest.spec_seq()[k - 1]);
                    }
                };
            }
            views
        },
    }
}

/// Replaces the item `pos` nodes from the front.
fn chain_write<T>(l: &mut ChainList<T>, pos: usize, value: T)
    requires
        pos < old(l).spec_seq().len(),
    ensures
        final(l).spec_seq() == old(l).spec_seq().update(pos as int, value),
    decreases pos,
{
    match l {
        ChainList::Cons(x, rest) => {
            if pos == 0 {
                *x = value;
            } else {
                chain_write(rest, pos - 1, value);
            }
        },
        ChainList::Nil => {
            proof {
                assert(false);
            }
        },
    }
}

impl<T> TrItemsRefView for ChainList<T> {
    type Item = T;

    open spec fn spec_items_seq(&self) -> Seq<T> {
        self.spec_seq()
    }

    fn items_ref_view(&self) -> (views: Vec<&T>) {
        chain_item_views(self)
    }
}

impl<T> TrItemsMutView for ChainList<T> {
    fn write_through(&mut self, view: &MutItemView, value: T) {
        chain_write(self, view.position, value);
    }
}

} // verus!
