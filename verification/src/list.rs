//! A generic, insertion-ordered, index-addressable sequence container.
//!
//! `List` is the abstract contract (append, pop-from-end, positional
//! insert/remove, positional lookup, size query); `ArrayList` is the
//! array-backed reference implementation. The container is single-owner:
//! mutation requires exclusive access.

use vstd::prelude::*;

verus! {

/// Abstract contract of an insertion-ordered, index-addressable container.
///
/// `items()` is the mathematical model: the sequence of currently-held
/// items, in order. Indices are 0-based and always in `[0, size())`.
pub trait List<T>: Sized {
    /// The sequence of items currently held, in insertion order.
    spec fn items(&self) -> Seq<T>;

    /// Current item count. Never fails.
    fn size(&self) -> (n: usize)
        ensures
            n == self.items().len(),
    ;

    /// The item at `index`, or `None` when `index` is out of range.
    /// Out-of-range lookup is an expected, non-exceptional outcome.
    fn get(&self, index: usize) -> (r: Option<&T>)
        ensures
            index < self.items().len() ==> (r matches Some(x) && *x == self.items()[index as int]),
            index >= self.items().len() ==> r is None,
    ;

    /// Appends `item` at the end; the size grows by exactly one; returns a
    /// reference to the container so that calls can be chained. Never fails.
    fn push(&mut self, item: T) -> (r: &mut Self)
        ensures
            r.items() == old(self).items().push(item),
            *final(self) == *final(r),
    ;

    /// Removes and returns the last item, or `None` when empty.
    fn pop(&mut self) -> (r: Option<T>)
        ensures
            old(self).items().len() > 0 ==> (r matches Some(x)
                && x == old(self).items().last()
                && final(self).items() == old(self).items().drop_last()),
            old(self).items().len() == 0 ==> (r is None
                && final(self).items() == old(self).items()),
    ;

    /// Inserts `item` at `index`, shifting later items one position towards
    /// the end. The valid index range is `[0, size()]`; inserting at `size()`
    /// is equivalent to `push`. An out-of-range index is a clamped no-op:
    /// the container is left unchanged and never corrupted.
    /// Returns a reference to the container so that calls can be chained.
    fn insert(&mut self, index: usize, item: T) -> (r: &mut Self)
        ensures
            index <= old(self).items().len() ==> r.items() == old(self).items().insert(
                index as int,
                item,
            ),
            index > old(self).items().len() ==> r.items() == old(self).items(),
            *final(self) == *final(r),
    ;

    /// Removes and returns the item at `index` when `index < size()`,
    /// shifting later items one position towards the front; returns `None`
    /// and leaves the container unchanged otherwise.
    fn remove(&mut self, index: usize) -> (r: Option<T>)
        ensures
            index < old(self).items().len() ==> (r matches Some(x)
                && x == old(self).items()[index as int]
                && final(self).items() == old(self).items().remove(index as int)),
            index >= old(self).items().len() ==> (r is None
                && final(self).items() == old(self).items()),
    ;
}

/// Growable array-backed implementation of `List`.
pub struct ArrayList<T> {
    data: Vec<T>,
}

impl<T> View for ArrayList<T> {
    type V = Seq<T>;

    closed spec fn view(&self) -> Seq<T> {
        self.data@
    }
}

impl<T> ArrayList<T> {
    /// A new, empty container.
    pub fn new() -> (r: Self)
        ensures
            r@ == Seq::<T>::empty(),
    {
        ArrayList { data: Vec::new() }
    }
}

impl<T> List<T> for ArrayList<T> {
    open spec fn items(&self) -> Seq<T> {
        self@
    }

    fn size(&self) -> (n: usize) {
        self.data.len()
    }

    fn get(&self, index: usize) -> (r: Option<&T>) {
        if index < self.data.len() {
            Some(&self.data[index])
        } else {
            None
        }
    }

    fn push(&mut self, item: T) -> (r: &mut Self) {
        self.data.push(item);
        self
    }

    fn pop(&mut self) -> (r: Option<T>) {
        self.data.pop()
    }

    fn insert(&mut self, index: usize, item: T) -> (r: &mut Self) {
        if index <= self.data.len() {
            self.data.insert(index, item);
        }
        self
    }

    fn remove(&mut self, index: usize) -> (r: Option<T>) {
        if index < self.data.len() {
            Some(self.data.remove(index))
        } else {
            None
        }
    }
}

/// One abstract container operation, as `List` defines it.
pub enum ListOp<T> {
    Push(T),
    Pop,
    Insert(usize, T),
    Remove(usize),
}

/// The sequence of items after applying `op` to a container holding `s`,
/// exactly as the `List` contract specifies each operation.
pub open spec fn apply_op<T>(s: Seq<T>, op: ListOp<T>) -> Seq<T> {
    match op {
        ListOp::Push(x) => s.push(x),
        ListOp::Pop => if s.len() > 0 {
            s.drop_last()
        } else {
            s
        },
        ListOp::Insert(i, x) => if i <= s.len() {
            s.insert(i as int, x)
        } else {
            s
        },
        ListOp::Remove(i) => if i < s.len() {
            s.remove(i as int)
        } else {
            s
        },
    }
}

/// The items after applying a whole operation sequence, first to last.
pub open spec fn apply_ops<T>(s: Seq<T>, ops: Seq<ListOp<T>>) -> Seq<T>
    decreases ops.len(),
{
    if ops.len() == 0 {
        s
    } else {
        apply_ops(apply_op(s, ops[0]), ops.drop_first())
    }
}

/// How one operation changes the size: +1 for a push or a successful
/// insert, -1 for a successful pop or remove, 0 for a failed one.
pub open spec fn op_delta<T>(s: Seq<T>, op: ListOp<T>) -> int {
    match op {
        ListOp::Push(_) => 1,
        ListOp::Pop => if s.len() > 0 {
            -1
        } else {
            0
        },
        ListOp::Insert(i, _) => if i <= s.len() {
            1
        } else {
            0
        },
        ListOp::Remove(i) => if i < s.len() {
            -1
        } else {
            0
        },
    }
}

/// The net count over a whole operation sequence: successful insertions
/// minus successful removals.
pub open spec fn net_delta<T>(s: Seq<T>, ops: Seq<ListOp<T>>) -> int
    decreases ops.len(),
{
    if ops.len() == 0 {
        0
    } else {
        op_delta(s, ops[0]) + net_delta(apply_op(s, ops[0]), ops.drop_first())
    }
}

/// For every sequence of push/pop/insert/remove operations, the size of the
/// container equals the starting size plus the net count of successful
/// insertions minus successful removals.
pub proof fn lemma_size_tracks_operations<T>(s: Seq<T>, ops: Seq<ListOp<T>>)
    ensures
        apply_ops(s, ops).len() == s.len() + net_delta(s, ops),
    decreases ops.len(),
{
    if ops.len() > 0 {
        lemma_size_tracks_operations(apply_op(s, ops[0]), ops.drop_first());
    }
}

/// For every sequence of operations applied to a fresh, empty container,
/// the size equals the net count of successful insertions minus successful
/// removals, and that count is never negative.
pub proof fn lemma_size_is_net_count<T>(ops: Seq<ListOp<T>>)
    ensures
        apply_ops(Seq::<T>::empty(), ops).len() == net_delta(Seq::<T>::empty(), ops),
        net_delta(Seq::<T>::empty(), ops) >= 0,
{
    lemma_size_tracks_operations(Seq::<T>::empty(), ops);
}

} // verus!
