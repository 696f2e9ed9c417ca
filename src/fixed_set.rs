//! Data structure describing a fixed set of size _n_.

use vstd::prelude::*;
use vstd::std_specs::cmp::PartialEqSpec;

verus! {

/// `n` empty slots.
pub open spec fn empty_slots<T>(n: nat) -> Seq<Option<T>> {
    Seq::new(n, |i: int| None)
}

/// Every slot holds a value; vacuously true of zero slots.
pub open spec fn all_occupied<T>(slots: Seq<Option<T>>) -> bool {
    forall|i: int| 0 <= i < slots.len() ==> slots[i] is Some
}

/// What a lookup of slot `index` finds: the slot's content, or `None` out of range.
pub open spec fn slot_at<T>(slots: Seq<Option<T>>, index: int) -> Option<T> {
    if 0 <= index < slots.len() {
        slots[index]
    } else {
        None
    }
}

/// The values of the occupied slots, in ascending index order.
pub open spec fn occupied_values<T>(slots: Seq<Option<T>>) -> Seq<T>
    decreases slots.len(),
{
    if slots.len() == 0 {
        Seq::empty()
    } else {
        let front = occupied_values(slots.drop_last());
        match slots.last() {
            Some(v) => front.push(v),
            None => front,
        }
    }
}

/// The number of occupied slots.
pub open spec fn occupied_count<T>(slots: Seq<Option<T>>) -> nat
    decreases slots.len(),
{
    if slots.len() == 0 {
        0
    } else {
        occupied_count(slots.drop_last()) + if slots.last() is Some {
            1nat
        } else {
            0nat
        }
    }
}

/// The left-to-right accumulation `(values[0] + values[1]) + ...`; zero for no values.
pub open spec fn left_sum(values: Seq<usize>) -> int
    decreases values.len(),
{
    if values.len() == 0 {
        0
    } else {
        left_sum(values.drop_last()) + values.last()
    }
}

/// The slot holds a value equal to `v` by `T`'s equality.
pub open spec fn holds_equal<T: PartialEq>(slot: Option<T>, v: T) -> bool {
    slot matches Some(x) && x.eq_spec(&v)
}

/// Data structure for a fixed set of size _n_: `n` slots, each empty or holding one value.
#[derive(Clone, Debug)]
pub struct FixedSet<T> {
    items: Vec<Option<T>>,
}

impl<T> View for FixedSet<T> {
    type V = Seq<Option<T>>;

    /// The slots, in index order.
    closed spec fn view(&self) -> Seq<Option<T>> {
        self.items@
    }
}

impl<T> FixedSet<T> {
    /// Creates a new fixed set of size `n`, with every slot empty.
    pub fn new(n: usize) -> (r: FixedSet<T>)
        ensures
            r@ == empty_slots::<T>(n as nat),
    {
        let mut items: Vec<Option<T>> = Vec::new();
        let mut k: usize = 0;
        while k < n
            invariant
                k <= n,
                items@.len() == k,
                forall|i: int| 0 <= i < k ==> items@[i] is None,
            decreases n - k,
        {
            items.push(None);
            k = k + 1;
        }
        assert(items@ =~= empty_slots::<T>(n as nat));
        FixedSet { items }
    }

    /// Returns the size of the fixed set, NOT the number of items that have been set.
    pub fn size(&self) -> (r: usize)
        ensures
            r == self@.len(),
    {
        self.items.len()
    }

    /// Set the `index`-th item to `val`, overwriting any existing item. Out of range, nothing
    /// changes and the result is `false`.
    pub fn set_item(&mut self, index: usize, val: T) -> (r: bool)
        ensures
            r == (index < old(self)@.len()),
            r ==> final(self)@ == old(self)@.update(index as int, Some(val)),
            !r ==> final(self)@ == old(self)@,
    {
        if index >= self.items.len() {
            return false;
        }
        self.items[index] = Some(val);
        true
    }

    /// Return a reference to the `index`-th item, or `None` if it is unset or out of range.
    pub fn get_item(&self, index: usize) -> (r: Option<&T>)
        ensures
            r is Some <==> slot_at(self@, index as int) is Some,
            r matches Some(v) ==> slot_at(self@, index as int) == Some(*v),
    {
        if index >= self.items.len() {
            return None;
        }
        self.items[index].as_ref()
    }

    /// Empty the `index`-th slot; out of range, nothing changes.
    pub fn clear_item(&mut self, index: usize)
        ensures
            index < old(self)@.len() ==> final(self)@ == old(self)@.update(index as int, None),
            index >= old(self)@.len() ==> final(self)@ == old(self)@,
    {
        if index < self.items.len() {
            self.items[index] = None;
        }
    }

    /// Returns true if every slot holds a value. A set of size zero is full as well.
    pub fn is_full(&self) -> (r: bool)
        ensures
            r == all_occupied(self@),
    {
        let mut i: usize = 0;
        while i < self.items.len()
            invariant
                i <= self@.len(),
                forall|j: int| 0 <= j < i ==> self@[j] is Some,
            decreases self@.len() - i,
        {
            if self.items[i].is_none() {
                return false;
            }
            i = i + 1;
        }
        true
    }

    /// Collects the values of the occupied slots, in index order, into a `Vec`.
    pub fn into_vec(self) -> (r: Vec<T>)
        ensures
            r@ == occupied_values(self@),
    {
        let ghost slots = self@;
        let mut items = self.items;
        let mut r: Vec<T> = Vec::new();
        let mut i: usize = 0;
        while i < items.len()
            invariant
                items@.len() == slots.len(),
                i <= slots.len(),
                forall|j: int| i <= j < slots.len() ==> items@[j] == slots[j],
                r@ == occupied_values(slots.subrange(0, i as int)),
            decreases slots.len() - i,
        {
            let slot = items[i].take();
            assert(slots.subrange(0, i + 1).drop_last() =~= slots.subrange(0, i as int));
            match slot {
                Some(v) => r.push(v),
                None => {},
            }
            i = i + 1;
        }
        assert(slots.subrange(0, slots.len() as int) =~= slots);
        r
    }

    /// Returns exactly `size()` entries: for each slot in index order, a reference to its
    /// value, or `None` where it is empty.
    pub fn iter(&self) -> (r: Vec<Option<&T>>)
        ensures
            r@.len() == self@.len(),
            forall|i: int|
                0 <= i < self@.len() ==> (r@[i] is Some <==> self@[i] is Some) && (r@[i] matches Some(
                    v,
                ) ==> self@[i] == Some(*v)),
    {
        let mut r: Vec<Option<&T>> = Vec::new();
        let mut i: usize = 0;
        while i < self.items.len()
            invariant
                i <= self@.len(),
                r@.len() == i,
                forall|j: int|
                    0 <= j < i ==> (r@[j] is Some <==> self@[j] is Some) && (r@[j] matches Some(
                        v,
                    ) ==> self@[j] == Some(*v)),
            decreases self@.len() - i,
        {
            r.push(self.items[i].as_ref());
            i = i + 1;
        }
        r
    }
}

impl<T: PartialEq> FixedSet<T> {
    /// Return the first index whose slot holds a value equal to `val`, by linear search.
    pub fn search(&self, val: &T) -> (r: Option<usize>)
        ensures
            r matches Some(i) ==> i < self@.len() && self@[i as int] is Some,
            T::obeys_eq_spec() ==> match r {
                Some(i) => holds_equal(self@[i as int], *val) && forall|j: int|
                    0 <= j < i ==> !holds_equal(#[trigger] self@[j], *val),
                None => forall|j: int| 0 <= j < self@.len() ==> !holds_equal(#[trigger] self@[j], *val),
            },
    {
        let mut i: usize = 0;
        while i < self.items.len()
            invariant
                i <= self@.len(),
                T::obeys_eq_spec() ==> forall|j: int| 0 <= j < i ==> !holds_equal(#[trigger] self@[j], *val),
            decreases self@.len() - i,
        {
            match &self.items[i] {
                Some(x) => {
                    if x.eq(val) {
                        return Some(i);
                    }
                },
                None => {},
            }
            i = i + 1;
        }
        None
    }
}

impl FixedSet<usize> {
    /// Produces the sum of the values in the set, provided the set is full: the values are
    /// added left to right in index order, starting from the first. A set of size zero sums to
    /// zero, the default. The total of a full set must fit in a `usize`.
    pub fn sum(&self) -> (r: Option<usize>)
        requires
            all_occupied(self@) ==> left_sum(occupied_values(self@)) <= usize::MAX,
        ensures
            self@.len() == 0 ==> r == Some(0usize),
            r is Some <==> all_occupied(self@),
            r matches Some(v) ==> v == left_sum(occupied_values(self@)),
    {
        if self.size() == 0 {
            return Some(0);
        }
        if !self.is_full() {
            return None;
        }
        let ghost slots = self@;
        // The first value is the initial accumulator.
        let mut total: usize = *self.items[0].as_ref().unwrap();
        proof {
            lemma_prefix_sum_le(slots, 1);
            lemma_left_sum_last(slots.subrange(0, 1));
            assert(slots.subrange(0, 1).drop_last() =~= Seq::<Option<usize>>::empty());
        }
        let mut i: usize = 1;
        while i < self.items.len()
            invariant
                1 <= i <= slots.len(),
                slots == self@,
                left_sum(occupied_values(slots)) <= usize::MAX,
                total == left_sum(occupied_values(slots.subrange(0, i as int))),
            decreases slots.len() - i,
        {
            assert(slots.subrange(0, i + 1).drop_last() =~= slots.subrange(0, i as int));
            proof {
                lemma_prefix_sum_le(slots, i + 1);
                lemma_left_sum_last(slots.subrange(0, i + 1));
            }
            match &self.items[i] {
                Some(v) => {
                    total = total + *v;
                },
                None => {},
            }
            i = i + 1;
        }
        assert(slots.subrange(0, slots.len() as int) =~= slots);
        Some(total)
    }
}

/// The occupied values of a prefix of the slots sum to no more than those of all the slots.
proof fn lemma_prefix_sum_le(slots: Seq<Option<usize>>, k: int)
    requires
        0 <= k <= slots.len(),
    ensures
        left_sum(occupied_values(slots.subrange(0, k))) <= left_sum(occupied_values(slots)),
    decreases slots.len(),
{
    if k == slots.len() {
        assert(slots.subrange(0, k) =~= slots);
    } else {
        let front = slots.drop_last();
        assert(front.subrange(0, k) =~= slots.subrange(0, k));
        lemma_prefix_sum_le(front, k);
        lemma_left_sum_last(slots);
    }
}

/// Adding one more slot at the end adds its value, if any, to the sum.
proof fn lemma_left_sum_last(slots: Seq<Option<usize>>)
    requires
        slots.len() > 0,
    ensures
        left_sum(occupied_values(slots)) == left_sum(occupied_values(slots.drop_last())) + match slots.last() {
            Some(v) => v as int,
            None => 0,
        },
{
    if let Some(v) = slots.last() {
        assert(occupied_values(slots).drop_last() =~= occupied_values(slots.drop_last()));
    }
}


/// A set made with `n` slots has size `n`.
pub proof fn law_new_size<T>(n: nat)
    ensures
        empty_slots::<T>(n).len() == n,
{
}

/// A set of size zero is full, and sums to zero.
pub proof fn law_empty_set_full_and_sum()
    ensures
        all_occupied(empty_slots::<usize>(0)),
        left_sum(occupied_values(empty_slots::<usize>(0))) == 0,
{
    assert(empty_slots::<usize>(0).len() == 0);
}

/// Right after `v` is stored in an in-range slot, a lookup of that slot finds `v`.
pub proof fn law_get_after_set<T>(slots: Seq<Option<T>>, index: int, v: T)
    requires
        0 <= index < slots.len(),
    ensures
        slot_at(slots.update(index, Some(v)), index) == Some(v),
{
}

/// Right after an in-range slot is cleared, a lookup of that slot finds nothing.
pub proof fn law_get_after_clear<T>(slots: Seq<Option<T>>, index: int)
    requires
        0 <= index < slots.len(),
    ensures
        slot_at(slots.update(index, None), index) is None,
{
}

/// A set is full exactly when a lookup of each index below its size finds a value.
pub proof fn law_full_iff_every_lookup_present<T>(slots: Seq<Option<T>>)
    ensures
        all_occupied(slots) <==> forall|i: int| 0 <= i < slots.len() ==> #[trigger] slot_at(slots, i) is Some,
{
    if forall|i: int| 0 <= i < slots.len() ==> #[trigger] slot_at(slots, i) is Some {
        assert forall|i: int| 0 <= i < slots.len() implies slots[i] is Some by {
            assert(slot_at(slots, i) is Some);
        }
    }
}

/// The occupied values number as many as the occupied slots; none when every slot is empty.
pub proof fn law_occupied_values_len<T>(slots: Seq<Option<T>>)
    ensures
        occupied_values(slots).len() == occupied_count(slots),
        (forall|i: int| 0 <= i < slots.len() ==> slots[i] is None) ==> occupied_values(slots).len() == 0,
    decreases slots.len(),
{
    if slots.len() > 0 {
        law_occupied_values_len(slots.drop_last());
    }
}

} // verus!
