//! Depots: stores that hand out stable integer handles for the values put
//! into them and reuse freed slots, lowest index first.
use crate::chain::{chain_wf, delete_value_in_slice, put_value_in_slice, vacant, values};
use crate::link::{EmptyBounds, Link};
use crate::space::Space;
use vstd::prelude::*;

verus! {

/// A put failed: a bounded depot has no vacant slot left.
#[derive(Clone, Copy, Debug, PartialEq, Eq, Structural)]
pub enum PutError {
    OutOfSpace,
}

/// A delete failed: the index lies past the end of the depot's storage.
#[derive(Clone, Copy, Debug, PartialEq, Eq, Structural)]
pub enum DeleteError {
    NotFound,
}

/// What slot `index` of `slots` holds; absent past the end.
pub open spec fn slot_at<T>(slots: Seq<Option<T>>, index: int) -> Option<T> {
    if 0 <= index < slots.len() {
        slots[index]
    } else {
        None
    }
}

/// Some slot is vacant.
pub open spec fn has_vacant<T>(slots: Seq<Option<T>>) -> bool {
    exists|i: int| 0 <= i < slots.len() && #[trigger] slots[i] is None
}

/// Slot `i` is vacant and every slot below it is full.
pub open spec fn is_lowest_vacant<T>(slots: Seq<Option<T>>, i: int) -> bool {
    &&& 0 <= i < slots.len()
    &&& slots[i] is None
    &&& forall|j: int| 0 <= j < i ==> (#[trigger] slots[j]) is Some
}

/// How a put changes the slots of a depot. The lowest vacant slot is
/// filled when there is one; otherwise a growing depot appends a slot and
/// a bounded one fails and stays as it was.
pub open spec fn put_spec<T>(
    before: Seq<Option<T>>,
    grows: bool,
    value: T,
    r: Result<usize, PutError>,
    after: Seq<Option<T>>,
) -> bool {
    if has_vacant(before) {
        &&& r is Ok
        &&& is_lowest_vacant(before, r->Ok_0 as int)
        &&& after == before.update(r->Ok_0 as int, Some(value))
    } else if grows {
        &&& r is Ok
        &&& r->Ok_0 == before.len()
        &&& after == before.push(Some(value))
    } else {
        &&& r == Err::<usize, PutError>(PutError::OutOfSpace)
        &&& after == before
    }
}

/// How a delete changes the slots of a depot. An index inside the storage
/// is made vacant (a vacant one stays so); one past the end is not found.
pub open spec fn delete_spec<T>(
    before: Seq<Option<T>>,
    index: usize,
    r: Result<(), DeleteError>,
    after: Seq<Option<T>>,
) -> bool {
    if index < before.len() {
        &&& r is Ok
        &&& after == before.update(index as int, None)
    } else {
        &&& r == Err::<(), DeleteError>(DeleteError::NotFound)
        &&& after == before
    }
}

/// A store that hands out a stable index for each value put into it.
pub trait Depot<T> {
    /// What each slot holds, `None` for a vacant slot.
    spec fn slots(&self) -> Seq<Option<T>>;

    /// Whether the storage grows when no slot is vacant.
    spec fn grows(&self) -> bool;

    /// The internal chain of vacant slots agrees with the slots.
    spec fn wf(&self) -> bool;

    /// The value at `index`, if that slot exists and is full.
    fn get(&self, index: usize) -> (r: Option<&T>)
        requires
            self.wf(),
        ensures
            match r {
                Some(v) => slot_at(self.slots(), index as int) == Some(*v),
                None => slot_at(self.slots(), index as int) is None,
            },
    ;

    /// Stores `value` and returns its index.
    fn put(&mut self, value: T) -> (r: Result<usize, PutError>)
        requires
            old(self).wf(),
        ensures
            final(self).wf(),
            final(self).grows() == old(self).grows(),
            put_spec(old(self).slots(), old(self).grows(), value, r, final(self).slots()),
    ;

    /// Makes slot `index` vacant.
    fn delete(&mut self, index: usize) -> (r: Result<(), DeleteError>)
        requires
            old(self).wf(),
        ensures
            final(self).wf(),
            final(self).grows() == old(self).grows(),
            delete_spec(old(self).slots(), index, r, final(self).slots()),
    ;
}

/// The cached bounds of a well-formed chain say whether a slot is vacant,
/// and the head of the chain is the lowest vacant slot.
proof fn lemma_bounds_locate_lowest<T>(s: Seq<Space<T>>, b: Option<EmptyBounds>)
    requires
        chain_wf(s, b),
    ensures
        b is None <==> !has_vacant(values(s)),
        b is Some ==> is_lowest_vacant(values(s), b->0.first as int),
{
    assert forall|i: int| 0 <= i < s.len() implies (#[trigger] values(s)[i] is None) == vacant(
        s,
        i,
    ) by {
    }
    if let Some(eb) = b {
        assert(values(s)[eb.first as int] is None);
    }
}

/// The value a slot of `slots` holds, by reference.
fn get_in_slice<T>(slots: &[Space<T>], index: usize) -> (r: Option<&T>)
    ensures
        match r {
            Some(v) => slot_at(values(slots@), index as int) == Some(*v),
            None => slot_at(values(slots@), index as int) is None,
        },
{
    if index < slots.len() {
        match &slots[index] {
            Space::Full(value) => Some(value),
            Space::Empty(_) => None,
        }
    } else {
        None
    }
}

/// A depot whose storage grows by one slot whenever a value is put in and
/// no slot is vacant.
pub struct VecDepot<T> {
    empty_bounds: Option<EmptyBounds>,
    vec: Vec<Space<T>>,
}

impl<T> VecDepot<T> {
    /// The slots as stored, links of vacant slots included.
    pub closed spec fn spaces(&self) -> Seq<Space<T>> {
        self.vec@
    }

    /// The cached bounds of the chain of vacant slots.
    pub closed spec fn bounds(&self) -> Option<EmptyBounds> {
        self.empty_bounds
    }

    /// An empty depot whose storage has room for `capacity` slots before
    /// it reallocates.
    pub fn with_capacity(capacity: usize) -> (r: Self)
        ensures
            r.wf(),
            r.slots() == Seq::<Option<T>>::empty(),
            r.grows(),
    {
        let r = Self { empty_bounds: None, vec: Vec::with_capacity(capacity) };
        proof {
            assert(values(r.vec@) =~= Seq::<Option<T>>::empty());
        }
        r
    }
}

impl<T> Default for VecDepot<T> {
    fn default() -> (r: Self)
        ensures
            r.wf(),
            r.slots() == Seq::<Option<T>>::empty(),
            r.grows(),
    {
        let r = Self { empty_bounds: None, vec: Vec::new() };
        proof {
            assert(values(r.vec@) =~= Seq::<Option<T>>::empty());
        }
        r
    }
}

impl<T> Depot<T> for VecDepot<T> {
    closed spec fn slots(&self) -> Seq<Option<T>> {
        values(self.vec@)
    }

    open spec fn grows(&self) -> bool {
        true
    }

    closed spec fn wf(&self) -> bool {
        chain_wf(self.vec@, self.empty_bounds)
    }

    fn get(&self, index: usize) -> (r: Option<&T>) {
        get_in_slice(self.vec.as_slice(), index)
    }

    fn put(&mut self, value: T) -> (r: Result<usize, PutError>) {
        proof {
            lemma_bounds_locate_lowest(self.vec@, self.empty_bounds);
        }
        match self.empty_bounds {
            Some(bounds) => {
                let index = bounds.first;
                put_value_in_slice(self.vec.as_mut_slice(), &mut self.empty_bounds, index, value);
                Ok(index)
            },
            None => {
                let ghost s0 = self.vec@;
                self.vec.push(Space::Full(value));
                proof {
                    let s1 = self.vec@;
                    assert(values(s1) =~= values(s0).push(Some(value)));
                    assert forall|k: int| -1 < k < s1.len() implies !#[trigger] vacant(s1, k) by {
                        if k < s0.len() {
                            assert(s1[k] == s0[k]);
                            assert(!vacant(s0, k));
                        }
                    }
                }
                Ok(self.vec.len() - 1)
            },
        }
    }

    fn delete(&mut self, index: usize) -> (r: Result<(), DeleteError>) {
        if index < self.vec.len() {
            delete_value_in_slice(self.vec.as_mut_slice(), &mut self.empty_bounds, index);
            Ok(())
        } else {
            Err(DeleteError::NotFound)
        }
    }
}

/// A depot of a fixed capacity `SIZE`. All its slots exist from the start;
/// a put fails once every one of them is full.
pub struct ArrayDepot<T, const SIZE: usize> {
    empty_bounds: Option<EmptyBounds>,
    array: Vec<Space<T>>,
}

impl<T, const SIZE: usize> ArrayDepot<T, SIZE> {
    /// The slots as stored, links of vacant slots included.
    pub closed spec fn spaces(&self) -> Seq<Space<T>> {
        self.array@
    }

    /// The cached bounds of the chain of vacant slots.
    pub closed spec fn bounds(&self) -> Option<EmptyBounds> {
        self.empty_bounds
    }
}

impl<T, const SIZE: usize> Default for ArrayDepot<T, SIZE> {
    /// A depot with all `SIZE` slots vacant, chained in ascending order.
    fn default() -> (r: Self)
        ensures
            r.wf(),
            r.slots() == Seq::new(SIZE as nat, |i: int| None::<T>),
            !r.grows(),
    {
        let mut array: Vec<Space<T>> = Vec::with_capacity(SIZE);
        let mut index: usize = 0;
        while index < SIZE
            invariant
                index <= SIZE,
                array@.len() == index,
                forall|k: int|
                    0 <= k < index ==> #[trigger] array@[k] == Space::<T>::Empty(
                        ascending_link(k, SIZE as int),
                    ),
            decreases SIZE - index,
        {
            let prev = if index == 0 {
                None
            } else {
                Some(index - 1)
            };
            let next = if index + 1 == SIZE {
                None
            } else {
                Some(index + 1)
            };
            array.push(Space::Empty(Link::new(prev, next)));
            index = index + 1;
        }
        let empty_bounds = if SIZE == 0 {
            None
        } else {
            Some(EmptyBounds::new(0, SIZE - 1))
        };
        let r = Self { empty_bounds, array };
        proof {
            let s = r.array@;
            assert(values(s) =~= Seq::new(SIZE as nat, |i: int| None::<T>));
            assert forall|i: int| #[trigger] vacant(s, i) == (0 <= i < SIZE) by {
            }
        }
        r
    }
}

/// The link of slot `k` of `n` slots that are all vacant.
spec fn ascending_link(k: int, n: int) -> Link {
    Link {
        prev: if k == 0 {
            None
        } else {
            Some((k - 1) as usize)
        },
        next: if k + 1 == n {
            None
        } else {
            Some((k + 1) as usize)
        },
    }
}

impl<T, const SIZE: usize> Depot<T> for ArrayDepot<T, SIZE> {
    closed spec fn slots(&self) -> Seq<Option<T>> {
        values(self.array@)
    }

    open spec fn grows(&self) -> bool {
        false
    }

    closed spec fn wf(&self) -> bool {
        &&& self.array@.len() == SIZE
        &&& chain_wf(self.array@, self.empty_bounds)
    }

    fn get(&self, index: usize) -> (r: Option<&T>) {
        get_in_slice(self.array.as_slice(), index)
    }

    fn put(&mut self, value: T) -> (r: Result<usize, PutError>) {
        proof {
            lemma_bounds_locate_lowest(self.array@, self.empty_bounds);
        }
        match self.empty_bounds {
            Some(bounds) => {
                let index = bounds.first;
                put_value_in_slice(self.array.as_mut_slice(), &mut self.empty_bounds, index, value);
                Ok(index)
            },
            None => Err(PutError::OutOfSpace),
        }
    }

    fn delete(&mut self, index: usize) -> (r: Result<(), DeleteError>) {
        if index < self.array.len() {
            delete_value_in_slice(self.array.as_mut_slice(), &mut self.empty_bounds, index);
            Ok(())
        } else {
            Err(DeleteError::NotFound)
        }
    }
}

/// The bounded depot under its other name.
pub type ArrayParkingLot<T, const SIZE: usize> = ArrayDepot<T, SIZE>;

/// The growing depot under its other name.
pub type VecParkingLot<T> = VecDepot<T>;

/// The number of vacant slots.
pub open spec fn vacant_count<T>(slots: Seq<Option<T>>) -> nat
    decreases slots.len(),
{
    if slots.len() == 0 {
        0
    } else {
        vacant_count(slots.drop_last()) + if slots.last() is None {
            1nat
        } else {
            0nat
        }
    }
}

proof fn lemma_vacant_count_positive<T>(slots: Seq<Option<T>>)
    ensures
        vacant_count(slots) > 0 <==> has_vacant(slots),
    decreases slots.len(),
{
    if slots.len() > 0 {
        let init = slots.drop_last();
        lemma_vacant_count_positive(init);
        if has_vacant(init) {
            let i = choose|i: int| 0 <= i < init.len() && #[trigger] init[i] is None;
            assert(slots[i] is None);
        }
        if has_vacant(slots) && slots.last() is Some {
            let i = choose|i: int| 0 <= i < slots.len() && #[trigger] slots[i] is None;
            assert(init[i] is None);
        }
    }
}

proof fn lemma_vacant_count_fill<T>(slots: Seq<Option<T>>, i: int, value: T)
    requires
        0 <= i < slots.len(),
        slots[i] is None,
    ensures
        vacant_count(slots.update(i, Some(value))) + 1 == vacant_count(slots),
    decreases slots.len(),
{
    let after = slots.update(i, Some(value));
    if i < slots.len() - 1 {
        lemma_vacant_count_fill(slots.drop_last(), i, value);
        assert(after.drop_last() =~= slots.drop_last().update(i, Some(value)));
    } else {
        assert(after.drop_last() =~= slots.drop_last());
    }
}

proof fn lemma_vacant_count_all<T>(n: nat)
    ensures
        vacant_count(Seq::new(n, |i: int| None::<T>)) == n,
    decreases n,
{
    if n > 0 {
        lemma_vacant_count_all::<T>((n - 1) as nat);
        assert(Seq::new(n, |i: int| None::<T>).drop_last() =~= Seq::new(
            (n - 1) as nat,
            |i: int| None::<T>,
        ));
    }
}

/// A value put into a depot is what a get at the returned index gives back.
pub proof fn law_round_trip<T>(
    before: Seq<Option<T>>,
    grows: bool,
    value: T,
    r: Result<usize, PutError>,
    after: Seq<Option<T>>,
)
    requires
        put_spec(before, grows, value, r, after),
        r is Ok,
    ensures
        slot_at(after, r->Ok_0 as int) == Some(value),
{
}

/// A bounded depot created with capacity `n` accepts exactly `n` puts in a
/// row and refuses the next one: `states` are its slots before and after
/// each put, `results` what each put returned.
pub proof fn law_bounded_capacity<T>(
    n: nat,
    values: Seq<T>,
    results: Seq<Result<usize, PutError>>,
    states: Seq<Seq<Option<T>>>,
)
    requires
        values.len() == n + 1,
        results.len() == n + 1,
        states.len() == n + 2,
        states[0] == Seq::new(n, |i: int| None::<T>),
        forall|k: int|
            0 <= k <= n ==> put_spec(states[k], false, values[k], #[trigger] results[k], states[k + 1]),
    ensures
        forall|k: int| 0 <= k < n ==> (#[trigger] results[k]) is Ok,
        results[n as int] == Err::<usize, PutError>(PutError::OutOfSpace),
{
    lemma_vacant_count_all::<T>(n);
    lemma_bounded_run(n, values, results, states, 0);
}

/// The puts from the `k`-th on, while `n - k` slots are vacant, succeed
/// until the `n`-th, which fails.
proof fn lemma_bounded_run<T>(
    n: nat,
    values: Seq<T>,
    results: Seq<Result<usize, PutError>>,
    states: Seq<Seq<Option<T>>>,
    k: int,
)
    requires
        0 <= k <= n,
        values.len() == n + 1,
        results.len() == n + 1,
        states.len() == n + 2,
        vacant_count(states[k]) == n - k,
        forall|j: int|
            0 <= j <= n ==> put_spec(states[j], false, values[j], #[trigger] results[j], states[j + 1]),
    ensures
        forall|j: int| k <= j < n ==> (#[trigger] results[j]) is Ok,
        results[n as int] == Err::<usize, PutError>(PutError::OutOfSpace),
    decreases n - k,
{
    lemma_vacant_count_positive(states[k]);
    assert(put_spec(states[k], false, values[k], results[k], states[k + 1]));
    if k < n {
        lemma_vacant_count_fill(states[k], results[k]->Ok_0 as int, values[k]);
        lemma_bounded_run(n, values, results, states, k + 1);
    }
}

/// After a full slot is deleted a get there finds nothing, and the next
/// put reuses a vacant slot instead of growing the storage.
pub proof fn law_reclamation<T>(
    s0: Seq<Option<T>>,
    index: usize,
    deleted: Result<(), DeleteError>,
    s1: Seq<Option<T>>,
    grows: bool,
    value: T,
    put: Result<usize, PutError>,
    s2: Seq<Option<T>>,
)
    requires
        slot_at(s0, index as int) is Some,
        delete_spec(s0, index, deleted, s1),
        put_spec(s1, grows, value, put, s2),
    ensures
        slot_at(s1, index as int) is None,
        put is Ok,
        put->Ok_0 < s1.len(),
        s1[put->Ok_0 as int] is None,
{
    assert(s1[index as int] is None);
}

/// Deleting the same index twice in a row succeeds both times, and the
/// second delete changes nothing.
pub proof fn law_delete_idempotent<T>(
    s0: Seq<Option<T>>,
    index: usize,
    r1: Result<(), DeleteError>,
    s1: Seq<Option<T>>,
    r2: Result<(), DeleteError>,
    s2: Seq<Option<T>>,
)
    requires
        index < s0.len(),
        delete_spec(s0, index, r1, s1),
        delete_spec(s1, index, r2, s2),
    ensures
        r1 is Ok,
        r2 is Ok,
        s2 == s1,
{
    assert(s2 =~= s1);
}

/// Whatever puts and deletes a growing depot has seen, its vacant slots
/// form a chain sorted by index whose links and bounds agree with the slots
/// (see `law_chain_sorted` for the walk along it).
pub proof fn law_vec_depot_chain<T>(depot: &VecDepot<T>)
    requires
        depot.wf(),
    ensures
        chain_wf(depot.spaces(), depot.bounds()),
        values(depot.spaces()) == depot.slots(),
{
}

/// Whatever puts and deletes a bounded depot has seen, its vacant slots
/// form a chain sorted by index whose links and bounds agree with the slots
/// (see `law_chain_sorted` for the walk along it).
pub proof fn law_array_depot_chain<T, const SIZE: usize>(depot: &ArrayDepot<T, SIZE>)
    requires
        depot.wf(),
    ensures
        chain_wf(depot.spaces(), depot.bounds()),
        values(depot.spaces()) == depot.slots(),
        depot.slots().len() == SIZE,
{
}

} // verus!
