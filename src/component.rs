//! Components and the storages that hold one kind of component per entity.
use std::collections::{BTreeMap, HashMap};
use vstd::prelude::*;

verus! {

broadcast use {vstd::std_specs::hash::group_hash_axioms, vstd::std_specs::btree::group_btree_axioms, vstd::laws_cmp::group_laws_cmp};

/// A type that can be stored as a component of an entity.
pub trait Component: Sized {

}

/// A failure to store, or to delete, a component of an entity: the
/// entity's index and, possibly, what went wrong.
#[derive(Debug)]
pub struct ComponentWriteError {
    pub entity_id: usize,
    pub detail: Option<&'static str>,
}

impl ComponentWriteError {
    /// An error for a component of type `T` of entity `entity_id`.
    pub fn new<T>(entity_id: usize) -> (r: Self)
        ensures
            r.entity_id == entity_id,
            r.detail is None,
    {
        Self { entity_id, detail: None }
    }

    /// An error for a component of type `T` of entity `entity_id`, with
    /// details.
    pub fn new_with_detail<T>(entity_id: usize, detail: &'static str) -> (r: Self)
        ensures
            r.entity_id == entity_id,
            r.detail == Some(detail),
    {
        Self { entity_id, detail: Some(detail) }
    }
}

/// What `m` holds at `k`.
pub open spec fn entry<T>(m: Map<usize, T>, k: usize) -> Option<T> {
    if m.contains_key(k) {
        Some(m[k])
    } else {
        None
    }
}

/// The components that a sequence of optional cells holds, by index.
pub open spec fn cells_view<T>(cells: Seq<Option<T>>) -> Map<usize, T> {
    Map::new(
        |i: usize| (i as int) < cells.len() && cells[i as int] is Some,
        |i: usize| cells[i as int]->Some_0,
    )
}

/// A storage of components of one type, one per entity index.
pub trait ComponentStorage<T: Component> {
    /// The components held, by entity index.
    spec fn components(&self) -> Map<usize, T>;

    /// The storage's internal invariant.
    spec fn wf(&self) -> bool;

    /// The component of entity `index`, if it has one.
    fn get(&self, index: usize) -> (r: Option<&T>)
        requires
            self.wf(),
        ensures
            match r {
                Some(v) => entry(self.components(), index) == Some(*v),
                None => entry(self.components(), index) is None,
            },
    ;

    /// Stores `component` for entity `index` and returns the component it
    /// replaced. On an error nothing changes.
    fn insert(&mut self, index: usize, component: T) -> (r: Result<Option<T>, ComponentWriteError>)
        requires
            old(self).wf(),
        ensures
            final(self).wf(),
            match r {
                Ok(prev) => {
                    &&& final(self).components() == old(self).components().insert(index, component)
                    &&& prev == entry(old(self).components(), index)
                },
                Err(e) => {
                    &&& final(self).components() == old(self).components()
                    &&& e.entity_id == index
                },
            },
    ;

    /// Removes the component of entity `index` and returns it. On an error
    /// nothing changes.
    fn delete(&mut self, index: usize) -> (r: Result<Option<T>, ComponentWriteError>)
        requires
            old(self).wf(),
        ensures
            final(self).wf(),
            match r {
                Ok(prev) => {
                    &&& final(self).components() == old(self).components().remove(index)
                    &&& prev == entry(old(self).components(), index)
                },
                Err(e) => {
                    &&& final(self).components() == old(self).components()
                    &&& e.entity_id == index
                },
            },
    ;
}

/// Replaces cell `index` of `cells` with `value` and returns what it held.
fn swap_cell<T>(cells: &mut Vec<Option<T>>, index: usize, value: Option<T>) -> (r: Option<T>)
    requires
        index < old(cells)@.len(),
    ensures
        final(cells)@ == old(cells)@.update(index as int, value),
        r == old(cells)@[index as int],
        cells_view(final(cells)@) == (match value {
            Some(v) => cells_view(old(cells)@).insert(index, v),
            None => cells_view(old(cells)@).remove(index),
        }),
        r == entry(cells_view(old(cells)@), index),
{
    let ghost given = value;
    let mut tmp = value;
    std::mem::swap(&mut cells[index], &mut tmp);
    proof {
        let v0 = cells_view(old(cells)@);
        let v1 = cells_view(cells@);
        match given {
            Some(v) => assert(v1 =~= v0.insert(index, v)),
            None => assert(v1 =~= v0.remove(index)),
        }
    }
    tmp
}

/// The component in cell `index` of `cells`, by reference.
fn get_cell<T>(cells: &Vec<Option<T>>, index: usize) -> (r: Option<&T>)
    ensures
        match r {
            Some(v) => entry(cells_view(cells@), index) == Some(*v),
            None => entry(cells_view(cells@), index) is None,
        },
{
    if index < cells.len() {
        match &cells[index] {
            Some(component) => Some(component),
            None => None,
        }
    } else {
        None
    }
}

/// A storage of a fixed number `SIZE` of cells; indices from `SIZE` on
/// cannot be written.
#[derive(Debug)]
pub struct ArrayComponentStorage<T: Component, const SIZE: usize> {
    components: Vec<Option<T>>,
}

impl<T: Component, const SIZE: usize> ComponentStorage<T> for ArrayComponentStorage<T, SIZE> {
    closed spec fn components(&self) -> Map<usize, T> {
        cells_view(self.components@)
    }

    closed spec fn wf(&self) -> bool {
        self.components@.len() == SIZE
    }

    fn get(&self, index: usize) -> (r: Option<&T>) {
        get_cell(&self.components, index)
    }

    fn insert(&mut self, index: usize, component: T) -> (r: Result<Option<T>, ComponentWriteError>)
        ensures
            r is Err <==> index >= SIZE,
    {
        if index < self.components.len() {
            let prev = swap_cell(&mut self.components, index, Some(component));
            return Ok(prev);
        }
        Err(ComponentWriteError::new::<T>(index))
    }

    fn delete(&mut self, index: usize) -> (r: Result<Option<T>, ComponentWriteError>)
        ensures
            r is Err <==> index >= SIZE,
    {
        if index < self.components.len() {
            let prev = swap_cell(&mut self.components, index, None);
            return Ok(prev);
        }
        Err(ComponentWriteError::new::<T>(index))
    }
}

impl<T: Component, const SIZE: usize> Default for ArrayComponentStorage<T, SIZE> {
    /// A storage of `SIZE` empty cells.
    fn default() -> (r: Self)
        ensures
            r.wf(),
            r.components() == Map::<usize, T>::empty(),
    {
        let mut components: Vec<Option<T>> = Vec::with_capacity(SIZE);
        let mut i: usize = 0;
        while i < SIZE
            invariant
                i <= SIZE,
                components@.len() == i,
                forall|k: int| 0 <= k < i ==> (#[trigger] components@[k]) is None,
            decreases SIZE - i,
        {
            components.push(None);
            i = i + 1;
        }
        let r = Self { components };
        proof {
            assert(cells_view(r.components@) =~= Map::<usize, T>::empty());
        }
        r
    }
}

/// A storage of cells that grows to reach any index written.
#[derive(Debug)]
pub struct VecComponentStorage<T: Component> {
    components: Vec<Option<T>>,
}

impl<T: Component> VecComponentStorage<T> {
    /// An empty storage with room reserved for `initial_size` cells; it
    /// still grows past that.
    pub fn new_with_initial_size(initial_size: usize) -> (r: Self)
        ensures
            r.wf(),
            r.components() == Map::<usize, T>::empty(),
    {
        let r = Self { components: Vec::with_capacity(initial_size) };
        proof {
            assert(cells_view(r.components@) =~= Map::<usize, T>::empty());
        }
        r
    }

    /// Grows the cells, with empty ones, to at least `min_size` of them.
    fn resize(&mut self, min_size: usize)
        ensures
            final(self).components@.len() == if old(self).components@.len() < min_size {
                min_size as int
            } else {
                old(self).components@.len() as int
            },
            final(self).components() == old(self).components(),
    {
        let ghost before = self.components@;
        while self.components.len() < min_size
            invariant
                before.len() <= self.components@.len(),
                self.components@.len() <= before.len() || self.components@.len() <= min_size,
                forall|k: int| 0 <= k < before.len() ==> self.components@[k] == before[k],
                forall|k: int|
                    before.len() <= k < self.components@.len() ==> (#[trigger] self.components@[k])
                        is None,
            decreases min_size - self.components@.len(),
        {
            self.components.push(None);
        }
        proof {
            assert(cells_view(self.components@) =~= cells_view(before));
        }
    }
}

impl<T: Component> Default for VecComponentStorage<T> {
    fn default() -> (r: Self)
        ensures
            r.wf(),
            r.components() == Map::<usize, T>::empty(),
    {
        let r = Self { components: Vec::new() };
        proof {
            assert(cells_view(r.components@) =~= Map::<usize, T>::empty());
        }
        r
    }
}

impl<T: Component> ComponentStorage<T> for VecComponentStorage<T> {
    closed spec fn components(&self) -> Map<usize, T> {
        cells_view(self.components@)
    }

    open spec fn wf(&self) -> bool {
        true
    }

    fn get(&self, index: usize) -> (r: Option<&T>) {
        get_cell(&self.components, index)
    }

    /// Fails only for the one index, `usize::MAX`, whose cell cannot exist.
    fn insert(&mut self, index: usize, component: T) -> (r: Result<Option<T>, ComponentWriteError>)
        ensures
            r is Err <==> index == usize::MAX,
    {
        if index >= self.components.len() {
            if index == usize::MAX {
                return Err(ComponentWriteError::new_with_detail::<T>(index, "index out of bounds"));
            }
            self.resize(index + 1);
        }
        let prev = swap_cell(&mut self.components, index, Some(component));
        Ok(prev)
    }

    /// Never fails: an index past the cells has nothing to delete.
    fn delete(&mut self, index: usize) -> (r: Result<Option<T>, ComponentWriteError>)
        ensures
            r is Ok,
    {
        if index < self.components.len() {
            let prev = swap_cell(&mut self.components, index, None);
            return Ok(prev);
        }
        proof {
            assert(cells_view(self.components@).remove(index) =~= cells_view(self.components@));
        }
        Ok(None)
    }
}

/// A storage that keeps only the components that exist, in an ordered map.
pub struct BTreeMapComponentStorage<T: Component> {
    components: BTreeMap<usize, T>,
}

impl<T: Component> BTreeMapComponentStorage<T> {
    pub fn new() -> (r: Self)
        ensures
            r.components() == Map::<usize, T>::empty(),
    {
        Self { components: BTreeMap::new() }
    }
}

impl<T: Component> Default for BTreeMapComponentStorage<T> {
    fn default() -> (r: Self)
        ensures
            r.components() == Map::<usize, T>::empty(),
    {
        Self { components: BTreeMap::new() }
    }
}

impl<T: Component> ComponentStorage<T> for BTreeMapComponentStorage<T> {
    closed spec fn components(&self) -> Map<usize, T> {
        self.components@
    }

    open spec fn wf(&self) -> bool {
        true
    }

    fn get(&self, index: usize) -> (r: Option<&T>) {
        self.components.get(&index)
    }

    /// Never fails.
    fn insert(&mut self, index: usize, component: T) -> (r: Result<Option<T>, ComponentWriteError>)
        ensures
            r is Ok,
    {
        Ok(self.components.insert(index, component))
    }

    /// Never fails.
    fn delete(&mut self, index: usize) -> (r: Result<Option<T>, ComponentWriteError>)
        ensures
            r is Ok,
    {
        Ok(self.components.remove(&index))
    }
}

/// A storage that keeps only the components that exist, in a hash map.
pub struct HashMapComponentStorage<T: Component> {
    components: HashMap<usize, T>,
}

impl<T: Component> HashMapComponentStorage<T> {
    pub fn new() -> (r: Self)
        ensures
            r.components() == Map::<usize, T>::empty(),
    {
        Self { components: HashMap::new() }
    }
}

impl<T: Component> Default for HashMapComponentStorage<T> {
    fn default() -> (r: Self)
        ensures
            r.components() == Map::<usize, T>::empty(),
    {
        Self { components: HashMap::new() }
    }
}

impl<T: Component> ComponentStorage<T> for HashMapComponentStorage<T> {
    closed spec fn components(&self) -> Map<usize, T> {
        self.components@
    }

    open spec fn wf(&self) -> bool {
        true
    }

    fn get(&self, index: usize) -> (r: Option<&T>) {
        self.components.get(&index)
    }

    /// Never fails.
    fn insert(&mut self, index: usize, component: T) -> (r: Result<Option<T>, ComponentWriteError>)
        ensures
            r is Ok,
    {
        Ok(self.components.insert(index, component))
    }

    /// Never fails.
    fn delete(&mut self, index: usize) -> (r: Result<Option<T>, ComponentWriteError>)
        ensures
            r is Ok,
    {
        Ok(self.components.remove(&index))
    }
}

} // verus!
