//! Per-entity bit sets recording which components each entity has, for
//! quickly selecting the entities a system should process.
use vstd::prelude::*;

verus! {

/// Bit `bit` of `flags` is set.
pub open spec fn bit_set(flags: u64, bit: u64) -> bool {
    (flags >> bit) & 1u64 == 1u64
}

/// Entity `entity_id` exists in `table` and has component `component_id`.
pub open spec fn has_component(table: Seq<u64>, entity_id: int, component_id: int) -> bool {
    0 <= entity_id < table.len() && bit_set(table[entity_id], component_id as u64)
}

/// A table of component flags, one `u64` per entity: bit `c` set means
/// the entity has component `c`.
pub trait EntityBitTable {
    /// The flags of each entity, by entity index.
    spec fn table(&self) -> Seq<u64>;

    /// The flags of entity `entity_id`, if it is in the table.
    fn get_entity_flags(&self, entity_id: usize) -> (r: Option<&u64>)
        ensures
            match r {
                Some(flags) => entity_id < self.table().len() && *flags == self.table()[entity_id as int],
                None => entity_id >= self.table().len(),
            },
    ;

    /// Entity `entity_id` is in the table and has component `component_id`.
    fn entity_has_component(&self, entity_id: usize, component_id: usize) -> (r: bool)
        requires
            component_id < 64,
        ensures
            r == has_component(self.table(), entity_id as int, component_id as int),
    {
        if let Some(entity_flags) = self.get_entity_flags(entity_id) {
            let flags = *entity_flags;
            let bit = component_id as u64;
            let r = (flags & (1u64 << bit)) != 0;
            assert(r == bit_set(flags, bit)) by (bit_vector)
                requires
                    bit < 64,
                    r == ((flags & (1u64 << bit)) != 0),
            ;
            return r;
        }
        false
    }

    /// Entity `entity_id` has every component of `component_ids`.
    fn entity_has_components(&self, entity_id: usize, component_ids: &[usize]) -> (r: bool)
        requires
            forall|i: int| 0 <= i < component_ids@.len() ==> #[trigger] component_ids@[i] < 64,
        ensures
            r == forall|i: int|
                0 <= i < component_ids@.len() ==> has_component(
                    self.table(),
                    entity_id as int,
                    #[trigger] component_ids@[i] as int,
                ),
    {
        let mut i: usize = 0;
        while i < component_ids.len()
            invariant
                i <= component_ids@.len(),
                forall|j: int| 0 <= j < component_ids@.len() ==> #[trigger] component_ids@[j] < 64,
                forall|j: int|
                    0 <= j < i ==> has_component(
                        self.table(),
                        entity_id as int,
                        #[trigger] component_ids@[j] as int,
                    ),
            decreases component_ids@.len() - i,
        {
            if !self.entity_has_component(entity_id, component_ids[i]) {
                return false;
            }
            i = i + 1;
        }
        true
    }

    /// Entity `entity_id` has none of the components of `component_ids`.
    fn entity_lacks_components(&self, entity_id: usize, component_ids: &[usize]) -> (r: bool)
        requires
            forall|i: int| 0 <= i < component_ids@.len() ==> #[trigger] component_ids@[i] < 64,
        ensures
            r == forall|i: int|
                0 <= i < component_ids@.len() ==> !has_component(
                    self.table(),
                    entity_id as int,
                    #[trigger] component_ids@[i] as int,
                ),
    {
        let mut i: usize = 0;
        while i < component_ids.len()
            invariant
                i <= component_ids@.len(),
                forall|j: int| 0 <= j < component_ids@.len() ==> #[trigger] component_ids@[j] < 64,
                forall|j: int|
                    0 <= j < i ==> !has_component(
                        self.table(),
                        entity_id as int,
                        #[trigger] component_ids@[j] as int,
                    ),
            decreases component_ids@.len() - i,
        {
            if self.entity_has_component(entity_id, component_ids[i]) {
                return false;
            }
            i = i + 1;
        }
        true
    }
}

/// A bit table that holds its flags in a vector.
pub struct VecEntityBitTable {
    entity_table: Vec<u64>,
}

impl VecEntityBitTable {
    /// A table with the flags of entity `i` at `entity_table[i]`.
    pub fn new(entity_table: Vec<u64>) -> (r: Self)
        ensures
            r.table() == entity_table@,
    {
        Self { entity_table }
    }
}

impl EntityBitTable for VecEntityBitTable {
    closed spec fn table(&self) -> Seq<u64> {
        self.entity_table@
    }

    fn get_entity_flags(&self, entity_id: usize) -> (r: Option<&u64>) {
        if entity_id < self.entity_table.len() {
            Some(&self.entity_table[entity_id])
        } else {
            None
        }
    }
}

/// A bit table of a fixed number `SIZE` of entities.
pub struct ArrayEntityBitTable<const SIZE: usize> {
    entity_table: [u64; SIZE],
}

impl<const SIZE: usize> ArrayEntityBitTable<SIZE> {
    /// A table with the flags of entity `i` at `entity_table[i]`.
    pub fn new(entity_table: [u64; SIZE]) -> (r: Self)
        ensures
            r.table() == entity_table@,
    {
        Self { entity_table }
    }
}

impl<const SIZE: usize> EntityBitTable for ArrayEntityBitTable<SIZE> {
    closed spec fn table(&self) -> Seq<u64> {
        self.entity_table@
    }

    fn get_entity_flags(&self, entity_id: usize) -> (r: Option<&u64>) {
        if entity_id < SIZE {
            Some(&self.entity_table[entity_id])
        } else {
            None
        }
    }
}

} // verus!
