use ecs_depot::component::BTreeMapComponentStorage;
use ecs_depot::component::{Component, ComponentStorage};

/// a fake component type for use in unit tests
#[derive(Copy, Clone, Debug, Default, Eq, PartialEq, Ord, PartialOrd)]
pub struct TestComponent(pub i32);

impl Component for TestComponent {}

/// test that a `ComponentStorage` satisfies the expected core initialization behavior
fn test_init_behavior<S: ComponentStorage<TestComponent>, I: Iterator<Item = usize>>(
    storage: &S,
    index_iterator: I,
) {
    for i in index_iterator {
        assert!(
            storage.get(i).is_none(),
            "element {} in newly initialized storage was not None",
            i
        )
    }
}

/// test that a `ComponentStorage` satisfies the expected core insertion and updating behavior
fn test_insert_and_update_behavior<
    S: ComponentStorage<TestComponent>,
    I: Iterator<Item = usize>,
>(
    storage: &mut S,
    index_iterator: I,
) {
    for i in index_iterator {
        let value = i as i32;
        match storage.insert(i, TestComponent(value)) {
            Ok(x) => {
                if let Some(x) = x {
                    panic!("inserting into empty slot (index: {}) returned Some ({:?}) as the slot's previous value", i, x)
                }
            }
            Err(err) => panic!(
                "inserting into empty slot (index: {}) returned an error: {:?}",
                i, err
            ),
        }
        match storage.get(i) {
            Some(x) => assert_eq!(
                x.0,
                value,
                "value retrieved from index {}: {:?} did not match what was inserted there: {:?}",
                i,
                x,
                TestComponent(value)
            ),
            None => panic!(
                "attempt to retrieve the value that was inserted at index {} returned None",
                i
            ),
        }
        let updated_value = ((i + 1) * 64) as i32;
        match storage.insert(i, TestComponent(updated_value)) {
            Ok(x) => match x {
                Some(x) => assert_eq!(x.0, value, "updating value at index {} returned {:?} as the slot's previous value, expected {:?}", i, x, TestComponent(value)),
                None => panic!("updating into slot (index: {}) returned None as the slot's previous value, expected {:?}", i, TestComponent(updated_value))
            },
            Err(err) => panic!("updating slot (index: {}) returned an error: {:?}", i, err)
        }
        match storage.get(i) {
            Some(x) => assert_eq!(
                x.0,
                updated_value,
                "value retrieved from index {}: {:?} did not match what was updated there: {:?}",
                i,
                x,
                TestComponent(updated_value)
            ),
            None => panic!(
                "attempt to retrieve the value that was updated at index {} returned None",
                i
            ),
        }
    }
}

#[test]
fn b_tree_map_component_storage_test_init() {
    let storage: BTreeMapComponentStorage<TestComponent> = BTreeMapComponentStorage::default();
    test_init_behavior(&storage, 0..64);
}

#[test]
fn b_tree_map_component_storage_test_insert_update() {
    let mut storage: BTreeMapComponentStorage<TestComponent> =
        BTreeMapComponentStorage::default();
    test_insert_and_update_behavior(&mut storage, 0..64);
}

#[test]
fn b_tree_map_component_storage_test_get_at_arbitrary_index() {
    let storage: BTreeMapComponentStorage<TestComponent> = BTreeMapComponentStorage::default();
    if let Some(x) = storage.get(123456789) {
        panic!("retrieved value was {:?}, expected None", x);
    }
}

#[test]
fn b_tree_map_component_storage_test_insert_at_arbitrary_index() {
    let mut storage: BTreeMapComponentStorage<TestComponent> =
        BTreeMapComponentStorage::default();
    let test_component = TestComponent(123);
    match storage.insert(123456789, test_component) {
        Ok(x) => {
            if x.is_some() {
                panic!("inserting returned {:?}, None expected", x)
            }
        }
        Err(err) => panic!("inserting returned error {:?}", err),
    }
    match storage.get(123456789) {
        Some(x) => assert_eq!(
            x.0, test_component.0,
            "retrieved value previously inserted was {:?}, expected {:?}",
            x, test_component
        ),
        None => panic!(
            "retrieved value previously inserted was None, expected {:?}",
            test_component
        ),
    }
}

#[test]
fn b_tree_map_component_storage_delete_returns_removed_component() {
    let mut storage: BTreeMapComponentStorage<TestComponent> = BTreeMapComponentStorage::new();
    assert!(matches!(storage.insert(7, TestComponent(70)), Ok(None)));
    assert!(matches!(storage.delete(7), Ok(Some(TestComponent(70)))));
    assert!(storage.get(7).is_none());
    assert!(matches!(storage.delete(7), Ok(None)));
}
