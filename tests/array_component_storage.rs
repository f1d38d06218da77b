use ecs_depot::component::ArrayComponentStorage;
use ecs_depot::component::{Component, ComponentStorage};

/// a fake component type for use in unit tests
#[derive(Copy, Clone, Debug, Default, Eq, PartialEq, Ord, PartialOrd)]
pub struct TestComponent(pub i32);

impl Component for TestComponent {}

/// test that a `ComponentStorage` satisfies the expected core initialization behavior
fn test_init_behavior<S: ComponentStorage<TestComponent>, I: Iterator<Item = usize>>(
    storage: &S,
    index_iterator: I,
) {
    for i in index_iterator {
        assert!(
            storage.get(i).is_none(),
            "element {} in newly initialized storage was not None",
            i
        )
    }
}

/// test that a `ComponentStorage` satisfies the expected core insertion and updating behavior
fn test_insert_and_update_behavior<
    S: ComponentStorage<TestComponent>,
    I: Iterator<Item = usize>,
>(
    storage: &mut S,
    index_iterator: I,
) {
    for i in index_iterator {
        let value = i as i32;
        match storage.insert(i, TestComponent(value)) {
            Ok(x) => {
                if let Some(x) = x {
                    panic!("inserting into empty slot (index: {}) returned Some ({:?}) as the slot's previous value", i, x)
                }
            }
            Err(err) => panic!(
                "inserting into empty slot (index: {}) returned an error: {:?}",
                i, err
            ),
        }
        match storage.get(i) {
            Some(x) => assert_eq!(
                x.0,
                value,
                "value retrieved from index {}: {:?} did not match what was inserted there: {:?}",
                i,
                x,
                TestComponent(value)
            ),
            None => panic!(
                "attempt to retrieve the value that was inserted at index {} returned None",
                i
            ),
        }
        let updated_value = ((i + 1) * 64) as i32;
        match storage.insert(i, TestComponent(updated_value)) {
            Ok(x) => match x {
                Some(x) => assert_eq!(x.0, value, "updating value at index {} returned {:?} as the slot's previous value, expected {:?}", i, x, TestComponent(value)),
                None => panic!("updating into slot (index: {}) returned None as the slot's previous value, expected {:?}", i, TestComponent(updated_value))
            },
            Err(err) => panic!("updating slot (index: {}) returned an error: {:?}", i, err)
        }
        match storage.get(i) {
            Some(x) => assert_eq!(
                x.0,
                updated_value,
                "value retrieved from index {}: {:?} did not match what was updated there: {:?}",
                i,
                x,
                TestComponent(updated_value)
            ),
            None => panic!(
                "attempt to retrieve the value that was updated at index {} returned None",
                i
            ),
        }
    }
}

#[test]
fn array_component_storage_test_init() {
    let storage: ArrayComponentStorage<TestComponent, 64> = ArrayComponentStorage::default();
    test_init_behavior(&storage, 0..64);
}

#[test]
fn array_component_storage_test_insert_update() {
    let mut storage: ArrayComponentStorage<TestComponent, 64> =
        ArrayComponentStorage::default();
    test_insert_and_update_behavior(&mut storage, 0..64);
}

#[test]
fn test_none_on_get_out_of_bounds() {
    let storage: ArrayComponentStorage<TestComponent, 64> = ArrayComponentStorage::default();
    assert!(storage.get(64).is_none())
}

#[test]
fn test_err_on_insert_out_of_bounds() {
    let mut storage: ArrayComponentStorage<TestComponent, 64> =
        ArrayComponentStorage::default();
    assert!(storage.insert(64, TestComponent(0)).is_err())
}

#[test]
fn array_component_storage_delete_returns_removed_component() {
    let mut storage: ArrayComponentStorage<TestComponent, 4> = ArrayComponentStorage::default();
    assert!(matches!(storage.insert(2, TestComponent(5)), Ok(None)));
    assert!(matches!(storage.delete(2), Ok(Some(TestComponent(5)))));
    assert!(storage.get(2).is_none());
    assert!(matches!(storage.delete(2), Ok(None)));
    match storage.delete(4) {
        Err(err) => assert_eq!(err.entity_id, 4),
        Ok(x) => panic!("deleting out of bounds returned {:?}, expected an error", x),
    }
}
