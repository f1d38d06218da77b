use ecs_depot::component::VecComponentStorage;
use ecs_depot::component::{Component, ComponentStorage};

/// a fake component type for use in unit tests
#[derive(Copy, Clone, Debug, Default, Eq, PartialEq, Ord, PartialOrd)]
pub struct TestComponent(pub i32);

impl Component for TestComponent {}

/// test that a `ComponentStorage` satisfies the expected core initialization behavior
fn test_init_behavior<S: ComponentStorage<TestComponent>, I: Iterator<Item = usize>>(
    storage: &S,
    index_iterator: I,
) {
    for i in index_iterator {
        assert!(
            storage.get(i).is_none(),
            "element {} in newly initialized storage was not None",
            i
        )
    }
}

/// test that a `ComponentStorage` satisfies the expected core insertion and updating behavior
fn test_insert_and_update_behavior<
    S: ComponentStorage<TestComponent>,
    I: Iterator<Item = usize>,
>(
    storage: &mut S,
    index_iterator: I,
) {
    for i in index_iterator {
        let value = i as i32;
        match storage.insert(i, TestComponent(value)) {
            Ok(x) => {
                if let Some(x) = x {
                    panic!("inserting into empty slot (index: {}) returned Some ({:?}) as the slot's previous value", i, x)
                }
            }
            Err(err) => panic!(
                "inserting into empty slot (index: {}) returned an error: {:?}",
                i, err
            ),
        }
        match storage.get(i) {
            Some(x) => assert_eq!(
                x.0,
                value,
                "value retrieved from index {}: {:?} did not match what was inserted there: {:?}",
                i,
                x,
                TestComponent(value)
            ),
            None => panic!(
                "attempt to retrieve the value that was inserted at index {} returned None",
                i
            ),
        }
        let updated_value = ((i + 1) * 64) as i32;
        match storage.insert(i, TestComponent(updated_value)) {
            Ok(x) => match x {
                Some(x) => assert_eq!(x.0, value, "updating value at index {} returned {:?} as the slot's previous value, expected {:?}", i, x, TestComponent(value)),
                None => panic!("updating into slot (index: {}) returned None as the slot's previous value, expected {:?}", i, TestComponent(updated_value))
            },
            Err(err) => panic!("updating slot (index: {}) returned an error: {:?}", i, err)
        }
        match storage.get(i) {
            Some(x) => assert_eq!(
                x.0,
                updated_value,
                "value retrieved from index {}: {:?} did not match what was updated there: {:?}",
                i,
                x,
                TestComponent(updated_value)
            ),
            None => panic!(
                "attempt to retrieve the value that was updated at index {} returned None",
                i
            ),
        }
    }
}

#[test]
fn vec_component_storage_test_init() {
    let storage: VecComponentStorage<TestComponent> = VecComponentStorage::default();
    test_init_behavior(&storage, 0..64);
}

#[test]
fn vec_component_storage_test_insert_update() {
    let mut storage: VecComponentStorage<TestComponent> = VecComponentStorage::default();
    test_insert_and_update_behavior(&mut storage, 0..64);
}

#[test]
fn test_uninitialized_get() {
    let storage: VecComponentStorage<TestComponent> = VecComponentStorage::default();
    if let Some(x) = storage.get(123456) {
        panic!("retrieved value was {:?}, expected None", x);
    }
}

#[test]
fn test_uninitialized_insert() {
    let mut storage: VecComponentStorage<TestComponent> = VecComponentStorage::default();
    let test_component = TestComponent(123);
    match storage.insert(123456, test_component) {
        Ok(x) => {
            if x.is_some() {
                panic!("inserting returned {:?}, None expected", x)
            }
        }
        Err(err) => panic!("inserting returned error {:?}", err),
    }
    match storage.get(123456) {
        Some(x) => assert_eq!(
            x.0, test_component.0,
            "retrieved value previously inserted was {:?}, expected {:?}",
            x, test_component
        ),
        None => panic!(
            "retrieved value previously inserted was None, expected {:?}",
            test_component
        ),
    }
}

#[test]
fn vec_component_storage_delete_past_end_is_ok() {
    let mut storage: VecComponentStorage<TestComponent> =
        VecComponentStorage::new_with_initial_size(8);
    assert!(matches!(storage.delete(100), Ok(None)));
    assert!(matches!(storage.insert(3, TestComponent(30)), Ok(None)));
    assert!(storage.get(2).is_none());
    assert!(matches!(storage.delete(3), Ok(Some(TestComponent(30)))));
    assert!(storage.get(3).is_none());
}

#[test]
fn vec_component_storage_refuses_largest_index() {
    let mut storage: VecComponentStorage<TestComponent> = VecComponentStorage::default();
    match storage.insert(usize::MAX, TestComponent(1)) {
        Err(err) => {
            assert_eq!(err.entity_id, usize::MAX);
            assert_eq!(err.detail, Some("index out of bounds"));
        }
        Ok(x) => panic!("inserting at usize::MAX returned {:?}, expected an error", x),
    }
    assert!(storage.get(usize::MAX).is_none());
}
