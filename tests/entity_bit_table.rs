use ecs_depot::entity_bit_table::{ArrayEntityBitTable, EntityBitTable, VecEntityBitTable};

#[test]
fn bit_table_reads_single_components() {
    let table = VecEntityBitTable::new(vec![0b1011, 0, 1u64 << 63]);
    assert!(table.entity_has_component(0, 0));
    assert!(table.entity_has_component(0, 1));
    assert!(!table.entity_has_component(0, 2));
    assert!(table.entity_has_component(0, 3));
    assert!(!table.entity_has_component(1, 0));
    assert!(table.entity_has_component(2, 63));
    assert!(!table.entity_has_component(2, 62));
    assert!(!table.entity_has_component(3, 0));
    assert_eq!(table.get_entity_flags(0), Some(&0b1011));
    assert_eq!(table.get_entity_flags(3), None);
}

#[test]
fn bit_table_has_and_lacks_component_sets() {
    let table: ArrayEntityBitTable<2> = ArrayEntityBitTable::new([0b0110, 0b1001]);
    assert!(table.entity_has_components(0, &[1, 2]));
    assert!(!table.entity_has_components(0, &[1, 3]));
    assert!(table.entity_lacks_components(0, &[0, 3]));
    assert!(!table.entity_lacks_components(0, &[0, 2]));
    assert!(table.entity_has_components(1, &[]));
    assert!(table.entity_lacks_components(1, &[]));
    assert!(!table.entity_has_components(2, &[0]));
    assert!(table.entity_lacks_components(2, &[0, 1]));
}
