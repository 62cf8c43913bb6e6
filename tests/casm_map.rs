use tracer::casm_map::make_casm_to_sierra_map;

#[test]
fn inversion_groups_statements() {
    let map = make_casm_to_sierra_map(&vec![0, 0, 3], 10);
    assert_eq!(map.len(), 2);
    assert_eq!(map[&10], vec![0, 1]);
    assert_eq!(map[&13], vec![2]);
}

#[test]
fn inversion_of_nothing_is_empty() {
    let map = make_casm_to_sierra_map(&Vec::new(), 10);
    assert!(map.is_empty());
}

#[test]
fn inversion_without_header() {
    let map = make_casm_to_sierra_map(&vec![2, 0, 2, 5], 0);
    assert_eq!(map.len(), 3);
    assert_eq!(map[&0], vec![1]);
    assert_eq!(map[&2], vec![0, 2]);
    assert_eq!(map[&5], vec![3]);
}
