use simcore::spatial::BinLattice;

#[test]
fn key_quantizes_with_truncating_division() {
    let lat = BinLattice::new(50);
    assert_eq!(lat.key(10, 10), (0, 0));
    assert_eq!(lat.key(60, 10), (1, 0));
    assert_eq!(lat.key(99, 99), (1, 1));
    // Truncating, not flooring: small negative coordinates land in
    // cell zero.
    assert_eq!(lat.key(-10, -10), (0, 0));
    assert_eq!(lat.key(-60, -60), (-1, -1));
}

// A box exactly spanning a 2x2 block of cells returns the union of
// exactly those four cells' members, none from neighboring cells.
#[test]
fn query_box_spanning_two_by_two_cells() {
    let mut lat = BinLattice::new(50);
    lat.put(10, 10, 1); // cell (0, 0)
    lat.put(10, 60, 3); // cell (0, 1)
    lat.put(60, 10, 2); // cell (1, 0)
    lat.put(60, 60, 4); // cell (1, 1)
    lat.put(110, 10, 5); // cell (2, 0): a neighbor, not in the box
    lat.put(-60, -60, 6); // cell (-1, -1): a neighbor, not in the box
    lat.put(110, 110, 7); // cell (2, 2): a neighbor, not in the box

    // Centre (50, 50), extent 100: cells [0, 2) x [0, 2).
    let found = lat.get_nearby(50, 50, 100);
    assert_eq!(found, vec![1, 3, 2, 4]);
}

#[test]
fn query_box_smaller_than_a_cell_can_be_empty() {
    let mut lat = BinLattice::new(50);
    lat.put(10, 10, 1);
    // Centre (10, 10), extent 20: the half-open cell range is empty.
    let found = lat.get_nearby(10, 10, 20);
    assert_eq!(found, Vec::<u32>::new());
}

// Removing an id that is not there is a no-op, not an error.
#[test]
fn remove_absent_id_is_noop() {
    let mut lat = BinLattice::new(50);
    lat.put(10, 10, 1);
    lat.remove(10, 10, 99);
    lat.remove(60, 60, 1); // right id, wrong cell: also a no-op
    assert_eq!(lat.get_nearby(25, 25, 50), vec![1]);
}

#[test]
fn put_then_remove_leaves_cell_empty() {
    let mut lat = BinLattice::new(50);
    lat.put(10, 10, 1);
    lat.put(10, 10, 2);
    lat.remove(10, 10, 1);
    assert_eq!(lat.get_nearby(25, 25, 50), vec![2]);
    lat.remove(10, 10, 2);
    assert_eq!(lat.get_nearby(25, 25, 50), Vec::<u32>::new());
}

// A duplicate insert of an id already in that exact cell has no effect.
#[test]
fn duplicate_put_is_noop() {
    let mut lat = BinLattice::new(50);
    lat.put(10, 10, 1);
    lat.put(12, 12, 1);
    assert_eq!(lat.get_nearby(25, 25, 50), vec![1]);
    lat.remove(10, 10, 1);
    assert_eq!(lat.get_nearby(25, 25, 50), Vec::<u32>::new());
}
