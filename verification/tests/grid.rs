use hex_tactics::idx::{Direction, HexIndex, InvalidCell};

#[test]
#[should_panic(expected = "called `Result::unwrap()` on an `Err` value: InvalidCell")]
fn usize_into_hexindex_failing() {
    let _hexindex: HexIndex = HexIndex::from_index(89).unwrap();
}

#[test]
fn usize_into_hexindex_working() {
    let hexindex: HexIndex = HexIndex::from_index(23).unwrap();
    assert_eq!(hexindex.get_coords(), (5, 3));
    assert_eq!(hexindex.get_index(), 23);

    let hexindex: HexIndex = HexIndex::from_index(42).unwrap();
    assert_eq!(hexindex.get_coords(), (7, 5));
    assert_eq!(hexindex.get_index(), 42);
}

#[test]
#[should_panic(expected = "called `Result::unwrap()` on an `Err` value: InvalidCell")]
fn usize_tuple_into_hexindex_failing() {
    let _hexindex: HexIndex = HexIndex::from_coords(52, 23).unwrap();
}

#[test]
fn usize_tuple_into_hexindex_working() {
    let hexindex: HexIndex = HexIndex::from_coords(7, 5).unwrap();
    assert_eq!(hexindex.get_coords(), (7, 5));
    assert_eq!(hexindex.get_index(), 42);
}

#[test]
fn test_neighbors() {
    let top_top_left: HexIndex = HexIndex::from_coords(0, 0).unwrap();
    let top_left: HexIndex = HexIndex::from_coords(0, 2).unwrap();
    let left: HexIndex = HexIndex::from_coords(0, 4).unwrap();
    let bottom_left: HexIndex = HexIndex::from_coords(0, 6).unwrap();
    let bottom_bottom_left: HexIndex = HexIndex::from_coords(0, 8).unwrap();

    let top_top_right: HexIndex = HexIndex::from_coords(4, 0).unwrap();
    let top_right: HexIndex = HexIndex::from_coords(6, 2).unwrap();
    let right: HexIndex = HexIndex::from_coords(8, 4).unwrap();
    let bottom_right: HexIndex = HexIndex::from_coords(6, 6).unwrap();
    let bottom_bottom_right: HexIndex = HexIndex::from_coords(4, 8).unwrap();

    let top: HexIndex = HexIndex::from_coords(2, 0).unwrap();
    let middle: HexIndex = HexIndex::from_coords(3, 4).unwrap();
    let bottom: HexIndex = HexIndex::from_coords(3, 8).unwrap();

    assert_eq!(top_top_left.neighbors_present(), (false, true, true, true, false, false));
    assert_eq!(top_left.neighbors_present(), (true, true, true, true, false, false));
    assert_eq!(left.neighbors_present(), (true, true, true, false, false, false));
    assert_eq!(bottom_left.neighbors_present(), (true, true, true, false, false, true));
    assert_eq!(bottom_bottom_left.neighbors_present(), (true, true, false, false, false, true));

    assert_eq!(top_top_right.neighbors_present(), (false, false, true, true, true, false));
    assert_eq!(top_right.neighbors_present(), (false, false, true, true, true, true));
    assert_eq!(right.neighbors_present(), (false, false, false, true, true, true));
    assert_eq!(bottom_right.neighbors_present(), (true, false, false, true, true, true));
    assert_eq!(bottom_bottom_right.neighbors_present(), (true, false, false, false, true, true));

    assert_eq!(top.neighbors_present(), (false, true, true, true, true, false));
    assert_eq!(middle.neighbors_present(), (true, true, true, true, true, true));
    assert_eq!(bottom.neighbors_present(), (true, true, false, false, true, true));

    assert_eq!(
        top_top_left.get_bottom_left_neighbour().unwrap().get_bottom_left_neighbour().unwrap(),
        top_left
    );
    assert_eq!(
        top_top_right.get_bottom_right_neighbour().unwrap().get_bottom_right_neighbour().unwrap(),
        top_right
    );
    assert_eq!(
        bottom_bottom_left.get_top_left_neighbour().unwrap().get_top_left_neighbour().unwrap(),
        bottom_left
    );
    assert_eq!(
        bottom_bottom_right.get_top_right_neighbour().unwrap().get_top_right_neighbour().unwrap(),
        bottom_right
    );
    assert_eq!(top_top_left.get_right_neighbour().unwrap().get_right_neighbour().unwrap(), top);
    assert_eq!(top.get_left_neighbour().unwrap().get_left_neighbour().unwrap(), top_top_left);
}

/// Adjacency symmetry on concrete cells: stepping out in a direction and
/// back in the opposite one returns to the starting cell, for every cell
/// and every direction where a neighbour exists.
#[test]
fn neighbour_symmetry_everywhere() {
    let all = [
        Direction::TopLeft,
        Direction::TopRight,
        Direction::Right,
        Direction::BottomRight,
        Direction::BottomLeft,
        Direction::Left,
    ];
    for i in 0..61 {
        let cell = HexIndex::from_index(i).unwrap();
        for d in all {
            if let Some(n) = cell.get_neighbour(d) {
                assert_eq!(n.get_neighbour(d.opposite()), Some(cell));
            }
        }
    }
}

#[test]
fn construction_rejects_out_of_domain() {
    assert_eq!(HexIndex::from_index(61), Err(InvalidCell));
    assert!(HexIndex::from_index(60).is_ok());
    assert_eq!(HexIndex::from_coords(5, 0), Err(InvalidCell));
    assert_eq!(HexIndex::from_coords(0, 9), Err(InvalidCell));
    assert!(HexIndex::from_coords(8, 4).is_ok());
}

#[test]
fn index_and_coords_roundtrip() {
    for i in 0..61 {
        let cell = HexIndex::from_index(i).unwrap();
        let (x, y) = cell.get_coords();
        let again = HexIndex::from_coords(x, y).unwrap();
        assert_eq!(again.get_index(), i);
    }
}

#[test]
fn canvas_coords() {
    let origin = HexIndex::from_index(0).unwrap();
    assert_eq!(origin.get_canvas_coords(), (512, 0));
    let middle = HexIndex::from_coords(3, 4).unwrap();
    assert_eq!(middle.get_canvas_coords(), (759, 772));
    assert_eq!(HexIndex::from_canvas_coords((764, 937)), Some(HexIndex::from_index(29).unwrap()));
    assert_eq!(HexIndex::from_canvas_coords((-600, -600)), None);
}
