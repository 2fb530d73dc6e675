use engine::cells::{key_of_cell, CellMap, ColumnSet};
use engine::map::{adjacent_building, Bounds3d, BuildingId, ParkMap};

#[test]
fn a_cell_map_keeps_one_value_per_cell() {
    let mut m: CellMap<u32> = CellMap::new();
    assert!(m.is_empty());
    m.insert((1, -2, 0), 5);
    m.insert((1, -2, 0), 6);
    m.insert((i32::MIN, i32::MAX, -1), 7);

    assert_eq!(m.len(), 2);
    assert_eq!(m.get((1, -2, 0)), Some(&6));
    assert_eq!(m.get((i32::MIN, i32::MAX, -1)), Some(&7));
    assert_eq!(m.remove((1, -2, 0)), Some(6));
    assert_eq!(m.remove((1, -2, 0)), None);
    assert!(!m.contains((1, -2, 0)));

    let mut cells = m.cells();
    cells.sort();
    assert_eq!(cells, vec![(i32::MIN, i32::MAX, -1)]);
    m.clear();
    assert!(m.is_empty());
}

#[test]
fn distinct_cells_get_distinct_keys() {
    assert_ne!(key_of_cell((0, 0, 1)), key_of_cell((0, 1, 0)));
    assert_ne!(key_of_cell((-1, 0, 0)), key_of_cell((0, 0, 0)));
    assert_ne!(key_of_cell((i32::MAX, 0, 0)), key_of_cell((i32::MIN, 0, 0)));
}

#[test]
fn a_column_set_holds_each_column_once() {
    let mut s = ColumnSet::new();
    assert!(s.is_empty());
    s.insert((3, 4));
    s.insert((3, 4));
    assert!(s.contains((3, 4)));
    assert!(!s.contains((4, 3)));
    s.clear();
    assert!(s.is_empty());
}

#[test]
fn the_adjacent_building_is_looked_for_east_first() {
    let mut park_map = ParkMap::new("m".into(), Bounds3d::new(0, 5, 0, 5, 0, 0));
    assert!(adjacent_building(&park_map, (2, 2, 0)).is_none());
    park_map.set_building(
        2,
        3,
        0,
        BuildingId {
            building_id: "north".into(),
            template_id: "t".into(),
        },
    );
    park_map.set_building(
        3,
        2,
        0,
        BuildingId {
            building_id: "east".into(),
            template_id: "t".into(),
        },
    );

    assert_eq!(adjacent_building(&park_map, (2, 2, 0)).unwrap().building_id, "east");
    assert_eq!(adjacent_building(&park_map, (2, 4, 0)).unwrap().building_id, "north");
    assert!(adjacent_building(&park_map, (2, 2, 1)).is_none());
}
