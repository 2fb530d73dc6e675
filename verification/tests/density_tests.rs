use engine::cells::{CellMap, ColumnSet};
use engine::density::{
    add_visitor, local_density_at, remove_visitor, update_density_and_dirty_chunks, DensityMap,
};

fn check_does_nothing_when_cell_is_unchanged() {
    let mut density: DensityMap = CellMap::new();
    density.insert((0, 0, 0), vec!["a".into()]);
    let mut dirty_chunks = ColumnSet::new();

    update_density_and_dirty_chunks(
        &mut density,
        &mut dirty_chunks,
        &"a".to_string(),
        (0, 0, 0),
        (0, 0, 0),
    );

    assert_eq!(density.get((0, 0, 0)), Some(&vec!["a".to_string()]));
    assert!(dirty_chunks.is_empty());
}

#[test]
fn game_test_does_nothing_when_cell_is_unchanged() {
    check_does_nothing_when_cell_is_unchanged();
}

#[test]
fn steering_test_does_nothing_when_cell_is_unchanged() {
    check_does_nothing_when_cell_is_unchanged();
}

fn check_moves_visitor_to_new_bucket_when_cell_changes() {
    let mut density: DensityMap = CellMap::new();
    density.insert((0, 0, 0), vec!["a".into()]);
    let mut dirty_chunks = ColumnSet::new();

    update_density_and_dirty_chunks(
        &mut density,
        &mut dirty_chunks,
        &"a".to_string(),
        (0, 0, 0),
        (1, 0, 0),
    );

    assert_eq!(density.get((1, 0, 0)), Some(&vec!["a".to_string()]));
}

#[test]
fn game_test_moves_visitor_to_new_bucket_when_cell_changes() {
    check_moves_visitor_to_new_bucket_when_cell_changes();
}

#[test]
fn steering_test_moves_visitor_to_new_bucket_when_cell_changes() {
    check_moves_visitor_to_new_bucket_when_cell_changes();
}

fn check_removes_old_bucket_when_it_becomes_empty() {
    let mut density: DensityMap = CellMap::new();
    density.insert((0, 0, 0), vec!["a".into()]);
    let mut dirty_chunks = ColumnSet::new();

    update_density_and_dirty_chunks(
        &mut density,
        &mut dirty_chunks,
        &"a".to_string(),
        (0, 0, 0),
        (1, 0, 0),
    );

    assert!(!density.contains((0, 0, 0)));
}

#[test]
fn game_test_removes_old_bucket_when_it_becomes_empty() {
    check_removes_old_bucket_when_it_becomes_empty();
}

#[test]
fn steering_test_removes_old_bucket_when_it_becomes_empty() {
    check_removes_old_bucket_when_it_becomes_empty();
}

fn check_keeps_old_bucket_when_other_visitors_remain() {
    let mut density: DensityMap = CellMap::new();
    density.insert((0, 0, 0), vec!["a".into(), "b".into()]);
    let mut dirty_chunks = ColumnSet::new();

    update_density_and_dirty_chunks(
        &mut density,
        &mut dirty_chunks,
        &"a".to_string(),
        (0, 0, 0),
        (1, 0, 0),
    );

    assert_eq!(density.get((0, 0, 0)), Some(&vec!["b".to_string()]));
}

#[test]
fn game_test_keeps_old_bucket_when_other_visitors_remain() {
    check_keeps_old_bucket_when_other_visitors_remain();
}

#[test]
fn steering_test_keeps_old_bucket_when_other_visitors_remain() {
    check_keeps_old_bucket_when_other_visitors_remain();
}

fn check_marks_new_chunk_as_dirty_when_cell_changes() {
    let mut density: DensityMap = CellMap::new();
    density.insert((0, 0, 0), vec!["a".into()]);
    let mut dirty_chunks = ColumnSet::new();

    update_density_and_dirty_chunks(
        &mut density,
        &mut dirty_chunks,
        &"a".to_string(),
        (0, 0, 0),
        (1, 0, 0),
    );

    assert!(dirty_chunks.contains((1, 0)));
}

#[test]
fn game_test_marks_new_chunk_as_dirty_when_cell_changes() {
    check_marks_new_chunk_as_dirty_when_cell_changes();
}

#[test]
fn steering_test_marks_new_chunk_as_dirty_when_cell_changes() {
    check_marks_new_chunk_as_dirty_when_cell_changes();
}

#[test]
fn local_density_counts_the_visitors_on_a_cell() {
    let mut density: DensityMap = CellMap::new();
    assert_eq!(local_density_at(&density, (0, 0, 0)), 0);
    add_visitor(&mut density, (0, 0, 0), "a".to_string());
    add_visitor(&mut density, (0, 0, 0), "b".to_string());
    assert_eq!(local_density_at(&density, (0, 0, 0)), 2);
    remove_visitor(&mut density, (0, 0, 0), &"a".to_string());
    assert_eq!(local_density_at(&density, (0, 0, 0)), 1);
    remove_visitor(&mut density, (0, 0, 0), &"b".to_string());
    assert!(!density.contains((0, 0, 0)));
}

#[test]
fn moving_twice_and_back_leaves_one_entry() {
    let mut density: DensityMap = CellMap::new();
    density.insert((0, 0, 0), vec!["a".into()]);
    let mut dirty_chunks = ColumnSet::new();

    update_density_and_dirty_chunks(&mut density, &mut dirty_chunks, &"a".to_string(), (0, 0, 0), (1, 0, 0));
    update_density_and_dirty_chunks(&mut density, &mut dirty_chunks, &"a".to_string(), (1, 0, 0), (0, 0, 0));

    assert_eq!(density.get((0, 0, 0)), Some(&vec!["a".to_string()]));
    assert!(!density.contains((1, 0, 0)));
    assert!(dirty_chunks.contains((1, 0)));
    assert!(dirty_chunks.contains((0, 0)));
}
