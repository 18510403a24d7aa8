use launch_leds::grid::{ConfigError, GridLayout};

fn small_layout() -> GridLayout {
    GridLayout::new(vec![vec![Some(0), None, Some(1)]]).unwrap()
}

#[test]
fn resolve_returns_the_table_entries() {
    let g = small_layout();
    assert_eq!(g.resolve(0, 0), Some(0));
    assert_eq!(g.resolve(0, 1), None);
    assert_eq!(g.resolve(0, 2), Some(1));
}

#[test]
fn resolve_is_deterministic() {
    let g = small_layout();
    for _ in 0..3 {
        assert_eq!(g.resolve(0, 0), Some(0));
        assert_eq!(g.resolve(0, 2), Some(1));
    }
}

#[test]
fn resolve_out_of_bounds_is_absent() {
    let g = small_layout();
    assert_eq!(g.resolve(1, 0), None);
    assert_eq!(g.resolve(0, 3), None);
}

#[test]
fn no_two_positions_share_an_index() {
    let g = GridLayout::new(vec![vec![Some(4), Some(7)], vec![Some(2), None]]).unwrap();
    let mut seen = Vec::new();
    for r in 0..2 {
        for c in 0..2 {
            if let Some(i) = g.resolve(r, c) {
                assert!(!seen.contains(&i));
                seen.push(i);
            }
        }
    }
}

#[test]
fn duplicate_index_is_rejected() {
    let r = GridLayout::new(vec![vec![Some(3), None], vec![None, Some(3)]]);
    assert_eq!(r.err(), Some(ConfigError::DuplicateIndex));
}

#[test]
fn duplicate_in_one_row_is_rejected() {
    let r = GridLayout::new(vec![vec![Some(9), Some(9)]]);
    assert_eq!(r.err(), Some(ConfigError::DuplicateIndex));
}

#[test]
fn dimensions_give_rows_and_widest_row() {
    let g = GridLayout::new(vec![vec![Some(0), Some(1), Some(2)], vec![Some(3)]]).unwrap();
    assert_eq!(g.dimensions(), (2, 3));
}

#[test]
fn empty_layout_has_empty_dimensions() {
    let g = GridLayout::new(Vec::new()).unwrap();
    assert_eq!(g.dimensions(), (0, 0));
}
