use launch_leds::color::Rgb;
use launch_leds::entity::{floor_cell, Entity, POS_SCALE};

fn entity(x: i64, y: i64, dx: i64, dy: i64) -> Entity {
    Entity { x, y, dx, dy, color: Rgb { r: 0, g: 0, b: 255 } }
}

#[test]
fn zero_dt_leaves_position_unchanged() {
    let mut e = entity(5 * POS_SCALE + 123, -3 * POS_SCALE, -2000, 777);
    let before = e;
    e.update(0);
    assert_eq!(e.x, before.x);
    assert_eq!(e.y, before.y);
    assert_eq!(e.dx, before.dx);
    assert_eq!(e.dy, before.dy);
}

#[test]
fn update_moves_by_velocity_times_time() {
    // Two cells per unit leftward for half a unit: one cell left.
    let mut e = entity(5 * POS_SCALE, 2 * POS_SCALE, -2000, 0);
    e.update(500);
    assert_eq!(e.x, 4 * POS_SCALE);
    assert_eq!(e.y, 2 * POS_SCALE);
}

#[test]
fn pixel_position_floors_both_coordinates() {
    let e = entity(5 * POS_SCALE + 400_000, 2 * POS_SCALE, 0, 0);
    assert_eq!(e.pixel_position(), (5, 2));
}

#[test]
fn floor_cell_exact_values() {
    assert_eq!(floor_cell(0), 0);
    assert_eq!(floor_cell(999_999), 0);
    assert_eq!(floor_cell(1_000_000), 1);
    assert_eq!(floor_cell(-1), -1);
    assert_eq!(floor_cell(-1_000_000), -1);
    assert_eq!(floor_cell(-1_000_001), -2);
}
