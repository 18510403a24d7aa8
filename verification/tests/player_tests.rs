use launch_leds::color::Rgb;
use launch_leds::entity::POS_SCALE;
use launch_leds::grid::GridLayout;
use launch_leds::player::{apply_input, move_player, Direction, Input, Player};
use launch_leds::sim::SimState;

fn gap_layout() -> GridLayout {
    // One row: present, absent, present.
    GridLayout::new(vec![vec![Some(0), None, Some(1)]]).unwrap()
}

#[test]
fn move_onto_an_absent_cell_is_rejected() {
    // From (0, 0) a step right lands on the absent middle cell; the
    // present cell two steps away is not adjacent, so the move is
    // rejected and the player stays in place.
    let layout = gap_layout();
    let p = Player { col: 0, row: 0 };
    let q = move_player(&layout, p, Direction::Right);
    assert_eq!(q, p);
}

#[test]
fn move_off_the_grid_is_rejected() {
    let layout = gap_layout();
    let p = Player { col: 0, row: 0 };
    assert_eq!(move_player(&layout, p, Direction::Down), p);
    assert_eq!(move_player(&layout, p, Direction::Up), p);
    assert_eq!(move_player(&layout, p, Direction::Left), p);
}

#[test]
fn move_onto_a_present_cell_succeeds() {
    let layout = GridLayout::new(vec![vec![Some(0), Some(1)]]).unwrap();
    let p = Player { col: 0, row: 0 };
    let q = move_player(&layout, p, Direction::Right);
    assert_eq!(q, Player { col: 1, row: 0 });
}

#[test]
fn apply_input_moves_or_rejects() {
    let layout = gap_layout();
    let mut sim = SimState::new();
    let mut player = Player { col: 0, row: 0 };
    apply_input(&mut sim, &layout, &mut player, Input::Move(Direction::Right));
    assert_eq!(player, Player { col: 0, row: 0 });
    assert_eq!(sim.entities.len(), 0);
}

#[test]
fn fire_adds_a_rightward_projectile_at_the_player() {
    let layout = gap_layout();
    let mut sim = SimState::new();
    let mut player = Player { col: 2, row: 0 };
    apply_input(&mut sim, &layout, &mut player, Input::Fire);
    assert_eq!(player, Player { col: 2, row: 0 });
    assert_eq!(sim.entities.len(), 1);
    let e = sim.entities[0];
    assert_eq!(e.x, 2 * POS_SCALE);
    assert_eq!(e.y, 0);
    assert_eq!(e.dx, 8000);
    assert_eq!(e.dy, 0);
    assert_eq!(e.color, Rgb { r: 255, g: 0, b: 0 });
}
