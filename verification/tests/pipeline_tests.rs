use launch_leds::color::Rgb;
use launch_leds::entity::{Entity, POS_SCALE};
use launch_leds::grid::GridLayout;
use launch_leds::led::FakeSink;
use launch_leds::player::Player;
use launch_leds::render::LedGrid;
use launch_leds::sim::SimState;

#[test]
fn entity_leaving_the_grid_never_reaches_the_hardware() {
    // A full tick: the entity crosses the left edge during the update,
    // is removed before rendering, and the sync pass writes only the
    // grid's own physical indices.
    let layout = GridLayout::new(vec![vec![Some(3)], vec![Some(4)], vec![Some(5)]]).unwrap();
    let (rows, max_col) = layout.dimensions();
    let mut grid = LedGrid::from_layout(&layout);
    let mut sim = SimState::new();
    sim.entities.push(Entity {
        x: (max_col as i64 - 1) * POS_SCALE,
        y: POS_SCALE,
        dx: -2000,
        dy: 0,
        color: Rgb { r: 0, g: 0, b: 255 },
    });

    // Two full time units: x falls from 0 to -4 cells.
    sim.step(2000, max_col as i64, rows);
    let leftover: Vec<&Entity> = sim.entities.iter().filter(|e| e.dx == -2000).collect();
    assert_eq!(leftover.len(), 0);

    let banner = vec![vec![false], vec![false], vec![false]];
    let player = Player { col: 0, row: 0 };
    grid.render(&banner, &sim.entities, &sim.explosions, player);
    let mut sink = FakeSink::new();
    grid.sync(&mut sink);
    assert_eq!(sink.recorded().len(), 3);
    for w in sink.recorded() {
        assert!((3..=5).contains(&w.index));
    }
}

#[test]
fn collision_explosion_shows_up_on_the_grid() {
    let layout = GridLayout::new(vec![vec![Some(0), Some(1), Some(2)]]).unwrap();
    let mut grid = LedGrid::from_layout(&layout);
    let mut sim = SimState::new();
    let blue = Rgb { r: 0, g: 0, b: 255 };
    sim.entities.push(Entity { x: POS_SCALE, y: 0, dx: 0, dy: 0, color: blue });
    sim.entities.push(Entity { x: POS_SCALE + 1, y: 0, dx: 0, dy: 0, color: blue });
    sim.step(0, 3, 3);
    assert_eq!(sim.explosions.len(), 1);

    let banner = vec![vec![false, false, false]];
    let player = Player { col: 9, row: 9 };
    grid.render(&banner, &sim.entities, &sim.explosions, player);
    // Age zero: orange center with yellow arms.
    assert_eq!(grid.cells[0][0].unwrap().color, Rgb { r: 255, g: 255, b: 0 });
    assert_eq!(grid.cells[0][1].unwrap().color, Rgb { r: 255, g: 127, b: 0 });
    assert_eq!(grid.cells[0][2].unwrap().color, Rgb { r: 255, g: 255, b: 0 });
}
