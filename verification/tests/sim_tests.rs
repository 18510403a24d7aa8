use launch_leds::color::Rgb;
use launch_leds::entity::{Entity, POS_SCALE};
use launch_leds::explosion::Explosion;
use launch_leds::sim::{age_explosions, SimState, SPAWN_INTERVAL};

fn entity_at(x: i64, y: i64, dx: i64) -> Entity {
    Entity { x, y, dx, dy: 0, color: Rgb { r: 0, g: 0, b: 255 } }
}

fn boom(x: i64, y: i64, age: i64) -> Explosion {
    Explosion { x, y, age }
}

#[test]
fn entities_on_the_same_pixel_collide() {
    // Continuous coordinates differ but both floor to cell (5, 2).
    let mut sim = SimState::new();
    sim.entities.push(entity_at(5 * POS_SCALE, 2 * POS_SCALE, 0));
    sim.entities.push(entity_at(5 * POS_SCALE + 400_000, 2 * POS_SCALE, 0));
    sim.step(0, 15, 6);
    assert_eq!(sim.entities.len(), 0);
    assert_eq!(sim.explosions.len(), 1);
    assert_eq!(sim.explosions[0], boom(5, 2, 0));
}

#[test]
fn one_explosion_per_colliding_pair() {
    // Three entities on one cell: three pairs, three explosions.
    let mut sim = SimState::new();
    sim.entities.push(entity_at(4 * POS_SCALE, POS_SCALE, 0));
    sim.entities.push(entity_at(4 * POS_SCALE + 100_000, POS_SCALE, 0));
    sim.entities.push(entity_at(4 * POS_SCALE + 200_000, POS_SCALE, 0));
    sim.step(0, 15, 6);
    assert_eq!(sim.entities.len(), 0);
    assert_eq!(sim.explosions.len(), 3);
    for e in &sim.explosions {
        assert_eq!(*e, boom(4, 1, 0));
    }
}

#[test]
fn entities_on_different_pixels_do_not_collide() {
    let mut sim = SimState::new();
    sim.entities.push(entity_at(5 * POS_SCALE, 2 * POS_SCALE, 0));
    sim.entities.push(entity_at(6 * POS_SCALE, 2 * POS_SCALE, 0));
    sim.step(0, 15, 6);
    assert_eq!(sim.entities.len(), 2);
    assert_eq!(sim.explosions.len(), 0);
}

#[test]
fn explosion_at_lifetime_is_removed_and_younger_is_kept() {
    let aged = age_explosions(&vec![boom(0, 0, 1999), boom(1, 0, 2000), boom(2, 0, 2500)], 0);
    assert_eq!(aged, vec![boom(0, 0, 1999)]);
}

#[test]
fn explosion_aging_crosses_the_lifetime() {
    let aged = age_explosions(&vec![boom(0, 0, 100), boom(1, 0, 100)], 1899);
    assert_eq!(aged, vec![boom(0, 0, 1999), boom(1, 0, 1999)]);
    let gone = age_explosions(&vec![boom(0, 0, 100)], 1900);
    assert_eq!(gone.len(), 0);
}

#[test]
fn entity_at_max_column_is_removed_and_inside_is_kept() {
    let max_col: i64 = 15;
    let mut sim = SimState::new();
    // Pixel column exactly max_col: off the grid.
    sim.entities.push(entity_at(max_col * POS_SCALE, POS_SCALE, 0));
    // Pixel column max_col - 1: still on the grid.
    sim.entities.push(entity_at((max_col - 1) * POS_SCALE, 2 * POS_SCALE, 0));
    sim.step(0, max_col, 6);
    assert_eq!(sim.entities.len(), 1);
    assert_eq!(sim.entities[0].y, 2 * POS_SCALE);
}

#[test]
fn entity_crossing_the_left_edge_is_removed() {
    let max_col: i64 = 15;
    let mut sim = SimState::new();
    // Starts at the rightmost column, two cells per unit leftward;
    // 7.5 units later it sits a full cell left of the grid. The long
    // step also spawns a fresh hostile entity, so tell them apart by
    // color.
    let marker = Rgb { r: 9, g: 9, b: 9 };
    sim.entities.push(Entity {
        x: (max_col - 1) * POS_SCALE,
        y: 2 * POS_SCALE,
        dx: -2000,
        dy: 0,
        color: marker,
    });
    sim.step(7500, max_col, 6);
    let survivors: Vec<&Entity> = sim.entities.iter().filter(|e| e.color == marker).collect();
    assert_eq!(survivors.len(), 0);
}

#[test]
fn spawn_after_interval_adds_a_hostile_entity() {
    let max_col: i64 = 15;
    let mut sim = SimState::new();
    sim.spawn_elapsed = SPAWN_INTERVAL - 1;
    sim.step(2, max_col, 6);
    assert_eq!(sim.entities.len(), 1);
    assert_eq!(sim.spawn_elapsed, 0);
    let e = sim.entities[0];
    assert_eq!(e.x, (max_col - 1) * POS_SCALE);
    assert_eq!(e.dx, -2000);
    assert_eq!(e.dy, 0);
    assert_eq!(e.color, Rgb { r: 0, g: 0, b: 255 });
    // The spawn row is random but always an interior row.
    let row = e.y / POS_SCALE;
    assert!(e.y % POS_SCALE == 0);
    assert!((1..=4).contains(&row));
}

#[test]
fn no_spawn_before_interval() {
    let mut sim = SimState::new();
    sim.step(SPAWN_INTERVAL, 15, 6);
    assert_eq!(sim.entities.len(), 0);
    assert_eq!(sim.spawn_elapsed, SPAWN_INTERVAL);
}
