use launch_leds::color::Rgb;
use launch_leds::entity::{Entity, POS_SCALE};
use launch_leds::explosion::{pattern_at, Explosion};
use launch_leds::grid::GridLayout;
use launch_leds::led::FakeSink;
use launch_leds::player::Player;
use launch_leds::render::LedGrid;

fn black() -> Rgb {
    Rgb { r: 0, g: 0, b: 0 }
}

fn white() -> Rgb {
    Rgb { r: 255, g: 255, b: 255 }
}

fn green() -> Rgb {
    Rgb { r: 0, g: 255, b: 0 }
}

fn red() -> Rgb {
    Rgb { r: 255, g: 0, b: 0 }
}

fn orange() -> Rgb {
    Rgb { r: 255, g: 127, b: 0 }
}

fn yellow() -> Rgb {
    Rgb { r: 255, g: 255, b: 0 }
}

fn cell_color(grid: &LedGrid, r: usize, c: usize) -> Rgb {
    grid.cells[r][c].unwrap().color
}

fn three_cells() -> (GridLayout, LedGrid) {
    let layout = GridLayout::new(vec![vec![Some(0), Some(1), Some(2)]]).unwrap();
    let grid = LedGrid::from_layout(&layout);
    (layout, grid)
}

#[test]
fn from_layout_mirrors_presence() {
    let layout = GridLayout::new(vec![vec![Some(5), None, Some(6)]]).unwrap();
    let grid = LedGrid::from_layout(&layout);
    assert_eq!(grid.cells.len(), 1);
    assert_eq!(grid.cells[0].len(), 3);
    assert!(grid.cells[0][1].is_none());
    let led = grid.cells[0][0].unwrap();
    assert_eq!(led.i, 5);
    assert_eq!(led.color, black());
    assert_eq!(led.sync_color, None);
    assert_eq!(grid.cells[0][2].unwrap().i, 6);
}

#[test]
fn background_follows_the_banner_mask() {
    let (_, mut grid) = three_cells();
    let banner = vec![vec![true, false, true]];
    grid.render(&banner, &Vec::new(), &Vec::new(), Player { col: 9, row: 9 });
    assert_eq!(cell_color(&grid, 0, 0), white());
    assert_eq!(cell_color(&grid, 0, 1), black());
    assert_eq!(cell_color(&grid, 0, 2), white());
}

#[test]
fn entity_paints_its_pixel_cell() {
    let (_, mut grid) = three_cells();
    let banner = vec![vec![false, false, false]];
    let e = Entity { x: 2 * POS_SCALE + 1, y: 0, dx: 0, dy: 0, color: red() };
    grid.render(&banner, &vec![e], &Vec::new(), Player { col: 9, row: 9 });
    assert_eq!(cell_color(&grid, 0, 0), black());
    assert_eq!(cell_color(&grid, 0, 2), red());
}

#[test]
fn later_entity_overwrites_earlier() {
    let (_, mut grid) = three_cells();
    let banner = vec![vec![false, false, false]];
    let a = Entity { x: POS_SCALE, y: 0, dx: 0, dy: 0, color: red() };
    let b = Entity { x: POS_SCALE, y: 0, dx: 0, dy: 0, color: white() };
    grid.render(&banner, &vec![a, b], &Vec::new(), Player { col: 9, row: 9 });
    assert_eq!(cell_color(&grid, 0, 1), white());
}

#[test]
fn young_explosion_paints_its_cross() {
    let (_, mut grid) = three_cells();
    let banner = vec![vec![false, false, false]];
    let boom = Explosion { x: 1, y: 0, age: 0 };
    grid.render(&banner, &Vec::new(), &vec![boom], Player { col: 9, row: 9 });
    assert_eq!(cell_color(&grid, 0, 0), yellow());
    assert_eq!(cell_color(&grid, 0, 1), orange());
    assert_eq!(cell_color(&grid, 0, 2), yellow());
}

#[test]
fn player_marker_overrides_everything() {
    let (_, mut grid) = three_cells();
    let banner = vec![vec![true, true, true]];
    let e = Entity { x: 0, y: 0, dx: 0, dy: 0, color: red() };
    grid.render(&banner, &vec![e], &Vec::new(), Player { col: 0, row: 0 });
    assert_eq!(cell_color(&grid, 0, 0), green());
}

#[test]
fn explosion_pattern_bands_exact_values() {
    // Youngest band: orange center, yellow edges, bare corners.
    assert_eq!(pattern_at(0, 0, 0), Some(orange()));
    assert_eq!(pattern_at(99, 0, 1), Some(yellow()));
    assert_eq!(pattern_at(0, 1, 1), None);
    // Second band: red center, orange edges, yellow corners.
    assert_eq!(pattern_at(100, 0, 0), Some(red()));
    assert_eq!(pattern_at(150, -1, 0), Some(orange()));
    assert_eq!(pattern_at(199, 1, -1), Some(yellow()));
    // Third band: hollow center, red edges, orange corners.
    assert_eq!(pattern_at(200, 0, 0), None);
    assert_eq!(pattern_at(250, 0, -1), Some(red()));
    assert_eq!(pattern_at(299, -1, -1), Some(orange()));
    // Fourth band: red corners only.
    assert_eq!(pattern_at(300, 0, 0), None);
    assert_eq!(pattern_at(350, 1, 0), None);
    assert_eq!(pattern_at(399, 1, 1), Some(red()));
    // Expired band and out-of-pattern offsets.
    assert_eq!(pattern_at(400, 0, 0), None);
    assert_eq!(pattern_at(0, 2, 0), None);
}

#[test]
fn sync_writes_every_cell_once_for_identical_frames() {
    let (_, mut grid) = three_cells();
    let banner = vec![vec![true, false, true]];
    grid.render(&banner, &Vec::new(), &Vec::new(), Player { col: 9, row: 9 });
    let mut sink = FakeSink::new();
    grid.sync(&mut sink);
    assert_eq!(sink.recorded().len(), 3);
    assert_eq!(sink.recorded()[0].index, 0);
    assert_eq!(sink.recorded()[0].color, white());
    assert_eq!(sink.recorded()[1].index, 1);
    assert_eq!(sink.recorded()[1].color, black());
    assert_eq!(sink.recorded()[2].index, 2);
    // The same frame again: nothing is written.
    grid.render(&banner, &Vec::new(), &Vec::new(), Player { col: 9, row: 9 });
    grid.sync(&mut sink);
    assert_eq!(sink.recorded().len(), 3);
}

#[test]
fn sync_skips_cells_whose_color_is_confirmed() {
    let (_, mut grid) = three_cells();
    let banner = vec![vec![false, true, false]];
    grid.render(&banner, &Vec::new(), &Vec::new(), Player { col: 9, row: 9 });
    let mut sink = FakeSink::new();
    grid.sync(&mut sink);
    assert_eq!(sink.recorded().len(), 3);
    // Change one cell only: exactly one further write.
    let banner2 = vec![vec![false, false, false]];
    grid.render(&banner2, &Vec::new(), &Vec::new(), Player { col: 9, row: 9 });
    grid.sync(&mut sink);
    assert_eq!(sink.recorded().len(), 4);
    assert_eq!(sink.recorded()[3].index, 1);
    assert_eq!(sink.recorded()[3].color, black());
}

#[test]
fn failed_writes_do_not_stop_the_pass_and_are_retried() {
    let (_, mut grid) = three_cells();
    let banner = vec![vec![true, true, true]];
    grid.render(&banner, &Vec::new(), &Vec::new(), Player { col: 9, row: 9 });
    let mut sink = FakeSink::failing();
    grid.sync(&mut sink);
    assert_eq!(sink.recorded().len(), 3);
    for c in 0..3 {
        assert_eq!(grid.cells[0][c].unwrap().sync_color, None);
    }
    // The transport recovers: the same pass writes all three again.
    sink.fail_all = false;
    grid.sync(&mut sink);
    assert_eq!(sink.recorded().len(), 6);
    for c in 0..3 {
        assert_eq!(grid.cells[0][c].unwrap().sync_color, Some(white()));
    }
}
