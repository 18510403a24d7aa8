//! The player marker and the discrete input events that move it or
//! fire a projectile.

use vstd::prelude::*;

use crate::color::red;
use crate::entity::{Entity, CELL_LIMIT, POS_SCALE};
use crate::grid::{cell_present, GridLayout};
use crate::sim::{SimState, FIRE_SPEED};

verus! {

/// A single-step directional move.
#[derive(Clone, Copy, Debug, PartialEq, Eq, Structural)]
pub enum Direction {
    Up,
    Down,
    Left,
    Right,
}

/// One discrete input event delivered between ticks.
#[derive(Clone, Copy, Debug, PartialEq, Eq, Structural)]
pub enum Input {
    Move(Direction),
    Fire,
}

/// The player's cell, constrained by `move_player` to stay on a
/// present grid cell.
#[derive(Clone, Copy, Debug, PartialEq, Eq, Structural)]
pub struct Player {
    pub col: usize,
    pub row: usize,
}

/// The cell one step away in the given direction, saturating at the
/// coordinate range: (column, row).
pub open spec fn step_target(p: Player, d: Direction) -> (int, int) {
    match d {
        Direction::Up => (p.col as int, if p.row == 0 { 0int } else { p.row - 1 }),
        Direction::Down => (
            p.col as int,
            if p.row == usize::MAX { p.row as int } else { p.row + 1 },
        ),
        Direction::Left => (if p.col == 0 { 0int } else { p.col - 1 }, p.row as int),
        Direction::Right => (
            if p.col == usize::MAX { p.col as int } else { p.col + 1 },
            p.row as int,
        ),
    }
}

/// The projectile fired from the player's cell: it starts there and
/// moves rightward.
pub open spec fn fired_entity(p: Player) -> Entity {
    Entity {
        x: (p.col * POS_SCALE) as i64,
        y: (p.row * POS_SCALE) as i64,
        dx: FIRE_SPEED,
        dy: 0,
        color: red(),
    }
}

/// Move the player one cell in the given direction, rejecting any move
/// that would leave the grid or land on an absent cell: a rejected move
/// leaves the player in place.
pub fn move_player(layout: &GridLayout, p: Player, d: Direction) -> (q: Player)
    ensures
        ({
            let (tc, tr) = step_target(p, d);
            if cell_present(layout.table(), tr, tc) {
                q.col == tc && q.row == tr
            } else {
                q == p
            }
        }),
{
    let mut col = p.col;
    let mut row = p.row;
    match d {
        Direction::Up => {
            if row > 0 {
                row = row - 1;
            }
        },
        Direction::Down => {
            if row < usize::MAX {
                row = row + 1;
            }
        },
        Direction::Left => {
            if col > 0 {
                col = col - 1;
            }
        },
        Direction::Right => {
            if col < usize::MAX {
                col = col + 1;
            }
        },
    }
    match layout.resolve(row, col) {
        Some(_) => Player { col, row },
        None => p,
    }
}

/// Build the projectile fired from the player's cell.
pub fn fire(p: Player) -> (e: Entity)
    requires
        p.col <= CELL_LIMIT,
        p.row <= CELL_LIMIT,
    ensures
        e == fired_entity(p),
        e.wf(),
{
    Entity {
        x: (p.col as i64) * POS_SCALE,
        y: (p.row as i64) * POS_SCALE,
        dx: FIRE_SPEED,
        dy: 0,
        color: crate::color::Rgb { r: 0xFF, g: 0x00, b: 0x00 },
    }
}

/// Apply one input event: a directional event moves the player (or is
/// rejected), and a fire event adds a projectile at the player's cell.
pub fn apply_input(sim: &mut SimState, layout: &GridLayout, player: &mut Player, ev: Input)
    requires
        old(sim).wf(),
        old(player).col <= CELL_LIMIT,
        old(player).row <= CELL_LIMIT,
    ensures
        final(sim).wf(),
        ({
            match ev {
                Input::Move(d) => {
                    let (tc, tr) = step_target(*old(player), d);
                    &&& *final(sim) == *old(sim)
                    &&& if cell_present(layout.table(), tr, tc) {
                        final(player).col == tc && final(player).row == tr
                    } else {
                        *final(player) == *old(player)
                    }
                },
                Input::Fire => {
                    &&& *final(player) == *old(player)
                    &&& final(sim).entities@ == old(sim).entities@.push(
                        fired_entity(*old(player)),
                    )
                    &&& final(sim).explosions@ == old(sim).explosions@
                    &&& final(sim).spawn_elapsed == old(sim).spawn_elapsed
                },
            }
        }),
{
    match ev {
        Input::Move(d) => {
            *player = move_player(layout, *player, d);
        },
        Input::Fire => {
            let e = fire(*player);
            sim.entities.push(e);
        },
    }
}

} // verus!
