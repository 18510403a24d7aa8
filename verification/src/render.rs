//! The compositor and the grid-wide hardware synchronization pass.
//!
//! Each tick the compositor re-derives the desired color of every
//! present cell from scratch: background banner first, then entities,
//! then explosion overlays, then the player marker, later layers
//! overwriting earlier ones. The synchronization pass then reconciles
//! every present cell with the hardware in row-major order.

use vstd::prelude::*;

use crate::color::{black, green, white, Rgb};
use crate::entity::{cell_of, Entity, CELL_LIMIT};
use crate::explosion::{explosion_pattern, pattern_at, Explosion};
use crate::grid::GridLayout;
use crate::led::{Led, LedSink, LedWrite};
use crate::player::Player;

verus! {

/// The background of a cell: white where the banner mask is lit, black
/// elsewhere.
pub open spec fn background_color(lit: bool) -> Rgb {
    if lit {
        white()
    } else {
        black()
    }
}

/// The color after painting every entity over `base`: the last entity
/// whose pixel cell is (`row`, `col`) wins.
pub open spec fn entity_overlay(s: Seq<Entity>, row: int, col: int, base: Rgb) -> Rgb
    decreases s.len(),
{
    if s.len() == 0 {
        base
    } else {
        let e = s.last();
        if cell_of(e.x as int) == col && cell_of(e.y as int) == row {
            e.color
        } else {
            entity_overlay(s.drop_last(), row, col, base)
        }
    }
}

/// The color after painting every explosion pattern over `base`: the
/// last explosion whose pattern covers (`row`, `col`) wins.
pub open spec fn explosion_overlay(s: Seq<Explosion>, row: int, col: int, base: Rgb) -> Rgb
    decreases s.len(),
{
    if s.len() == 0 {
        base
    } else {
        let e = s.last();
        match explosion_pattern(e.age as int, row - e.y, col - e.x) {
            Some(c) => c,
            None => explosion_overlay(s.drop_last(), row, col, base),
        }
    }
}

/// The desired color of one cell: banner background, then entities,
/// then explosions, and the player marker over everything.
pub open spec fn composed_color(
    banner: Seq<Seq<bool>>,
    entities: Seq<Entity>,
    explosions: Seq<Explosion>,
    player: Player,
    row: int,
    col: int,
) -> Rgb {
    if player.row == row && player.col == col {
        green()
    } else {
        explosion_overlay(
            explosions,
            row,
            col,
            entity_overlay(entities, row, col, background_color(banner[row][col])),
        )
    }
}

/// Compute the desired color of the cell (`row`, `col`).
#[verifier::loop_isolation(false)]
pub fn desired_color(
    banner: &Vec<Vec<bool>>,
    entities: &Vec<Entity>,
    explosions: &Vec<Explosion>,
    player: Player,
    row: usize,
    col: usize,
) -> (c: Rgb)
    requires
        row < banner@.len(),
        col < banner@[row as int]@.len(),
        row <= CELL_LIMIT,
        col <= CELL_LIMIT,
        forall|k: int| 0 <= k < entities@.len() ==> (#[trigger] entities@[k]).wf(),
        forall|k: int| 0 <= k < explosions@.len() ==> (#[trigger] explosions@[k]).wf(),
    ensures
        c == composed_color(
            banner@.map_values(|r: Vec<bool>| r@),
            entities@,
            explosions@,
            player,
            row as int,
            col as int,
        ),
{
    if player.row == row && player.col == col {
        return Rgb { r: 0x00, g: 0xFF, b: 0x00 };
    }
    let ri: i64 = row as i64;
    let ci: i64 = col as i64;
    let mut acc: Rgb = if banner[row][col] {
        Rgb { r: 0xFF, g: 0xFF, b: 0xFF }
    } else {
        Rgb { r: 0x00, g: 0x00, b: 0x00 }
    };
    let ghost base = acc;
    let mut k: usize = 0;
    while k < entities.len()
        invariant
            k <= entities@.len(),
            acc == entity_overlay(entities@.take(k as int), row as int, col as int, base),
        decreases entities@.len() - k,
    {
        let e = entities[k];
        let p = e.pixel_position();
        proof {
            assert(entities@.take(k + 1).drop_last() =~= entities@.take(k as int));
            assert(entities@.take(k + 1).last() == e);
        }
        if p.0 == ci && p.1 == ri {
            acc = e.color;
        }
        k = k + 1;
    }
    proof {
        assert(entities@.take(entities@.len() as int) =~= entities@);
    }
    let ghost after_entities = acc;
    let mut k: usize = 0;
    while k < explosions.len()
        invariant
            k <= explosions@.len(),
            acc == explosion_overlay(
                explosions@.take(k as int),
                row as int,
                col as int,
                after_entities,
            ),
        decreases explosions@.len() - k,
    {
        let e = explosions[k];
        proof {
            assert(explosions@.take(k + 1).drop_last() =~= explosions@.take(k as int));
            assert(explosions@.take(k + 1).last() == e);
        }
        match pattern_at(e.age, ri - e.y, ci - e.x) {
            Some(c) => {
                acc = c;
            },
            None => {},
        }
        k = k + 1;
    }
    proof {
        assert(explosions@.take(explosions@.len() as int) =~= explosions@);
    }
    acc
}

/// An entity whose pixel column lies off the grid paints no cell of a
/// grid column: the composed color of every such cell is as if the
/// entity were not in the list.
pub proof fn lemma_offgrid_entity_paints_nothing(
    s: Seq<Entity>,
    e: Entity,
    max_col: int,
    row: int,
    col: int,
    base: Rgb,
)
    requires
        !(0 <= cell_of(e.x as int) < max_col),
        0 <= col < max_col,
    ensures
        entity_overlay(s.push(e), row, col, base) == entity_overlay(s, row, col, base),
{
    assert(s.push(e).last() == e);
    assert(s.push(e).drop_last() =~= s);
}

/// The grid-shaped collection of LED cells: one `Led` per present
/// position, `None` per absent one.
pub struct LedGrid {
    pub cells: Vec<Vec<Option<Led>>>,
}

/// The starting cell for one layout position: black and unconfirmed
/// for a present LED, absent otherwise.
pub open spec fn init_cell(o: Option<u8>) -> Option<Led> {
    match o {
        Some(i) => Some(Led { i, color: black(), sync_color: None }),
        None => None,
    }
}

/// A present cell repainted with a desired color; an absent cell stays
/// absent.
pub open spec fn repaint(cell: Option<Led>, color: Rgb) -> Option<Led> {
    match cell {
        Some(l) => Some(Led { color, ..l }),
        None => None,
    }
}

/// The writes one cell contributes to a synchronization pass.
pub open spec fn write_of(cell: Option<Led>) -> Seq<LedWrite> {
    match cell {
        Some(l) => if l.needs_write() {
            seq![LedWrite { index: l.i, color: l.color }]
        } else {
            Seq::empty()
        },
        None => Seq::empty(),
    }
}

/// The writes one row contributes, in column order.
pub open spec fn row_writes(row: Seq<Option<Led>>) -> Seq<LedWrite>
    decreases row.len(),
{
    if row.len() == 0 {
        Seq::empty()
    } else {
        row_writes(row.drop_last()) + write_of(row.last())
    }
}

/// The writes a whole frame issues, in row-major order: one write for
/// every present cell whose desired color differs from its confirmed
/// color, and none for any other cell.
pub open spec fn frame_writes(g: Seq<Seq<Option<Led>>>) -> Seq<LedWrite>
    decreases g.len(),
{
    if g.len() == 0 {
        Seq::empty()
    } else {
        frame_writes(g.drop_last()) + row_writes(g.last())
    }
}

/// The number of writes a pass over `g` issues before reaching
/// (`r`, `c`) in row-major order.
pub open spec fn writes_before(g: Seq<Seq<Option<Led>>>, r: int, c: int) -> int {
    frame_writes(g.take(r)).len() + row_writes(g[r].take(c)).len() as int
}

/// The cell (`r`, `c`) after a pass over `g` whose writes the transport
/// answered with `rs`, one answer per issued write in order: a cell
/// needing a write ends confirmed exactly when its own write was
/// accepted; every other cell is untouched.
pub open spec fn cell_after_sync(
    g: Seq<Seq<Option<Led>>>,
    rs: Seq<bool>,
    r: int,
    c: int,
) -> Option<Led> {
    match g[r][c] {
        Option::Some(a) => if a.needs_write() && rs[writes_before(g, r, c)] {
            Option::Some(a.confirmed())
        } else {
            Option::Some(a)
        },
        Option::None => Option::None,
    }
}

proof fn lemma_row_write_from_cells(row: Seq<Option<Led>>, j: int)
    requires
        0 <= j < row_writes(row).len(),
    ensures
        exists|c: int|
            {
                &&& 0 <= c < row.len()
                &&& (#[trigger] row[c]) matches Some(l) && l.needs_write() && row_writes(row)[j]
                    == (LedWrite { index: l.i, color: l.color })
            },
    decreases row.len(),
{
    let sub = row_writes(row.drop_last());
    if j < sub.len() {
        lemma_row_write_from_cells(row.drop_last(), j);
        let c = choose|c: int|
            {
                &&& 0 <= c < row.drop_last().len()
                &&& (#[trigger] row.drop_last()[c]) matches Some(l) && l.needs_write()
                    && row_writes(row.drop_last())[j] == (LedWrite { index: l.i, color: l.color })
            };
        assert(row[c] == row.drop_last()[c]);
        assert(row_writes(row)[j] == sub[j]);
    } else {
        let c = row.len() - 1;
        assert(row.last() == row[c]);
        assert(row[c] matches Some(l) && l.needs_write() && row_writes(row)[j] == (LedWrite {
            index: l.i,
            color: l.color,
        }));
    }
}

/// Every write a frame issues names the physical index and desired
/// color of a present cell that needed the write: a pass can never
/// address an LED outside the grid's own cells.
pub proof fn lemma_frame_write_from_cells(g: Seq<Seq<Option<Led>>>, k: int)
    requires
        0 <= k < frame_writes(g).len(),
    ensures
        exists|r: int, c: int|
            {
                &&& 0 <= r < g.len()
                &&& 0 <= c < g[r].len()
                &&& (#[trigger] g[r][c]) matches Some(l) && l.needs_write() && frame_writes(g)[k]
                    == (LedWrite { index: l.i, color: l.color })
            },
    decreases g.len(),
{
    let sub = frame_writes(g.drop_last());
    if k < sub.len() {
        lemma_frame_write_from_cells(g.drop_last(), k);
        let (r, c) = choose|r: int, c: int|
            {
                &&& 0 <= r < g.drop_last().len()
                &&& 0 <= c < g.drop_last()[r].len()
                &&& (#[trigger] g.drop_last()[r][c]) matches Some(l) && l.needs_write()
                    && frame_writes(g.drop_last())[k] == (LedWrite { index: l.i, color: l.color })
            };
        assert(g[r] == g.drop_last()[r]);
        assert(frame_writes(g)[k] == sub[k]);
    } else {
        let r = g.len() - 1;
        lemma_row_write_from_cells(g.last(), k - sub.len());
        let c = choose|c: int|
            {
                &&& 0 <= c < g.last().len()
                &&& (#[trigger] g.last()[c]) matches Some(l) && l.needs_write() && row_writes(
                    g.last(),
                )[k - sub.len()] == (LedWrite { index: l.i, color: l.color })
            };
        assert(g.last() == g[r]);
        assert(frame_writes(g)[k] == row_writes(g.last())[k - sub.len()]);
    }
}

/// After a pass all of whose writes the transport accepted, every
/// present cell has its desired color confirmed; by
/// `lemma_confirmed_frame_writes_nothing`, an identical next pass then
/// issues no write at all: over a run of identical frames with a
/// transport that accepts every write, each cell is written exactly
/// once, on the first pass.
pub proof fn lemma_accepted_writes_confirm(g: Seq<Seq<Option<Led>>>, rs: Seq<bool>)
    requires
        forall|k: int| 0 <= k < rs.len() ==> rs[k],
        forall|r: int, c: int|
            0 <= r < g.len() && 0 <= c < g[r].len() && (match g[r][c] {
                Option::Some(l) => l.needs_write(),
                Option::None => false,
            }) ==> 0 <= #[trigger] writes_before(g, r, c) < rs.len(),
    ensures
        forall|r: int, c: int|
            0 <= r < g.len() && 0 <= c < g[r].len() ==> match #[trigger] cell_after_sync(
                g,
                rs,
                r,
                c,
            ) {
                Option::Some(l) => !l.needs_write(),
                Option::None => true,
            },
{
}

proof fn lemma_row_writes_empty(row: Seq<Option<Led>>)
    requires
        forall|c: int|
            0 <= c < row.len() ==> match #[trigger] row[c] {
                Option::Some(l) => !l.needs_write(),
                Option::None => true,
            },
    ensures
        row_writes(row) == Seq::<LedWrite>::empty(),
    decreases row.len(),
{
    if row.len() == 0 {
    } else {
        assert forall|c: int|
            0 <= c < row.drop_last().len() implies match #[trigger] row.drop_last()[c] {
            Option::Some(l) => !l.needs_write(),
            Option::None => true,
        } by {
            assert(row.drop_last()[c] == row[c]);
        }
        lemma_row_writes_empty(row.drop_last());
        assert(row_writes(row) =~= Seq::<LedWrite>::empty());
    }
}

/// A frame whose every present cell already has its desired color
/// confirmed issues no hardware write at all: over a run of identical
/// frames, the first pass writes each cell once and every later pass
/// writes nothing.
pub proof fn lemma_confirmed_frame_writes_nothing(g: Seq<Seq<Option<Led>>>)
    requires
        forall|r: int, c: int|
            0 <= r < g.len() && 0 <= c < g[r].len() ==> match #[trigger] g[r][c] {
                Option::Some(l) => !l.needs_write(),
                Option::None => true,
            },
    ensures
        frame_writes(g) == Seq::<LedWrite>::empty(),
    decreases g.len(),
{
    if g.len() == 0 {
    } else {
        assert forall|r: int, c: int|
            0 <= r < g.drop_last().len() && 0 <= c < g.drop_last()[r].len() implies match #[trigger] g.drop_last()[r][c] {
            Option::Some(l) => !l.needs_write(),
            Option::None => true,
        } by {
            assert(g.drop_last()[r] == g[r]);
        }
        lemma_confirmed_frame_writes_nothing(g.drop_last());
        assert(g.last() == g[g.len() - 1]);
        lemma_row_writes_empty(g.last());
        assert(frame_writes(g) =~= Seq::<LedWrite>::empty());
    }
}

impl LedGrid {
    /// The grid as a sequence of rows of optional cells.
    pub open spec fn grid(&self) -> Seq<Seq<Option<Led>>> {
        self.cells@.map_values(|r: Vec<Option<Led>>| r@)
    }

    /// Build the cell grid for a layout: every present position gets a
    /// black, unconfirmed LED cell.
    #[verifier::loop_isolation(false)]
    pub fn from_layout(layout: &GridLayout) -> (g: LedGrid)
        ensures
            g.grid().len() == layout.table().len(),
            forall|r: int|
                0 <= r < g.grid().len() ==> #[trigger] g.grid()[r].len()
                    == layout.table()[r].len(),
            forall|r: int, c: int|
                0 <= r < g.grid().len() && 0 <= c < g.grid()[r].len() ==> #[trigger] g.grid()[r][c]
                    == init_cell(layout.table()[r][c]),
    {
        let nrows = layout.row_count();
        let mut cells: Vec<Vec<Option<Led>>> = Vec::new();
        let mut r: usize = 0;
        while r < nrows
            invariant
                r <= nrows,
                cells@.len() == r,
                forall|a: int|
                    0 <= a < r ==> #[trigger] cells@[a]@.len() == layout.table()[a].len(),
                forall|a: int, c: int|
                    0 <= a < r && 0 <= c < cells@[a]@.len() ==> #[trigger] cells@[a]@[c]
                        == init_cell(layout.table()[a][c]),
            decreases nrows - r,
        {
            let ncols = layout.row_len(r);
            let mut row: Vec<Option<Led>> = Vec::new();
            let mut c: usize = 0;
            while c < ncols
                invariant
                    c <= ncols,
                    r < nrows,
                    row@.len() == c,
                    forall|b: int|
                        0 <= b < c ==> #[trigger] row@[b] == init_cell(layout.table()[r as int][b]),
                decreases ncols - c,
            {
                match layout.resolve(r, c) {
                    Some(i) => row.push(Some(Led { i, color: Rgb { r: 0, g: 0, b: 0 }, sync_color: None })),
                    None => row.push(None),
                }
                c = c + 1;
            }
            cells.push(row);
            r = r + 1;
        }
        LedGrid { cells }
    }

    /// Recompute the desired color of every present cell from the
    /// banner, the entities, the explosions and the player marker.
    #[verifier::loop_isolation(false)]
    pub fn render(
        &mut self,
        banner: &Vec<Vec<bool>>,
        entities: &Vec<Entity>,
        explosions: &Vec<Explosion>,
        player: Player,
    )
        requires
            banner@.len() == old(self).grid().len(),
            forall|r: int|
                0 <= r < banner@.len() ==> #[trigger] banner@[r]@.len()
                    == old(self).grid()[r].len(),
            old(self).grid().len() <= CELL_LIMIT,
            forall|r: int|
                0 <= r < old(self).grid().len() ==> #[trigger] old(self).grid()[r].len()
                    <= CELL_LIMIT,
            forall|k: int| 0 <= k < entities@.len() ==> (#[trigger] entities@[k]).wf(),
            forall|k: int| 0 <= k < explosions@.len() ==> (#[trigger] explosions@[k]).wf(),
        ensures
            final(self).grid().len() == old(self).grid().len(),
            forall|r: int|
                0 <= r < final(self).grid().len() ==> #[trigger] final(self).grid()[r].len()
                    == old(self).grid()[r].len(),
            forall|r: int, c: int|
                0 <= r < final(self).grid().len() && 0 <= c < final(self).grid()[r].len()
                    ==> #[trigger] final(self).grid()[r][c] == repaint(
                    old(self).grid()[r][c],
                    composed_color(
                        banner@.map_values(|x: Vec<bool>| x@),
                        entities@,
                        explosions@,
                        player,
                        r,
                        c,
                    ),
                ),
    {
        let ghost mask = banner@.map_values(|x: Vec<bool>| x@);
        let nrows = self.cells.len();
        let mut r: usize = 0;
        while r < nrows
            invariant
                r <= nrows,
                self.grid().len() == nrows,
                forall|a: int|
                    0 <= a < nrows ==> #[trigger] self.grid()[a].len()
                        == old(self).grid()[a].len(),
                forall|a: int, c: int|
                    r <= a < nrows && 0 <= c < self.grid()[a].len() ==> #[trigger] self.grid()[a][c]
                        == old(self).grid()[a][c],
                forall|a: int, c: int|
                    0 <= a < r && 0 <= c < self.grid()[a].len() ==> #[trigger] self.grid()[a][c]
                        == repaint(
                        old(self).grid()[a][c],
                        composed_color(mask, entities@, explosions@, player, a, c),
                    ),
            decreases nrows - r,
        {
            let ncols = self.cells[r].len();
            let mut c: usize = 0;
            while c < ncols
                invariant
                    c <= ncols,
                    r < nrows,
                    self.grid().len() == nrows,
                    ncols == self.grid()[r as int].len(),
                    forall|a: int|
                        0 <= a < nrows ==> #[trigger] self.grid()[a].len()
                            == old(self).grid()[a].len(),
                    forall|a: int, b: int|
                        r < a < nrows && 0 <= b < self.grid()[a].len() ==> #[trigger] self.grid()[a][b]
                            == old(self).grid()[a][b],
                    forall|b: int|
                        c <= b < ncols ==> #[trigger] self.grid()[r as int][b]
                            == old(self).grid()[r as int][b],
                    forall|b: int|
                        0 <= b < c ==> #[trigger] self.grid()[r as int][b] == repaint(
                            old(self).grid()[r as int][b],
                            composed_color(mask, entities@, explosions@, player, r as int, b),
                        ),
                    forall|a: int, b: int|
                        0 <= a < r && 0 <= b < self.grid()[a].len() ==> #[trigger] self.grid()[a][b]
                            == repaint(
                            old(self).grid()[a][b],
                            composed_color(mask, entities@, explosions@, player, a, b),
                        ),
                decreases ncols - c,
            {
                let color = desired_color(banner, entities, explosions, player, r, c);
                let cell = self.cells[r][c];
                let ghost gprev = self.grid();
                if let Some(mut led) = cell {
                    led.set_color(color.r, color.g, color.b);
                    let row_ref = &mut self.cells[r];
                    row_ref.set(c, Some(led));
                    proof {
                        assert forall|a: int| 0 <= a < nrows && a != r implies #[trigger] self.grid()[a]
                            == gprev[a] by {
                            assert(self.cells@[a]@ == gprev[a]);
                        }
                        assert(self.grid()[r as int] =~= gprev[r as int].update(
                            c as int,
                            Some(led),
                        ));
                    }
                }
                c = c + 1;
            }
            r = r + 1;
        }
    }

    /// Reconcile every present cell with the hardware, row-major: a
    /// write is issued exactly for the cells whose desired color
    /// differs from their confirmed color; a cell whose write the
    /// transport accepted ends confirmed, a failed write leaves the
    /// cell's confirmation unchanged without stopping the pass.
    #[verifier::loop_isolation(false)]
    pub fn sync<S: LedSink>(&mut self, sink: &mut S)
        ensures
            final(self).grid().len() == old(self).grid().len(),
            forall|r: int|
                0 <= r < final(self).grid().len() ==> #[trigger] final(self).grid()[r].len()
                    == old(self).grid()[r].len(),
            final(sink).writes() == old(sink).writes() + frame_writes(old(self).grid()),
            final(sink).results().len() == old(sink).results().len() + frame_writes(
                old(self).grid(),
            ).len(),
            forall|r: int, c: int|
                0 <= r < final(self).grid().len() && 0 <= c < final(self).grid()[r].len()
                    ==> #[trigger] final(self).grid()[r][c] == cell_after_sync(
                    old(self).grid(),
                    final(sink).results().skip(old(sink).results().len() as int),
                    r,
                    c,
                ),
            forall|r: int, c: int|
                0 <= r < final(self).grid().len() && 0 <= c < final(self).grid()[r].len()
                    && (match old(self).grid()[r][c] {
                    Option::Some(l) => l.needs_write(),
                    Option::None => false,
                }) ==> #[trigger] writes_before(old(self).grid(), r, c) < frame_writes(
                    old(self).grid(),
                ).len(),
    {
        let ghost g0 = old(self).grid();
        let ghost w0 = old(sink).writes();
        let ghost w0r = old(sink).results();
        let ghost mut rs_done: Seq<bool> = Seq::empty();
        let nrows = self.cells.len();
        let mut r: usize = 0;
        while r < nrows
            invariant
                r <= nrows,
                self.grid().len() == nrows,
                forall|a: int|
                    0 <= a < nrows ==> #[trigger] self.grid()[a].len() == g0[a].len(),
                forall|a: int, c: int|
                    r <= a < nrows && 0 <= c < self.grid()[a].len() ==> #[trigger] self.grid()[a][c]
                        == g0[a][c],
                sink.writes() == w0 + frame_writes(g0.take(r as int)),
                sink.results() == w0r + rs_done,
                rs_done.len() == frame_writes(g0.take(r as int)).len(),
                forall|a: int, c: int|
                    0 <= a < r && 0 <= c < self.grid()[a].len() ==> #[trigger] self.grid()[a][c]
                        == cell_after_sync(g0, rs_done, a, c),
                forall|a: int, c: int|
                    0 <= a < r && 0 <= c < self.grid()[a].len() && (match g0[a][c] {
                        Option::Some(l) => l.needs_write(),
                        Option::None => false,
                    }) ==> #[trigger] writes_before(g0, a, c) < rs_done.len(),
            decreases nrows - r,
        {
            let ncols = self.cells[r].len();
            let mut c: usize = 0;
            while c < ncols
                invariant
                    c <= ncols,
                    r < nrows,
                    self.grid().len() == nrows,
                    ncols == self.grid()[r as int].len(),
                    forall|a: int|
                        0 <= a < nrows ==> #[trigger] self.grid()[a].len() == g0[a].len(),
                    forall|a: int, b: int|
                        r < a < nrows && 0 <= b < self.grid()[a].len() ==> #[trigger] self.grid()[a][b]
                            == g0[a][b],
                    forall|b: int|
                        c <= b < ncols ==> #[trigger] self.grid()[r as int][b] == g0[r as int][b],
                    sink.writes() == w0 + frame_writes(g0.take(r as int)) + row_writes(
                        g0[r as int].take(c as int),
                    ),
                    sink.results() == w0r + rs_done,
                    rs_done.len() == frame_writes(g0.take(r as int)).len() + row_writes(
                        g0[r as int].take(c as int),
                    ).len(),
                    forall|b: int|
                        0 <= b < c ==> #[trigger] self.grid()[r as int][b] == cell_after_sync(
                            g0,
                            rs_done,
                            r as int,
                            b,
                        ),
                    forall|b: int|
                        0 <= b < c && (match g0[r as int][b] {
                            Option::Some(l) => l.needs_write(),
                            Option::None => false,
                        }) ==> #[trigger] writes_before(g0, r as int, b) < rs_done.len(),
                    forall|a: int, b: int|
                        0 <= a < r && 0 <= b < self.grid()[a].len() ==> #[trigger] self.grid()[a][b]
                            == cell_after_sync(g0, rs_done, a, b),
                    forall|a: int, b: int|
                        0 <= a < r && 0 <= b < self.grid()[a].len() && (match g0[a][b] {
                            Option::Some(l) => l.needs_write(),
                            Option::None => false,
                        }) ==> #[trigger] writes_before(g0, a, b) < rs_done.len(),
                decreases ncols - c,
            {
                proof {
                    assert(g0[r as int].take(c + 1).drop_last() =~= g0[r as int].take(c as int));
                    assert(g0[r as int].take(c + 1).last() == g0[r as int][c as int]);
                    assert(writes_before(g0, r as int, c as int) == rs_done.len());
                }
                let cell = self.cells[r][c];
                let ghost gprev = self.grid();
                let ghost rs_prev = rs_done;
                if let Some(mut led) = cell {
                    let out = led.sync(sink);
                    let row_ref = &mut self.cells[r];
                    row_ref.set(c, Some(led));
                    proof {
                        if g0[r as int][c as int] matches Some(l) && l.needs_write() {
                            rs_done = rs_done.push(out == crate::led::SyncOutcome::Written);
                        }
                        assert forall|a: int| 0 <= a < nrows && a != r implies #[trigger] self.grid()[a]
                            == gprev[a] by {
                            assert(self.cells@[a]@ == gprev[a]);
                        }
                        assert(self.grid()[r as int] =~= gprev[r as int].update(
                            c as int,
                            Some(led),
                        ));
                        assert(self.grid()[r as int][c as int] == cell_after_sync(
                            g0,
                            rs_done,
                            r as int,
                            c as int,
                        ));
                    }
                }
                proof {
                    assert(sink.writes() =~= w0 + frame_writes(g0.take(r as int)) + row_writes(
                        g0[r as int].take(c + 1),
                    ));
                    assert(sink.results() =~= w0r + rs_done);
                    assert forall|a: int, b: int|
                        0 <= a < nrows && 0 <= b < self.grid()[a].len() && ((a < r && rs_prev
                            != rs_done) || (a == r && b < c)) implies cell_after_sync(
                        g0,
                        rs_prev,
                        a,
                        b,
                    ) == cell_after_sync(g0, rs_done, a, b) by {
                        if (match g0[a][b] {
                            Option::Some(l) => l.needs_write(),
                            Option::None => false,
                        }) {
                            assert(rs_done[writes_before(g0, a, b)] == rs_prev[writes_before(
                                g0,
                                a,
                                b,
                            )]);
                        }
                    }
                }
                c = c + 1;
            }
            proof {
                assert(g0.take(r + 1).drop_last() =~= g0.take(r as int));
                assert(g0.take(r + 1).last() == g0[r as int]);
                assert(g0[r as int].take(ncols as int) =~= g0[r as int]);
                assert(sink.writes() =~= w0 + frame_writes(g0.take(r + 1)));
            }
            r = r + 1;
        }
        proof {
            assert(g0.take(nrows as int) =~= g0);
        }
    }
}

} // verus!
