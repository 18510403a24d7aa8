//! The logical LED grid: a sparse mapping from (row, column) positions
//! to physical LED indices.

use vstd::prelude::*;

verus! {

/// Startup failure: the layout table names one physical index twice.
#[derive(Clone, Copy, Debug, PartialEq, Eq, Structural)]
pub enum ConfigError {
    DuplicateIndex,
}

/// Whether (`r`, `c`) is a position of the table (present or absent).
pub open spec fn table_in_bounds(t: Seq<Seq<Option<u8>>>, r: int, c: int) -> bool {
    0 <= r < t.len() && 0 <= c < t[r].len()
}

/// No physical index appears at two distinct positions of the table.
pub open spec fn table_injective(t: Seq<Seq<Option<u8>>>) -> bool {
    forall|r1: int, c1: int, r2: int, c2: int|
        table_in_bounds(t, r1, c1) && table_in_bounds(t, r2, c2) && !(r1 == r2 && c1 == c2)
            && #[trigger] t[r1][c1] is Some && #[trigger] t[r2][c2] is Some ==> t[r1][c1]
            != t[r2][c2]
}

/// Whether (`r`, `c`) is a position of the table holding an LED.
pub open spec fn cell_present(t: Seq<Seq<Option<u8>>>, r: int, c: int) -> bool {
    table_in_bounds(t, r, c) && t[r][c] is Some
}

/// The widest row of the table.
pub open spec fn table_max_cols(t: Seq<Seq<Option<u8>>>) -> int
    decreases t.len(),
{
    if t.len() == 0 {
        0
    } else {
        let rest = table_max_cols(t.drop_last());
        if t.last().len() > rest {
            t.last().len() as int
        } else {
            rest
        }
    }
}

/// An immutable grid of rows of either a physical LED index or an
/// absent cell, with all present indices distinct.
pub struct GridLayout {
    rows: Vec<Vec<Option<u8>>>,
}

impl GridLayout {
    /// The layout as a sequence of rows of optional physical indices.
    pub closed spec fn table(&self) -> Seq<Seq<Option<u8>>> {
        self.rows@.map_values(|row: Vec<Option<u8>>| row@)
    }

    /// All present indices are distinct; established by `new` and never
    /// disturbed, since the layout is immutable.
    pub open spec fn wf(&self) -> bool {
        table_injective(self.table())
    }

    /// Build a layout from a literal table, rejecting any table that
    /// names one physical index at two positions.
    pub fn new(rows: Vec<Vec<Option<u8>>>) -> (r: Result<GridLayout, ConfigError>)
        ensures
            r is Ok <==> table_injective(rows@.map_values(|row: Vec<Option<u8>>| row@)),
            r matches Ok(g) ==> g.table() == rows@.map_values(|row: Vec<Option<u8>>| row@)
                && g.wf(),
            r is Err ==> r == Err::<GridLayout, ConfigError>(ConfigError::DuplicateIndex),
    {
        let ghost t = rows@.map_values(|row: Vec<Option<u8>>| row@);
        let mut seen: Vec<bool> = Vec::new();
        let mut k: usize = 0;
        while k < 256
            invariant
                seen@.len() == k,
                k <= 256,
                forall|v: int| 0 <= v < k ==> !seen@[v],
            decreases 256 - k,
        {
            seen.push(false);
            k = k + 1;
        }
        let mut i: usize = 0;
        while i < rows.len()
            invariant
                seen@.len() == 256,
                i <= rows.len(),
                t == rows@.map_values(|row: Vec<Option<u8>>| row@),
                forall|v: int|
                    0 <= v < 256 ==> (seen@[v] <==> exists|r: int, c: int|
                        table_in_bounds(t, r, c) && r < i && #[trigger] t[r][c] == Some(v as u8)),
                forall|r1: int, c1: int, r2: int, c2: int|
                    table_in_bounds(t, r1, c1) && table_in_bounds(t, r2, c2) && r1 < i && r2 < i
                        && !(r1 == r2 && c1 == c2) && #[trigger] t[r1][c1] is Some
                        && #[trigger] t[r2][c2] is Some ==> t[r1][c1] != t[r2][c2],
            decreases rows.len() - i,
        {
            let row_len = rows[i].len();
            let mut j: usize = 0;
            while j < row_len
                invariant
                    seen@.len() == 256,
                    i < rows.len(),
                    j <= row_len,
                    row_len == t[i as int].len(),
                    t == rows@.map_values(|row: Vec<Option<u8>>| row@),
                    forall|v: int|
                        0 <= v < 256 ==> (seen@[v] <==> exists|r: int, c: int|
                            table_in_bounds(t, r, c) && (r < i || (r == i && c < j))
                                && #[trigger] t[r][c] == Some(v as u8)),
                    forall|r1: int, c1: int, r2: int, c2: int|
                        table_in_bounds(t, r1, c1) && table_in_bounds(t, r2, c2) && (r1 < i || (r1
                            == i && c1 < j)) && (r2 < i || (r2 == i && c2 < j)) && !(r1 == r2 && c1
                            == c2) && #[trigger] t[r1][c1] is Some && #[trigger] t[r2][c2] is Some
                            ==> t[r1][c1] != t[r2][c2],
                decreases row_len - j,
            {
                let cell = rows[i][j];
                if let Some(v) = cell {
                    assert(t[i as int][j as int] == Some(v));
                    if seen[v as usize] {
                        proof {
                            let (r0, c0) = choose|r: int, c: int|
                                table_in_bounds(t, r, c) && (r < i || (r == i && c < j))
                                    && #[trigger] t[r][c] == Some(v);
                            assert(t[r0][c0] is Some && t[i as int][j as int] is Some && t[r0][c0]
                                == t[i as int][j as int]);
                            assert(!table_injective(t));
                        }
                        return Err(ConfigError::DuplicateIndex);
                    }
                    seen.set(v as usize, true);
                }
                j = j + 1;
            }
            i = i + 1;
        }
        proof {
            assert forall|r1: int, c1: int, r2: int, c2: int|
                table_in_bounds(t, r1, c1) && table_in_bounds(t, r2, c2) && !(r1 == r2 && c1 == c2)
                    && #[trigger] t[r1][c1] is Some && #[trigger] t[r2][c2] is Some implies t[r1][c1]
                != t[r2][c2] by {
                assert(r1 < i && r2 < i);
            }
        }
        Ok(GridLayout { rows })
    }

    /// The physical index at (`row`, `col`), or `None` for an absent
    /// cell or a position outside the table.
    pub fn resolve(&self, row: usize, col: usize) -> (r: Option<u8>)
        ensures
            r == if table_in_bounds(self.table(), row as int, col as int) {
                self.table()[row as int][col as int]
            } else {
                None::<u8>
            },
    {
        if row < self.rows.len() {
            let cols = &self.rows[row];
            if col < cols.len() {
                return cols[col];
            }
        }
        None
    }

    /// The number of rows of the table.
    pub fn row_count(&self) -> (n: usize)
        ensures
            n == self.table().len(),
    {
        self.rows.len()
    }

    /// The number of columns of one row of the table.
    pub fn row_len(&self, row: usize) -> (n: usize)
        requires
            row < self.table().len(),
        ensures
            n == self.table()[row as int].len(),
    {
        self.rows[row].len()
    }

    /// Row count and the widest row's column count.
    pub fn dimensions(&self) -> (d: (usize, usize))
        ensures
            d.0 == self.table().len(),
            d.1 == table_max_cols(self.table()),
    {
        let mut max_col: usize = 0;
        let mut i: usize = 0;
        while i < self.rows.len()
            invariant
                i <= self.rows.len(),
                max_col == table_max_cols(self.table().take(i as int)),
            decreases self.rows.len() - i,
        {
            let len = self.rows[i].len();
            proof {
                assert(self.table().take(i + 1).drop_last() =~= self.table().take(i as int));
                assert(self.table().take(i + 1).last() == self.table()[i as int]);
            }
            if len > max_col {
                max_col = len;
            }
            i = i + 1;
        }
        proof {
            assert(self.table().take(self.rows@.len() as int) =~= self.table());
        }
        (self.rows.len(), max_col)
    }
}

/// No two distinct positions of a well-formed layout resolve to the
/// same present physical index.
pub proof fn lemma_resolve_injective(g: &GridLayout, r1: int, c1: int, r2: int, c2: int)
    requires
        g.wf(),
        table_in_bounds(g.table(), r1, c1),
        table_in_bounds(g.table(), r2, c2),
        !(r1 == r2 && c1 == c2),
        g.table()[r1][c1] is Some,
        g.table()[r2][c2] is Some,
    ensures
        g.table()[r1][c1] != g.table()[r2][c2],
{
}

} // verus!
