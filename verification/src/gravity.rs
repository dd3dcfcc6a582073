//! Removing paying symbols and letting the remaining cells fall.
use vstd::prelude::*;
use crate::payout::{contains_id, grid_view};
use crate::symbols::{GRID_COLS, GRID_ROWS, GameCell, fresh_cell, generate_random_symbol};

verus! {

/// The grid holds the play window: at least `GRID_ROWS` rows, each of the
/// first `GRID_ROWS` with at least `GRID_COLS` cells.
pub open spec fn shape_ok(g: Seq<Seq<GameCell>>) -> bool {
    &&& g.len() >= GRID_ROWS
    &&& forall|r: int| 0 <= r < GRID_ROWS ==> #[trigger] g[r].len() >= GRID_COLS
}

/// Two grids have the same number of rows and the same row lengths.
pub open spec fn same_shape(g: Seq<Seq<GameCell>>, h: Seq<Seq<GameCell>>) -> bool {
    &&& g.len() == h.len()
    &&& forall|r: int| 0 <= r < g.len() ==> #[trigger] g[r].len() == h[r].len()
}

/// Position `(r, c)` lies in the play window.
pub open spec fn in_window(r: int, c: int) -> bool {
    0 <= r < GRID_ROWS && 0 <= c < GRID_COLS
}

/// Column `c` of the window, bottom cell first.
pub open spec fn column_bottom_up(g: Seq<Seq<GameCell>>, c: int) -> Seq<GameCell> {
    Seq::new(GRID_ROWS as nat, |i: int| g[GRID_ROWS - 1 - i][c])
}

/// A cell that stays on the grid: the same cell, no longer new.
pub open spec fn settled(cell: GameCell) -> GameCell {
    GameCell { id: cell.id, multiplier: cell.multiplier, uid: cell.uid, is_new: false }
}

/// The cells of `col` whose symbol is not among `winners`, settled, in the
/// order of `col`.
pub open spec fn kept_cells(col: Seq<GameCell>, winners: Seq<u32>) -> Seq<GameCell>
    decreases col.len(),
{
    if col.len() == 0 {
        Seq::empty()
    } else {
        let prev = kept_cells(col.drop_last(), winners);
        if winners.contains(col.last().id) {
            prev
        } else {
            prev.push(settled(col.last()))
        }
    }
}

/// `h` is what gravity can make of `g` once the cells of `winners` are
/// removed: outside the window nothing changes; in each window column the
/// kept cells fall to the bottom in their order, and the positions above
/// them hold new random cells.
pub open spec fn gravity_outcome(
    g: Seq<Seq<GameCell>>,
    winners: Seq<u32>,
    is_bonus: bool,
    h: Seq<Seq<GameCell>>,
) -> bool {
    &&& same_shape(g, h)
    &&& forall|r: int, c: int|
        0 <= r < g.len() && 0 <= c < g[r].len() && !in_window(r, c) ==> #[trigger] h[r][c]
            == g[r][c]
    &&& forall|r: int, c: int|
        #![trigger h[r][c]]
        in_window(r, c) ==> {
            let kept = kept_cells(column_bottom_up(g, c), winners);
            let i = GRID_ROWS - 1 - r;
            if i < kept.len() {
                h[r][c] == kept[i]
            } else {
                fresh_cell(h[r][c], is_bonus)
            }
        }
}

/// Gravity keeps at most the cells a column had.
pub proof fn lemma_kept_len(col: Seq<GameCell>, winners: Seq<u32>)
    ensures
        kept_cells(col, winners).len() <= col.len(),
    decreases col.len(),
{
    if col.len() > 0 {
        lemma_kept_len(col.drop_last(), winners);
    }
}

/// The kept cells of window column `c`, bottom first.
pub fn settle_column(grid: &Vec<Vec<GameCell>>, c: usize, winning_ids: &Vec<u32>) -> (kept: Vec<GameCell>)
    requires
        shape_ok(grid_view(*grid)),
        c < GRID_COLS,
    ensures
        kept@ == kept_cells(column_bottom_up(grid_view(*grid), c as int), winning_ids@),
        kept@.len() <= GRID_ROWS,
{
    let ghost g = grid_view(*grid);
    let ghost col = column_bottom_up(g, c as int);
    let mut kept: Vec<GameCell> = Vec::new();
    let mut i: usize = 0;
    while i < GRID_ROWS
        invariant
            g == grid_view(*grid),
            shape_ok(g),
            c < GRID_COLS,
            col == column_bottom_up(g, c as int),
            i <= GRID_ROWS,
            kept@ == kept_cells(col.take(i as int), winning_ids@),
        decreases GRID_ROWS - i,
    {
        let r = GRID_ROWS - 1 - i;
        assert(g[r as int] == grid@[r as int]@);
        assert(g[r as int].len() >= GRID_COLS);
        let cell = &grid[r][c];
        proof {
            assert(col.take(i + 1).drop_last() =~= col.take(i as int));
            assert(col.take(i + 1).last() == col[i as int]);
            assert(col[i as int] == g[r as int][c as int]);
        }
        if !contains_id(winning_ids, cell.id) {
            let mut moved = cell.clone();
            moved.is_new = false;
            kept.push(moved);
        }
        i = i + 1;
    }
    assert(col.take(GRID_ROWS as int) =~= col);
    proof {
        lemma_kept_len(col, winning_ids@);
    }
    kept
}

/// Removes the cells whose symbol is among `winning_ids` from the window,
/// lets the remaining cells of each column fall to the bottom and fills the
/// top of each column with new random cells, column by column.
pub fn apply_gravity(grid: Vec<Vec<GameCell>>, winning_ids: &Vec<u32>, is_bonus: bool) -> (out: Vec<Vec<GameCell>>)
    requires
        shape_ok(grid_view(grid)),
    ensures
        gravity_outcome(grid_view(grid), winning_ids@, is_bonus, grid_view(out)),
        shape_ok(grid_view(out)),
{
    let ghost g = grid_view(grid);
    // Each window column, bottom cell first, after the fall and refill.
    let mut columns: Vec<Vec<GameCell>> = Vec::new();
    let mut c: usize = 0;
    while c < GRID_COLS
        invariant
            g == grid_view(grid),
            shape_ok(g),
            c <= GRID_COLS,
            columns@.len() == c,
            forall|j: int|
                #![trigger columns@[j]]
                0 <= j < c ==> {
                    let kept = kept_cells(column_bottom_up(g, j), winning_ids@);
                    &&& columns@[j]@.len() == GRID_ROWS
                    &&& forall|i: int|
                        0 <= i < GRID_ROWS ==> if i < kept.len() {
                            #[trigger] columns@[j]@[i] == kept[i]
                        } else {
                            fresh_cell(columns@[j]@[i], is_bonus)
                        }
                },
        decreases GRID_COLS - c,
    {
        let mut col_items = settle_column(&grid, c, winning_ids);
        let ghost kept = col_items@;
        while col_items.len() < GRID_ROWS
            invariant
                kept.len() <= col_items@.len() <= GRID_ROWS,
                col_items@.take(kept.len() as int) == kept,
                forall|i: int| kept.len() <= i < col_items@.len() ==> fresh_cell(#[trigger] col_items@[i], is_bonus),
            decreases GRID_ROWS - col_items@.len(),
        {
            let cell = generate_random_symbol(is_bonus);
            let ghost before = col_items@;
            col_items.push(cell);
            assert(col_items@.take(kept.len() as int) =~= before.take(kept.len() as int));
        }
        assert forall|i: int| 0 <= i < kept.len() implies col_items@[i] == kept[i] by {
            assert(col_items@.take(kept.len() as int)[i] == col_items@[i]);
        }
        columns.push(col_items);
        c = c + 1;
    }
    let mut out: Vec<Vec<GameCell>> = Vec::new();
    let mut r: usize = 0;
    while r < grid.len()
        invariant
            g == grid_view(grid),
            shape_ok(g),
            r <= g.len(),
            out@.len() == r,
            columns@.len() == GRID_COLS,
            forall|j: int|
                #![trigger columns@[j]]
                0 <= j < GRID_COLS ==> {
                    let kept = kept_cells(column_bottom_up(g, j), winning_ids@);
                    &&& columns@[j]@.len() == GRID_ROWS
                    &&& forall|i: int|
                        0 <= i < GRID_ROWS ==> if i < kept.len() {
                            #[trigger] columns@[j]@[i] == kept[i]
                        } else {
                            fresh_cell(columns@[j]@[i], is_bonus)
                        }
                },
            forall|rr: int| 0 <= rr < r ==> (#[trigger] out@[rr])@.len() == g[rr].len(),
            forall|rr: int, cc: int|
                0 <= rr < r && 0 <= cc < g[rr].len() && !in_window(rr, cc) ==> #[trigger] out@[rr]@[cc]
                    == g[rr][cc],
            forall|rr: int, cc: int|
                0 <= rr < r && in_window(rr, cc) ==> #[trigger] out@[rr]@[cc]
                    == columns@[cc]@[GRID_ROWS - 1 - rr],
        decreases g.len() - r,
    {
        let src = &grid[r];
        assert(src@ == g[r as int]);
        let mut row: Vec<GameCell> = Vec::new();
        let mut c: usize = 0;
        while c < src.len()
            invariant
                g == grid_view(grid),
                src@ == g[r as int],
                r < g.len(),
                shape_ok(g),
                columns@.len() == GRID_COLS,
                forall|j: int| 0 <= j < GRID_COLS ==> (#[trigger] columns@[j])@.len() == GRID_ROWS,
                c <= src@.len(),
                row@.len() == c,
                forall|cc: int| 0 <= cc < c && !in_window(r as int, cc) ==> #[trigger] row@[cc] == g[r as int][cc],
                forall|cc: int| 0 <= cc < c && in_window(r as int, cc) ==> #[trigger] row@[cc]
                    == columns@[cc]@[GRID_ROWS - 1 - r],
            decreases src@.len() - c,
        {
            if r < GRID_ROWS && c < GRID_COLS {
                let column = &columns[c];
                assert(column@.len() == GRID_ROWS);
                row.push(column[GRID_ROWS - 1 - r].clone());
            } else {
                row.push(src[c].clone());
            }
            c = c + 1;
        }
        out.push(row);
        r = r + 1;
    }
    proof {
        let h = grid_view(out);
        assert(same_shape(g, h));
        assert forall|rr: int, cc: int| #![trigger h[rr][cc]] in_window(rr, cc) implies {
            let kept = kept_cells(column_bottom_up(g, cc), winning_ids@);
            let i = GRID_ROWS - 1 - rr;
            if i < kept.len() {
                h[rr][cc] == kept[i]
            } else {
                fresh_cell(h[rr][cc], is_bonus)
            }
        } by {
            assert(g[rr].len() >= GRID_COLS);
            assert(h[rr][cc] == out@[rr]@[cc]);
            assert(columns@[cc]@.len() == GRID_ROWS);
        }
        assert forall|rr: int| 0 <= rr < GRID_ROWS implies #[trigger] h[rr].len() >= GRID_COLS by {
            assert(g[rr].len() >= GRID_COLS);
        }
    }
    out
}

} // verus!
