//! A spin: a random starting grid, scatters placed when the bonus is
//! bought, and the round played on it.
use vstd::prelude::*;
use crate::amount::Amount;
use crate::gravity::{in_window, shape_ok};
use crate::laws::round_keeps_scatters;
use crate::payout::{grid_cells, grid_view, multiplier_sum, scatter_count};
use crate::random::{new_short_uid, random_usize_in_closed, shuffle_positions};
use crate::round::{
    CascadeStep, FREE_SPINS_AWARD, FREE_SPIN_SCATTERS, RoundError, SpinResult, overflow_after,
    process_full_round, round_valid,
};
use crate::symbols::{
    BOMB_ID, GRID_COLS, GRID_ROWS, SCATTER_ID, GameCell, fresh_cell, generate_random_symbol,
    is_symbol_id, symbol_table,
};

verus! {

broadcast use vstd::set::group_set_axioms;

/// Fewest scatters placed when the bonus is bought.
pub const BONUS_SCATTERS_MIN: usize = 4;
/// Most scatters placed when the bonus is bought.
pub const BONUS_SCATTERS_MAX: usize = 6;

/// A starting grid of a spin: `GRID_ROWS` rows of `GRID_COLS` new
/// non-bonus cells (no bombs); when the bonus was bought, 4 to 6 distinct
/// positions hold scatters, and the grid holds at least four scatters.
pub open spec fn spin_start(g: Seq<Seq<GameCell>>, is_buy: bool) -> bool {
    &&& g.len() == GRID_ROWS
    &&& forall|r: int| 0 <= r < GRID_ROWS ==> #[trigger] g[r].len() == GRID_COLS
    &&& forall|r: int, c: int| in_window(r, c) ==> fresh_cell(#[trigger] g[r][c], false)
    &&& is_buy ==> scatter_count(grid_cells(g)) >= FREE_SPIN_SCATTERS
    &&& is_buy ==> exists|spots: Set<(int, int)>| #[trigger] scatters_placed(g, spots)
}

/// `spots` are 4 to 6 distinct window positions, each holding a scatter.
pub open spec fn scatters_placed(g: Seq<Seq<GameCell>>, spots: Set<(int, int)>) -> bool {
    &&& spots.finite()
    &&& 4 <= spots.len() <= 6
    &&& forall|p: (int, int)| #[trigger] spots.contains(p) ==> in_window(p.0, p.1) && g[p.0][p.1].id == SCATTER_ID
}

/// The request buys the bonus (`is_buy_bonus.unwrap_or(false)`).
pub open spec fn buys_bonus(is_buy_bonus: Option<bool>) -> bool {
    is_buy_bonus == Some(true)
}

/// The flat position of a window cell, row after row.
pub open spec fn flat_index(p: (usize, usize)) -> int {
    p.0 * GRID_COLS + p.1
}

/// A new scatter cell.
fn new_scatter() -> (cell: GameCell)
    ensures
        cell.id == SCATTER_ID,
        fresh_cell(cell, false),
{
    let cell = GameCell { id: SCATTER_ID, multiplier: None, uid: new_short_uid(), is_new: true };
    assert(symbol_table()[0].id == SCATTER_ID);
    cell
}

proof fn lemma_no_bombs(cells: Seq<GameCell>)
    requires
        forall|k: int| 0 <= k < cells.len() ==> fresh_cell(#[trigger] cells[k], false),
    ensures
        multiplier_sum(cells) == 0,
    decreases cells.len(),
{
    if cells.len() > 0 {
        assert forall|k: int| 0 <= k < cells.drop_last().len() implies fresh_cell(
            #[trigger] cells.drop_last()[k],
            false,
        ) by {
            assert(cells.drop_last()[k] == cells[k]);
        }
        lemma_no_bombs(cells.drop_last());
        let last = cells[cells.len() - 1];
        assert(fresh_cell(last, false));
        if last.id == BOMB_ID {
            let i = choose|i: int| 0 <= i < symbol_table().len() && #[trigger] symbol_table()[i].id == last.id;
            assert(false);
        }
    }
}

proof fn lemma_scatters_at_least(s: Seq<GameCell>, placed: Set<int>)
    requires
        placed.finite(),
        forall|k: int| #[trigger] placed.contains(k) ==> 0 <= k < s.len() && s[k].id == SCATTER_ID,
    ensures
        scatter_count(s) >= placed.len(),
    decreases s.len(),
{
    if s.len() == 0 {
        assert(placed =~= Set::<int>::empty());
    } else {
        let last = s.len() - 1;
        let rest = placed.remove(last);
        assert forall|k: int| #[trigger] rest.contains(k) implies 0 <= k < s.drop_last().len()
            && s.drop_last()[k].id == SCATTER_ID by {
            assert(placed.contains(k));
            assert(s.drop_last()[k] == s[k]);
        }
        lemma_scatters_at_least(s.drop_last(), rest);
        if placed.contains(last) {
            assert(s.last().id == SCATTER_ID);
        }
    }
}

/// All window positions, row after row.
fn window_positions() -> (positions: Vec<(usize, usize)>)
    ensures
        positions@.len() == GRID_ROWS * GRID_COLS,
        forall|i: int|
            0 <= i < positions@.len() ==> (#[trigger] positions@[i]).0 < GRID_ROWS && positions@[i].1
                < GRID_COLS && flat_index(positions@[i]) == i,
{
    let mut positions: Vec<(usize, usize)> = Vec::new();
    let mut r: usize = 0;
    while r < GRID_ROWS
        invariant
            r <= GRID_ROWS,
            positions@.len() == r * GRID_COLS,
            forall|i: int|
                0 <= i < positions@.len() ==> (#[trigger] positions@[i]).0 < GRID_ROWS
                    && positions@[i].1 < GRID_COLS && flat_index(positions@[i]) == i,
        decreases GRID_ROWS - r,
    {
        let mut c: usize = 0;
        while c < GRID_COLS
            invariant
                r < GRID_ROWS,
                c <= GRID_COLS,
                positions@.len() == r * GRID_COLS + c,
                forall|i: int|
                    0 <= i < positions@.len() ==> (#[trigger] positions@[i]).0 < GRID_ROWS
                        && positions@[i].1 < GRID_COLS && flat_index(positions@[i]) == i,
            decreases GRID_COLS - c,
        {
            positions.push((r, c));
            c = c + 1;
        }
        r = r + 1;
    }
    positions
}

/// The starting grid of a spin: `GRID_ROWS` rows of random non-bonus cells;
/// when the bonus is bought, 4 to 6 of its cells, at distinct random
/// positions, are replaced by new scatters.
pub fn spin_start_grid(is_buy: bool) -> (grid: Vec<Vec<GameCell>>)
    ensures
        spin_start(grid_view(grid), is_buy),
{
    let total: usize = GRID_ROWS * GRID_COLS;
    let mut flat: Vec<GameCell> = Vec::new();
    while flat.len() < total
        invariant
            total == GRID_ROWS * GRID_COLS,
            flat@.len() <= total,
            forall|k: int| 0 <= k < flat@.len() ==> fresh_cell(#[trigger] flat@[k], false),
        decreases total - flat@.len(),
    {
        flat.push(generate_random_symbol(false));
    }
    let ghost mut placed: Set<int> = Set::empty();
    let ghost mut spots: Set<(int, int)> = Set::empty();
    if is_buy {
        let mut positions = window_positions();
        let ghost ordered = positions@;
        proof {
            assert(ordered.no_duplicates()) by {
                assert forall|i: int, j: int|
                    0 <= i < ordered.len() && 0 <= j < ordered.len() && i != j implies ordered[i]
                    != ordered[j] by {
                    assert(flat_index(ordered[i]) == i);
                    assert(flat_index(ordered[j]) == j);
                }
            }
            ordered.lemma_multiset_has_no_duplicates();
        }
        shuffle_positions(&mut positions);
        proof {
            broadcast use vstd::seq_lib::group_to_multiset_ensures;
            broadcast use vstd::multiset::group_multiset_axioms;
            positions@.lemma_multiset_has_no_duplicates_conv();
            assert forall|i: int| 0 <= i < positions@.len() implies (#[trigger] positions@[i]).0
                < GRID_ROWS && positions@[i].1 < GRID_COLS by {
                let p = positions@[i];
                assert(positions@.contains(p));
                assert(positions@.to_multiset().count(p) > 0);
                assert(ordered.contains(p));
                let j = choose|j: int| 0 <= j < ordered.len() && ordered[j] == p;
                assert(ordered[j].0 < GRID_ROWS);
            }
        }
        let scatters = random_usize_in_closed(BONUS_SCATTERS_MIN, BONUS_SCATTERS_MAX);
        let mut i: usize = 0;
        while i < scatters
            invariant
                total == GRID_ROWS * GRID_COLS,
                flat@.len() == total,
                forall|k: int| 0 <= k < flat@.len() ==> fresh_cell(#[trigger] flat@[k], false),
                positions@.len() == total,
                positions@.no_duplicates(),
                forall|j: int|
                    0 <= j < positions@.len() ==> (#[trigger] positions@[j]).0 < GRID_ROWS
                        && positions@[j].1 < GRID_COLS,
                scatters <= BONUS_SCATTERS_MAX,
                i <= scatters,
                placed.finite(),
                placed.len() == i,
                forall|k: int| #[trigger] placed.contains(k) <==> exists|j: int| 0 <= j < i && flat_index(#[trigger] positions@[j]) == k,
                forall|k: int| #[trigger] placed.contains(k) ==> 0 <= k < total && flat@[k].id == SCATTER_ID,
                spots.finite(),
                spots.len() == i,
                forall|p: (int, int)| #[trigger] spots.contains(p) ==> in_window(p.0, p.1)
                    && placed.contains(p.0 * 6 + p.1),
            decreases scatters - i,
        {
            let (r, c) = positions[i];
            let k = r * GRID_COLS + c;
            proof {
                assert(flat_index(positions@[i as int]) == k);
                if placed.contains(k as int) {
                    let j = choose|j: int| 0 <= j < i && flat_index(#[trigger] positions@[j]) == k;
                    assert(positions@[j] == positions@[i as int]);
                }
            }
            flat.set(k, new_scatter());
            proof {
                if spots.contains((r as int, c as int)) {
                    assert(placed.contains(k as int));
                }
                spots = spots.insert((r as int, c as int));
                placed = placed.insert(k as int);
                assert forall|kk: int| #[trigger] placed.contains(kk) <==> exists|j: int| 0 <= j < i + 1 && flat_index(#[trigger] positions@[j]) == kk by {
                    if kk == k {
                        assert(flat_index(positions@[i as int]) == kk);
                    }
                }
            }
            i = i + 1;
        }
        proof {
            lemma_scatters_at_least(flat@, placed);
        }
    }
    assert(is_buy ==> BONUS_SCATTERS_MIN <= spots.len() <= BONUS_SCATTERS_MAX && spots.finite());
    assert(forall|p: (int, int)| #[trigger] spots.contains(p) ==> in_window(p.0, p.1) && flat@[p.0 * 6 + p.1].id == SCATTER_ID);
    let mut grid: Vec<Vec<GameCell>> = Vec::new();
    let mut r: usize = 0;
    while r < GRID_ROWS
        invariant
            total == GRID_ROWS * GRID_COLS,
            flat@.len() == total,
            r <= GRID_ROWS,
            grid@.len() == r,
            forall|rr: int| 0 <= rr < r ==> (#[trigger] grid@[rr])@ == flat@.subrange(rr * 6, rr * 6 + 6),
            grid_view(grid).flatten() == flat@.take(r * 6),
        decreases GRID_ROWS - r,
    {
        let mut row: Vec<GameCell> = Vec::new();
        let mut c: usize = 0;
        while c < GRID_COLS
            invariant
                flat@.len() == total,
                total == GRID_ROWS * GRID_COLS,
                r < GRID_ROWS,
                c <= GRID_COLS,
                row@ == flat@.subrange(r * 6, r * 6 + c),
            decreases GRID_COLS - c,
        {
            row.push(flat[r * GRID_COLS + c].clone());
            assert(row@ =~= flat@.subrange(r * 6, r * 6 + c + 1));
            c = c + 1;
        }
        let ghost before = grid_view(grid);
        grid.push(row);
        proof {
            assert(grid_view(grid) =~= before.push(row@));
            before.lemma_flatten_push(row@);
            assert(flat@.take(r * 6) + flat@.subrange(r * 6, r * 6 + 6) =~= flat@.take((r + 1) * 6));
        }
        r = r + 1;
    }
    proof {
        let g = grid_view(grid);
        assert(flat@.take(30) =~= flat@);
        assert forall|rr: int, cc: int| in_window(rr, cc) implies fresh_cell(#[trigger] g[rr][cc], false) by {
            assert(g[rr] == flat@.subrange(rr * 6, rr * 6 + 6));
            assert(g[rr][cc] == flat@[rr * 6 + cc]);
        }
        assert forall|p: (int, int)| #[trigger] spots.contains(p) implies in_window(p.0, p.1) && g[p.0][p.1].id == SCATTER_ID by {
            assert(g[p.0] == flat@.subrange(p.0 * 6, p.0 * 6 + 6));
            assert(g[p.0][p.1] == flat@[p.0 * 6 + p.1]);
        }
        if is_buy {
            assert(scatters_placed(g, spots));
        }
    }
    grid
}

/// The game logic of a spin request: a random starting grid (with scatters
/// placed when `is_buy_bonus` is `Some(true)`), played as a round in bonus
/// mode exactly when the bonus was bought.
pub fn spin(bet: Amount, is_buy_bonus: Option<bool>) -> (result: Result<SpinResult, RoundError>)
    requires
        bet.wf(),
    ensures
        result matches Ok(res) ==> {
            let is_buy = buys_bonus(is_buy_bonus);
            &&& spin_start(grid_view(res.initial_grid), is_buy)
            &&& round_valid(grid_view(res.initial_grid), bet, is_buy, res)
            &&& res.total_multiplier == 0
            &&& (is_buy ==> res.free_spins_won == FREE_SPINS_AWARD)
        },
        !(result matches Err(RoundError::MultiplierOverflow)),
        result matches Err(RoundError::AmountOverflow) ==> exists|
            start: Seq<Seq<GameCell>>,
            steps: Seq<CascadeStep>,
        |
            spin_start(start, buys_bonus(is_buy_bonus)) && #[trigger] overflow_after(
                start,
                bet,
                buys_bonus(is_buy_bonus),
                steps,
                0,
            ),
{
    let is_buy = match is_buy_bonus {
        Some(b) => b,
        None => false,
    };
    let grid = spin_start_grid(is_buy);
    let ghost start = grid_view(grid);
    proof {
        lemma_start_props(start, is_buy);
    }
    let result = process_full_round(grid, bet, is_buy);
    proof {
        if result is Ok {
            lemma_spin_outcome(start, bet, is_buy, result->Ok_0);
        }
        if result matches Err(RoundError::AmountOverflow) {
            let steps = choose|steps: Seq<CascadeStep>|
                #[trigger] overflow_after(start, bet, is_buy, steps, multiplier_sum(grid_cells(start)) as u32);
            assert(overflow_after(start, bet, is_buy, steps, 0));
            assert(is_buy == buys_bonus(is_buy_bonus));
            assert(spin_start(start, buys_bonus(is_buy_bonus)) && overflow_after(
                start,
                bet,
                buys_bonus(is_buy_bonus),
                steps,
                0,
            ));
        }
    }
    result
}

proof fn lemma_start_props(start: Seq<Seq<GameCell>>, is_buy: bool)
    requires
        spin_start(start, is_buy),
    ensures
        shape_ok(start),
        multiplier_sum(grid_cells(start)) == 0,
{
    assert forall|r: int| 0 <= r < GRID_ROWS implies #[trigger] start[r].len() >= GRID_COLS by {}
    lemma_window_cells_fresh(start);
    lemma_no_bombs(grid_cells(start));
}

proof fn lemma_spin_outcome(start: Seq<Seq<GameCell>>, bet: Amount, is_buy: bool, res: SpinResult)
    requires
        spin_start(start, is_buy),
        shape_ok(start),
        multiplier_sum(grid_cells(start)) == 0,
        round_valid(start, bet, is_buy, res),
    ensures
        res.total_multiplier == 0,
        is_buy ==> res.free_spins_won == FREE_SPINS_AWARD,
{
    round_keeps_scatters(start, bet, is_buy, res.cascades@);
}

/// Every cell of a spin's starting grid is a fresh non-bonus cell.
proof fn lemma_window_cells_fresh(g: Seq<Seq<GameCell>>)
    requires
        g.len() == GRID_ROWS,
        forall|r: int| 0 <= r < GRID_ROWS ==> #[trigger] g[r].len() == GRID_COLS,
        forall|r: int, c: int| in_window(r, c) ==> fresh_cell(#[trigger] g[r][c], false),
    ensures
        forall|k: int| 0 <= k < grid_cells(g).len() ==> fresh_cell(#[trigger] grid_cells(g)[k], false),
{
    lemma_rows_fresh(g, GRID_ROWS as int);
    assert(g.take(GRID_ROWS as int) =~= g);
}

proof fn lemma_rows_fresh(g: Seq<Seq<GameCell>>, n: int)
    requires
        0 <= n <= g.len(),
        g.len() == GRID_ROWS,
        forall|r: int| 0 <= r < GRID_ROWS ==> #[trigger] g[r].len() == GRID_COLS,
        forall|r: int, c: int| in_window(r, c) ==> fresh_cell(#[trigger] g[r][c], false),
    ensures
        forall|k: int| 0 <= k < g.take(n).flatten().len() ==> fresh_cell(#[trigger] g.take(n).flatten()[k], false),
    decreases n,
{
    if n > 0 {
        lemma_rows_fresh(g, n - 1);
        assert(g.take(n) =~= g.take(n - 1).push(g[n - 1]));
        g.take(n - 1).lemma_flatten_push(g[n - 1]);
        let prev = g.take(n - 1).flatten();
        assert forall|k: int| 0 <= k < g.take(n).flatten().len() implies fresh_cell(#[trigger] g.take(n).flatten()[k], false) by {
            if k < prev.len() {
                assert(g.take(n).flatten()[k] == prev[k]);
            } else {
                assert(g.take(n).flatten()[k] == g[n - 1][k - prev.len()]);
                assert(in_window(n - 1, k - prev.len()));
            }
        }
    } else {
        assert(g.take(0).flatten() =~= Seq::<GameCell>::empty());
    }
}

} // verus!
