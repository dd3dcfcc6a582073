//! Properties of the game that span several functions.
use vstd::prelude::*;
use crate::gravity::{column_bottom_up, gravity_outcome, in_window, kept_cells, same_shape, settled, shape_ok};
use crate::payout::{multiplier_sum, symbol_value, table_value, grid_cells, id_count, is_winning_id, scatter_count, win_total, winners_in_order, winning_ids};
use crate::round::{cascade_chain, final_grid, grid_before_step, raw_total, round_valid, step_valid, CascadeStep, SpinResult};
use crate::amount::{Amount, amount_add, amount_div, amount_mul, whole};
use crate::account::{bearer_prefix, starts_with};
use crate::symbols::{BOMB_ID, GRID_COLS, GRID_ROWS, SCATTER_ID, GameCell, SymbolConfig, fresh_cell, symbol_table, weight_sum};

verus! {

/// 1 for a scatter cell, 0 otherwise.
spec fn sc1(x: GameCell) -> int {
    if x.id == SCATTER_ID { 1 } else { 0 }
}

proof fn lemma_scatter_count_concat(a: Seq<GameCell>, b: Seq<GameCell>)
    ensures
        scatter_count(a + b) == scatter_count(a) + scatter_count(b),
    decreases b.len(),
{
    if b.len() == 0 {
        assert(a + b =~= a);
    } else {
        assert((a + b).drop_last() =~= a + b.drop_last());
        lemma_scatter_count_concat(a, b.drop_last());
    }
}

/// Scatters of the rows, counted row by row.
spec fn rows_scatters(g: Seq<Seq<GameCell>>) -> int
    decreases g.len(),
{
    if g.len() == 0 {
        0
    } else {
        rows_scatters(g.drop_last()) + scatter_count(g.last())
    }
}

proof fn lemma_flatten_scatters(g: Seq<Seq<GameCell>>)
    ensures
        scatter_count(g.flatten()) == rows_scatters(g),
    decreases g.len(),
{
    if g.len() > 0 {
        lemma_flatten_scatters(g.drop_last());
        assert(g =~= g.drop_last().push(g.last()));
        g.drop_last().lemma_flatten_push(g.last());
        lemma_scatter_count_concat(g.drop_last().flatten(), g.last());
    }
}

/// Scatters among the first `k` cells of row `r`.
spec fn row_part(g: Seq<Seq<GameCell>>, r: int, k: int) -> int
    decreases k,
{
    if k <= 0 {
        0
    } else {
        row_part(g, r, k - 1) + sc1(g[r][k - 1])
    }
}

/// Scatters among the first `k` cells of column `c`, top down.
spec fn col_part(g: Seq<Seq<GameCell>>, c: int, k: int) -> int
    decreases k,
{
    if k <= 0 {
        0
    } else {
        col_part(g, c, k - 1) + sc1(g[k - 1][c])
    }
}

/// Scatters of the `n` by `m` top-left block, added row by row.
spec fn rows_sum(g: Seq<Seq<GameCell>>, n: int, m: int) -> int
    decreases n,
{
    if n <= 0 {
        0
    } else {
        rows_sum(g, n - 1, m) + row_part(g, n - 1, m)
    }
}

/// Scatters of the `n` by `m` top-left block, added column by column.
spec fn cols_sum(g: Seq<Seq<GameCell>>, n: int, m: int) -> int
    decreases m,
{
    if m <= 0 {
        0
    } else {
        cols_sum(g, n, m - 1) + col_part(g, m - 1, n)
    }
}

/// The first `k` cells of column `c`, bottom first.
spec fn column_prefix_bottom_up(g: Seq<Seq<GameCell>>, c: int, k: int) -> Seq<GameCell> {
    Seq::new(k as nat, |i: int| g[k - 1 - i][c])
}

proof fn lemma_row_part(g: Seq<Seq<GameCell>>, r: int, k: int)
    requires
        0 <= r < g.len(),
        0 <= k <= g[r].len(),
    ensures
        scatter_count(g[r].take(k)) == row_part(g, r, k),
    decreases k,
{
    if k > 0 {
        assert(g[r].take(k).drop_last() =~= g[r].take(k - 1));
        lemma_row_part(g, r, k - 1);
    }
}

proof fn lemma_scatter_count_first(s: Seq<GameCell>)
    requires
        s.len() > 0,
    ensures
        scatter_count(s) == sc1(s[0]) + scatter_count(s.drop_first()),
{
    assert(s =~= seq![s[0]] + s.drop_first());
    lemma_scatter_count_concat(seq![s[0]], s.drop_first());
    let one = seq![s[0]];
    assert(one.drop_last() =~= Seq::<GameCell>::empty());
    assert(one.last() == s[0]);
    assert(scatter_count(one.drop_last()) == 0);
    assert(scatter_count(one) == sc1(s[0]));
}

proof fn lemma_col_part(g: Seq<Seq<GameCell>>, c: int, k: int)
    requires
        0 <= k <= g.len(),
        forall|r: int| 0 <= r < k ==> c < #[trigger] g[r].len(),
        0 <= c,
    ensures
        scatter_count(column_prefix_bottom_up(g, c, k)) == col_part(g, c, k),
    decreases k,
{
    if k > 0 {
        let s = column_prefix_bottom_up(g, c, k);
        lemma_scatter_count_first(s);
        assert(s.drop_first() =~= column_prefix_bottom_up(g, c, k - 1));
        lemma_col_part(g, c, k - 1);
    }
}

proof fn lemma_peel_column(g: Seq<Seq<GameCell>>, n: int, m: int)
    requires
        n >= 0,
        m > 0,
    ensures
        rows_sum(g, n, m) == rows_sum(g, n, m - 1) + col_part(g, m - 1, n),
    decreases n,
{
    if n > 0 {
        lemma_peel_column(g, n - 1, m);
    }
}

/// Adding a block row by row or column by column gives the same count.
proof fn lemma_rows_cols(g: Seq<Seq<GameCell>>, n: int, m: int)
    requires
        n >= 0,
        m >= 0,
    ensures
        rows_sum(g, n, m) == cols_sum(g, n, m),
    decreases m,
{
    if m > 0 {
        lemma_peel_column(g, n, m);
        lemma_rows_cols(g, n, m - 1);
    } else {
        lemma_rows_empty(g, n);
    }
}

proof fn lemma_rows_empty(g: Seq<Seq<GameCell>>, n: int)
    requires
        n >= 0,
    ensures
        rows_sum(g, n, 0) == 0,
    decreases n,
{
    if n > 0 {
        lemma_rows_empty(g, n - 1);
    }
}

proof fn lemma_cols_monotone(g: Seq<Seq<GameCell>>, h: Seq<Seq<GameCell>>, n: int, m: int)
    requires
        m >= 0,
        forall|c: int| 0 <= c < m ==> #[trigger] col_part(h, c, n) >= col_part(g, c, n),
    ensures
        cols_sum(h, n, m) >= cols_sum(g, n, m),
    decreases m,
{
    if m > 0 {
        lemma_cols_monotone(g, h, n, m - 1);
    }
}

/// Scatters of the window part of the first `n` rows.
spec fn window_rows(g: Seq<Seq<GameCell>>, n: int) -> int
    decreases n,
{
    if n <= 0 {
        0
    } else {
        window_rows(g, n - 1) + scatter_count(g[n - 1].take(6))
    }
}

proof fn lemma_window_rows(g: Seq<Seq<GameCell>>, n: int)
    requires
        shape_ok(g),
        0 <= n <= GRID_ROWS,
    ensures
        window_rows(g, n) == rows_sum(g, n, GRID_COLS as int),
    decreases n,
{
    if n > 0 {
        lemma_window_rows(g, n - 1);
        assert(g[n - 1].len() >= GRID_COLS);
        lemma_row_part(g, n - 1, GRID_COLS as int);
    }
}

proof fn lemma_rows_difference(g: Seq<Seq<GameCell>>, h: Seq<Seq<GameCell>>, n: int)
    requires
        shape_ok(g),
        same_shape(g, h),
        0 <= n <= g.len(),
        forall|r: int, c: int|
            0 <= r < g.len() && 0 <= c < g[r].len() && !in_window(r, c) ==> #[trigger] h[r][c]
                == g[r][c],
    ensures
        rows_scatters(h.take(n)) - rows_scatters(g.take(n)) == window_rows(
            h,
            if n < 5 { n } else { 5 },
        ) - window_rows(g, if n < 5 { n } else { 5 }),
    decreases n,
{
    if n > 0 {
        lemma_rows_difference(g, h, n - 1);
        assert(g.take(n).drop_last() =~= g.take(n - 1));
        assert(h.take(n).drop_last() =~= h.take(n - 1));
        let r = n - 1;
        assert(g[r].len() == h[r].len());
        if r < 5 {
            assert(g[r].len() >= GRID_COLS);
            assert(g[r] =~= g[r].take(6) + g[r].skip(6));
            assert(h[r] =~= h[r].take(6) + h[r].skip(6));
            assert(h[r].skip(6) =~= g[r].skip(6)) by {
                assert forall|k: int| 0 <= k < g[r].skip(6).len() implies h[r].skip(6)[k]
                    == g[r].skip(6)[k] by {
                    assert(h[r][k + 6] == g[r][k + 6]);
                }
            }
            lemma_scatter_count_concat(g[r].take(6), g[r].skip(6));
            lemma_scatter_count_concat(h[r].take(6), h[r].skip(6));
        } else {
            assert(h[r] =~= g[r]) by {
                assert forall|k: int| 0 <= k < g[r].len() implies h[r][k] == g[r][k] by {
                    assert(h[r][k] == g[r][k]);
                }
            }
        }
    } else {
        assert(g.take(0).len() == 0);
        assert(h.take(0).len() == 0);
    }
}

proof fn lemma_kept_scatters(col: Seq<GameCell>, winners: Seq<u32>)
    requires
        !winners.contains(SCATTER_ID),
    ensures
        scatter_count(kept_cells(col, winners)) == scatter_count(col),
    decreases col.len(),
{
    if col.len() > 0 {
        lemma_kept_scatters(col.drop_last(), winners);
        let prev = kept_cells(col.drop_last(), winners);
        if !winners.contains(col.last().id) {
            assert(prev.push(crate::gravity::settled(col.last())).drop_last() =~= prev);
        }
    }
}

proof fn lemma_prefix_scatters(t: Seq<GameCell>, k: Seq<GameCell>)
    requires
        k.len() <= t.len(),
        forall|i: int| 0 <= i < k.len() ==> t[i] == k[i],
    ensures
        scatter_count(t) >= scatter_count(k),
{
    assert(t.take(k.len() as int) =~= k);
    assert(t =~= t.take(k.len() as int) + t.skip(k.len() as int));
    lemma_scatter_count_concat(t.take(k.len() as int), t.skip(k.len() as int));
}

proof fn lemma_column_keeps_scatters(
    g: Seq<Seq<GameCell>>,
    winners: Seq<u32>,
    is_bonus: bool,
    h: Seq<Seq<GameCell>>,
    c: int,
)
    requires
        shape_ok(g),
        gravity_outcome(g, winners, is_bonus, h),
        !winners.contains(SCATTER_ID),
        0 <= c < GRID_COLS,
    ensures
        scatter_count(column_bottom_up(h, c)) >= scatter_count(column_bottom_up(g, c)),
{
    let kept = kept_cells(column_bottom_up(g, c), winners);
    crate::gravity::lemma_kept_len(column_bottom_up(g, c), winners);
    let hc = column_bottom_up(h, c);
    assert forall|i: int| 0 <= i < kept.len() implies hc[i] == kept[i] by {
        let r = GRID_ROWS - 1 - i;
        assert(in_window(r, c));
        assert(hc[i] == h[r][c]);
    }
    lemma_prefix_scatters(hc, kept);
    lemma_kept_scatters(column_bottom_up(g, c), winners);
}

/// A cascade never removes a scatter: gravity keeps every cell whose
/// symbol did not pay, and scatters never pay, so the grid after a cascade
/// holds at least as many scatters as before.
pub proof fn gravity_keeps_scatters(
    g: Seq<Seq<GameCell>>,
    winners: Seq<u32>,
    is_bonus: bool,
    h: Seq<Seq<GameCell>>,
)
    requires
        shape_ok(g),
        gravity_outcome(g, winners, is_bonus, h),
        !winners.contains(SCATTER_ID),
    ensures
        scatter_count(grid_cells(h)) >= scatter_count(grid_cells(g)),
        shape_ok(h),
{
    assert forall|r: int| 0 <= r < GRID_ROWS implies #[trigger] h[r].len() >= GRID_COLS by {
        assert(g[r].len() >= GRID_COLS);
    }
    lemma_flatten_scatters(g);
    lemma_flatten_scatters(h);
    lemma_rows_difference(g, h, g.len() as int);
    assert(g.take(g.len() as int) =~= g);
    assert(h.take(h.len() as int) =~= h);
    lemma_window_rows(g, GRID_ROWS as int);
    lemma_window_rows(h, GRID_ROWS as int);
    lemma_rows_cols(g, GRID_ROWS as int, GRID_COLS as int);
    lemma_rows_cols(h, GRID_ROWS as int, GRID_COLS as int);
    assert forall|c: int| 0 <= c < GRID_COLS implies #[trigger] col_part(h, c, GRID_ROWS as int)
        >= col_part(g, c, GRID_ROWS as int) by {
        assert forall|r: int| 0 <= r < GRID_ROWS implies c < #[trigger] g[r].len() by {
            assert(g[r].len() >= GRID_COLS);
        }
        assert forall|r: int| 0 <= r < GRID_ROWS implies c < #[trigger] h[r].len() by {
            assert(h[r].len() >= GRID_COLS);
        }
        lemma_col_part(g, c, GRID_ROWS as int);
        lemma_col_part(h, c, GRID_ROWS as int);
        assert(column_bottom_up(g, c) =~= column_prefix_bottom_up(g, c, GRID_ROWS as int));
        assert(column_bottom_up(h, c) =~= column_prefix_bottom_up(h, c, GRID_ROWS as int));
        lemma_column_keeps_scatters(g, winners, is_bonus, h, c);
    }
    lemma_cols_monotone(g, h, GRID_ROWS as int, GRID_COLS as int);
}


proof fn lemma_count_positive(cells: Seq<GameCell>, id: u32)
    requires
        id_count(cells, id) > 0,
    ensures
        exists|k: int| 0 <= k < cells.len() && #[trigger] cells[k].id == id,
    decreases cells.len(),
{
    if cells.last().id == id {
        assert(cells[cells.len() - 1].id == id);
    } else {
        lemma_count_positive(cells.drop_last(), id);
        let k = choose|k: int| 0 <= k < cells.drop_last().len() && #[trigger] cells.drop_last()[k].id == id;
        assert(cells[k].id == id);
    }
}

proof fn lemma_push_contains(s: Seq<u32>, a: u32, x: u32)
    ensures
        s.push(a).contains(x) <==> (s.contains(x) || x == a),
{
    if s.contains(x) {
        let i = choose|i: int| 0 <= i < s.len() && s[i] == x;
        assert(s.push(a)[i] == x);
    }
    if x == a {
        assert(s.push(a)[s.len() as int] == x);
    }
    if s.push(a).contains(x) {
        let i = choose|i: int| 0 <= i < s.push(a).len() && s.push(a)[i] == x;
        if i < s.len() {
            assert(s[i] == x);
        }
    }
}

/// Some cell of `scanned` holds symbol `id`.
spec fn occurs_in(scanned: Seq<GameCell>, id: u32) -> bool {
    exists|k: int| 0 <= k < scanned.len() && #[trigger] scanned[k].id == id
}

proof fn lemma_occurs_drop_last(scanned: Seq<GameCell>, x: u32)
    requires
        scanned.len() > 0,
    ensures
        occurs_in(scanned, x) <==> (occurs_in(scanned.drop_last(), x) || scanned.last().id == x),
{
    if occurs_in(scanned, x) {
        let k = choose|k: int| 0 <= k < scanned.len() && #[trigger] scanned[k].id == x;
        if k < scanned.len() - 1 {
            assert(scanned.drop_last()[k].id == x);
        }
    }
    if occurs_in(scanned.drop_last(), x) {
        let k = choose|k: int| 0 <= k < scanned.drop_last().len() && #[trigger] scanned.drop_last()[k].id == x;
        assert(scanned[k].id == x);
    }
    if scanned.last().id == x {
        assert(scanned[scanned.len() - 1].id == x);
    }
}

proof fn lemma_winners_in_order(cells: Seq<GameCell>, scanned: Seq<GameCell>)
    ensures
        winners_in_order(cells, scanned).no_duplicates(),
        forall|id: u32|
            #[trigger] winners_in_order(cells, scanned).contains(id) <==> (is_winning_id(cells, id)
                && occurs_in(scanned, id)),
    decreases scanned.len(),
{
    if scanned.len() > 0 {
        let prev = winners_in_order(cells, scanned.drop_last());
        let cur = winners_in_order(cells, scanned);
        lemma_winners_in_order(cells, scanned.drop_last());
        let id = scanned.last().id;
        assert forall|x: u32|
            #[trigger] cur.contains(x) <==> (is_winning_id(cells, x) && occurs_in(scanned, x)) by {
            lemma_occurs_drop_last(scanned, x);
            if is_winning_id(cells, id) && !prev.contains(id) {
                lemma_push_contains(prev, id, x);
            }
        }
        if is_winning_id(cells, id) && !prev.contains(id) {
            assert forall|i: int, j: int|
                0 <= i < cur.len() && 0 <= j < cur.len() && i != j implies cur[i] != cur[j] by {
                if i == prev.len() {
                    assert(prev[j] == cur[j]);
                } else if j == prev.len() {
                    assert(prev[i] == cur[i]);
                } else {
                    assert(prev[i] == cur[i] && prev[j] == cur[j]);
                }
            }
        }
    } else {
        assert forall|x: u32|
            #[trigger] winners_in_order(cells, scanned).contains(x) <==> (is_winning_id(cells, x)
                && occurs_in(scanned, x)) by {
        }
    }
}

/// The paying symbols of a grid are exactly the symbols other than bombs
/// and scatters that fill at least `WIN_THRESHOLD` cells, each listed once.
pub proof fn winning_ids_exact(cells: Seq<GameCell>)
    ensures
        winning_ids(cells).no_duplicates(),
        forall|id: u32| #[trigger] winning_ids(cells).contains(id) <==> is_winning_id(cells, id),
        !winning_ids(cells).contains(SCATTER_ID),
        !winning_ids(cells).contains(crate::symbols::BOMB_ID),
{
    lemma_winners_in_order(cells, cells);
    assert forall|id: u32| #[trigger] winning_ids(cells).contains(id) <==> is_winning_id(cells, id) by {
        if is_winning_id(cells, id) {
            lemma_count_positive(cells, id);
        }
    }
}

/// Over a whole round, cascades never lower the number of scatters: the
/// final grid holds at least as many as the starting grid, and it has the
/// starting grid's shape.
pub proof fn round_keeps_scatters(
    initial: Seq<Seq<GameCell>>,
    bet: Amount,
    is_bonus: bool,
    steps: Seq<CascadeStep>,
)
    requires
        shape_ok(initial),
        cascade_chain(initial, bet, is_bonus, steps),
    ensures
        scatter_count(grid_cells(final_grid(initial, steps))) >= scatter_count(grid_cells(initial)),
        shape_ok(final_grid(initial, steps)),
        same_shape(initial, final_grid(initial, steps)),
    decreases steps.len(),
{
    if steps.len() > 0 {
        let prefix = steps.drop_last();
        assert forall|i: int| 0 <= i < prefix.len() implies step_valid(
            grid_before_step(initial, prefix, i),
            bet,
            is_bonus,
            #[trigger] prefix[i],
        ) by {
            assert(prefix[i] == steps[i]);
            if i > 0 {
                assert(prefix[i - 1] == steps[i - 1]);
            }
            assert(step_valid(grid_before_step(initial, steps, i), bet, is_bonus, steps[i]));
        }
        round_keeps_scatters(initial, bet, is_bonus, prefix);
        let n = steps.len() - 1;
        assert(step_valid(grid_before_step(initial, steps, n), bet, is_bonus, steps[n]));
        if n > 0 {
            assert(prefix[n - 1] == steps[n - 1]);
        }
        assert(grid_before_step(initial, steps, n) == final_grid(initial, prefix));
        let g = final_grid(initial, prefix);
        winning_ids_exact(grid_cells(g));
        let h = crate::payout::grid_view(steps[n].grid);
        gravity_keeps_scatters(g, steps[n].winning_ids@, is_bonus, h);
        assert(same_shape(g, h));
        assert forall|r: int| 0 <= r < initial.len() implies #[trigger] initial[r].len() == h[r].len() by {
            assert(initial[r].len() == g[r].len());
            assert(g[r].len() == h[r].len());
        }
        assert(final_grid(initial, steps) == h);
    }
}

/// When no symbol pays, a grid wins exactly zero, whatever the bet.
pub proof fn no_winners_no_win(cells: Seq<GameCell>, bet: Amount)
    ensures
        win_total(cells, Seq::<u32>::empty(), bet) == Some(whole(0)),
    decreases cells.len(),
{
    if cells.len() > 0 {
        no_winners_no_win(cells.drop_last(), bet);
    }
}

/// Reading the token of a `Bearer <token>` header gives back the token:
/// the header starts with the scheme and what follows it is the token.
pub proof fn bearer_token_round_trip(token: Seq<char>)
    ensures
        starts_with(bearer_prefix() + token, bearer_prefix()),
        (bearer_prefix() + token).skip(bearer_prefix().len() as int) == token,
{
    assert((bearer_prefix() + token).subrange(0, bearer_prefix().len() as int) =~= bearer_prefix());
    assert((bearer_prefix() + token).skip(bearer_prefix().len() as int) =~= token);
}

proof fn lemma_kept_origin(col: Seq<GameCell>, winners: Seq<u32>)
    ensures
        forall|i: int|
            0 <= i < kept_cells(col, winners).len() ==> exists|j: int|
                0 <= j < col.len() && !winners.contains(col[j].id) && #[trigger] kept_cells(
                    col,
                    winners,
                )[i] == settled(col[j]),
        forall|j: int|
            0 <= j < col.len() && !winners.contains(#[trigger] col[j].id) ==> exists|i: int|
                0 <= i < kept_cells(col, winners).len() && kept_cells(col, winners)[i] == settled(
                    col[j],
                ),
    decreases col.len(),
{
    if col.len() > 0 {
        let prev = kept_cells(col.drop_last(), winners);
        let cur = kept_cells(col, winners);
        lemma_kept_origin(col.drop_last(), winners);
        let n = col.len() - 1;
        assert forall|i: int| 0 <= i < cur.len() implies exists|j: int|
            0 <= j < col.len() && !winners.contains(col[j].id) && #[trigger] cur[i] == settled(col[j]) by {
            if i < prev.len() {
                assert(cur[i] == prev[i]);
                let j = choose|j: int|
                    0 <= j < col.drop_last().len() && !winners.contains(col.drop_last()[j].id)
                        && #[trigger] prev[i] == settled(col.drop_last()[j]);
                assert(col.drop_last()[j] == col[j]);
            } else {
                assert(cur[i] == settled(col[n]));
            }
        }
        assert forall|j: int| 0 <= j < col.len() && !winners.contains(#[trigger] col[j].id) implies exists|i: int|
            0 <= i < cur.len() && cur[i] == settled(col[j]) by {
            if j < n {
                assert(col.drop_last()[j] == col[j]);
                assert(!winners.contains(col.drop_last()[j].id));
                let i = choose|i: int| 0 <= i < prev.len() && prev[i] == settled(col.drop_last()[j]);
                assert(cur[i] == prev[i]);
            } else {
                assert(cur[prev.len() as int] == settled(col[n]));
            }
        }
    }
}

/// What one cascade does to the window cells: each cell of the new grid is
/// either a new random cell or, settled, a cell of the same column of the
/// old grid whose symbol did not pay; and every cell of the old grid whose
/// symbol did not pay is still in its column, settled (same symbol,
/// multiplier and identifier).
pub proof fn gravity_moves_cells(g: Seq<Seq<GameCell>>, winners: Seq<u32>, is_bonus: bool, h: Seq<Seq<GameCell>>)
    requires
        shape_ok(g),
        gravity_outcome(g, winners, is_bonus, h),
    ensures
        forall|r: int, c: int|
            #![trigger h[r][c]]
            in_window(r, c) ==> fresh_cell(h[r][c], is_bonus) || exists|r2: int|
                0 <= r2 < GRID_ROWS && !winners.contains(g[r2][c].id) && h[r][c] == settled(
                    #[trigger] g[r2][c],
                ),
        forall|r: int, c: int|
            #![trigger g[r][c]]
            in_window(r, c) && !winners.contains(g[r][c].id) ==> exists|r2: int|
                0 <= r2 < GRID_ROWS && #[trigger] h[r2][c] == settled(g[r][c]),
{
    assert forall|r: int, c: int| #![trigger h[r][c]] in_window(r, c) implies fresh_cell(h[r][c], is_bonus)
        || exists|r2: int|
        0 <= r2 < GRID_ROWS && !winners.contains(g[r2][c].id) && h[r][c] == settled(#[trigger] g[r2][c]) by {
        let col = column_bottom_up(g, c);
        let kept = kept_cells(col, winners);
        lemma_kept_origin(col, winners);
        let i = GRID_ROWS - 1 - r;
        if i < kept.len() {
            let j = choose|j: int| 0 <= j < col.len() && !winners.contains(col[j].id) && #[trigger] kept[i] == settled(col[j]);
            assert(col[j] == g[GRID_ROWS - 1 - j][c]);
        }
    }
    assert forall|r: int, c: int| #![trigger g[r][c]] in_window(r, c) && !winners.contains(g[r][c].id) implies exists|r2: int|
        0 <= r2 < GRID_ROWS && #[trigger] h[r2][c] == settled(g[r][c]) by {
        let col = column_bottom_up(g, c);
        let kept = kept_cells(col, winners);
        lemma_kept_origin(col, winners);
        let j = GRID_ROWS - 1 - r;
        assert(col[j] == g[r][c]);
        let i = choose|i: int| 0 <= i < kept.len() && kept[i] == settled(col[j]);
        crate::gravity::lemma_kept_len(col, winners);
        let r2 = GRID_ROWS - 1 - i;
        assert(in_window(r2, c));
        assert(h[r2][c] == kept[i]);
    }
}

proof fn lemma_chain_prefix(
    initial: Seq<Seq<GameCell>>,
    bet: Amount,
    is_bonus: bool,
    steps: Seq<CascadeStep>,
    i: int,
)
    requires
        cascade_chain(initial, bet, is_bonus, steps),
        0 <= i <= steps.len(),
    ensures
        cascade_chain(initial, bet, is_bonus, steps.take(i)),
        final_grid(initial, steps.take(i)) == grid_before_step(initial, steps, i),
{
    let prefix = steps.take(i);
    assert forall|k: int| 0 <= k < prefix.len() implies step_valid(
        grid_before_step(initial, prefix, k),
        bet,
        is_bonus,
        #[trigger] prefix[k],
    ) by {
        assert(prefix[k] == steps[k]);
        if k > 0 {
            assert(prefix[k - 1] == steps[k - 1]);
        }
        assert(step_valid(grid_before_step(initial, steps, k), bet, is_bonus, steps[k]));
    }
    if i > 0 {
        assert(prefix[i - 1] == steps[i - 1]);
    }
}

/// Every cascade of a round that starts on a grid holding the window: the
/// grid before it holds the window and the grid after it has the shape of
/// the grid before it and of the starting grid; every window cell after it is new or a carried-over cell whose
/// symbol did not pay; every cell whose symbol did not pay, scatters and
/// bombs included, is carried over; and the scatters do not decrease.
pub proof fn cascade_step_keeps_cells(
    initial: Seq<Seq<GameCell>>,
    bet: Amount,
    is_bonus: bool,
    steps: Seq<CascadeStep>,
    i: int,
)
    requires
        shape_ok(initial),
        cascade_chain(initial, bet, is_bonus, steps),
        0 <= i < steps.len(),
    ensures
        ({
            let g = grid_before_step(initial, steps, i);
            let h = grid_before_step(initial, steps, i + 1);
            let w = steps[i].winning_ids@;
            &&& shape_ok(g)
            &&& shape_ok(h)
            &&& same_shape(g, h)
            &&& same_shape(initial, h)
            &&& !w.contains(SCATTER_ID)
            &&& !w.contains(crate::symbols::BOMB_ID)
            &&& forall|r: int, c: int|
                #![trigger h[r][c]]
                in_window(r, c) ==> fresh_cell(h[r][c], is_bonus) || exists|r2: int|
                    0 <= r2 < GRID_ROWS && !w.contains(g[r2][c].id) && h[r][c] == settled(
                        #[trigger] g[r2][c],
                    )
            &&& forall|r: int, c: int|
                #![trigger g[r][c]]
                in_window(r, c) && !w.contains(g[r][c].id) ==> exists|r2: int|
                    0 <= r2 < GRID_ROWS && #[trigger] h[r2][c] == settled(g[r][c])
            &&& scatter_count(grid_cells(h)) >= scatter_count(grid_cells(g))
        }),
{
    lemma_chain_prefix(initial, bet, is_bonus, steps, i);
    lemma_chain_prefix(initial, bet, is_bonus, steps, i + 1);
    round_keeps_scatters(initial, bet, is_bonus, steps.take(i));
    round_keeps_scatters(initial, bet, is_bonus, steps.take(i + 1));
    let g = grid_before_step(initial, steps, i);
    let h = grid_before_step(initial, steps, i + 1);
    assert(step_valid(g, bet, is_bonus, steps[i]));
    assert(h == crate::payout::grid_view(steps[i].grid));
    winning_ids_exact(grid_cells(g));
    gravity_keeps_scatters(g, steps[i].winning_ids@, is_bonus, h);
    gravity_moves_cells(g, steps[i].winning_ids@, is_bonus, h);
}

proof fn lemma_id_count_concat(a: Seq<GameCell>, b: Seq<GameCell>, id: u32)
    ensures
        id_count(a + b, id) == id_count(a, id) + id_count(b, id),
    decreases b.len(),
{
    if b.len() == 0 {
        assert(a + b =~= a);
    } else {
        assert((a + b).drop_last() =~= a + b.drop_last());
        lemma_id_count_concat(a, b.drop_last(), id);
    }
}

proof fn lemma_id_count_remove(b: Seq<GameCell>, k: int, id: u32)
    requires
        0 <= k < b.len(),
    ensures
        id_count(b, id) == id_count(b.remove(k), id) + if b[k].id == id { 1int } else { 0int },
{
    let one = seq![b[k]];
    assert(b =~= b.take(k) + one + b.skip(k + 1));
    assert(b.remove(k) =~= b.take(k) + b.skip(k + 1));
    lemma_id_count_concat(b.take(k) + one, b.skip(k + 1), id);
    lemma_id_count_concat(b.take(k), one, id);
    lemma_id_count_concat(b.take(k), b.skip(k + 1), id);
    assert(one.drop_last() =~= Seq::<GameCell>::empty());
    assert(one.last() == b[k]);
    assert(id_count(one.drop_last(), id) == 0);
    assert(id_count(one, id) == if b[k].id == id { 1int } else { 0int });
}

proof fn lemma_id_count_permutation(a: Seq<GameCell>, b: Seq<GameCell>, id: u32)
    requires
        a.to_multiset() =~= b.to_multiset(),
    ensures
        id_count(a, id) == id_count(b, id),
    decreases a.len(),
{
    broadcast use vstd::seq_lib::group_to_multiset_ensures;
    broadcast use vstd::multiset::group_multiset_axioms;

    if a.len() == 0 {
        assert(b.to_multiset().len() == 0);
        assert(b.len() == 0);
    } else {
        let x = a.last();
        let rest = a.drop_last();
        assert(a =~= rest.push(x));
        assert(a.to_multiset() =~= rest.to_multiset().insert(x));
        assert(b.to_multiset().count(x) > 0);
        assert(b.contains(x));
        let k = choose|k: int| 0 <= k < b.len() && b[k] == x;
        assert(b.remove(k).to_multiset() =~= b.to_multiset().remove(x));
        assert(rest.to_multiset() =~= b.remove(k).to_multiset());
        lemma_id_count_permutation(rest, b.remove(k), id);
        lemma_id_count_remove(b, k, id);
    }
}

/// Wins pay anywhere: rearranging the cells of a grid (the same cells, each
/// as often, in any order) leaves the set of paying symbols unchanged.
pub proof fn winning_ids_ignore_order(a: Seq<GameCell>, b: Seq<GameCell>)
    requires
        a.to_multiset() =~= b.to_multiset(),
    ensures
        forall|id: u32| #[trigger] winning_ids(a).contains(id) <==> winning_ids(b).contains(id),
{
    winning_ids_exact(a);
    winning_ids_exact(b);
    assert forall|id: u32| #[trigger] winning_ids(a).contains(id) <==> winning_ids(b).contains(id) by {
        lemma_id_count_permutation(a, b, id);
    }
}

/// The symbol table, entry by entry: scatter 10 pays 100 (weight 2),
/// heart 9 pays 50 (4), purple 8 pays 25 (6), green 7 pays 15 (8), blue 6
/// pays 12 (10), apple 5 pays 10 (12), watermelon 3 pays 5 (16), grape 2
/// pays 4 (18), banana 1 pays 2 (20); the weights add up to 96.
pub proof fn symbol_table_entries()
    ensures
        symbol_table().len() == 9,
        symbol_table()[0] == (SymbolConfig { id: 10, value: Amount { mantissa: 100, scale: 0 }, weight: 2 }),
        symbol_table()[1] == (SymbolConfig { id: 9, value: Amount { mantissa: 50, scale: 0 }, weight: 4 }),
        symbol_table()[2] == (SymbolConfig { id: 8, value: Amount { mantissa: 25, scale: 0 }, weight: 6 }),
        symbol_table()[3] == (SymbolConfig { id: 7, value: Amount { mantissa: 15, scale: 0 }, weight: 8 }),
        symbol_table()[4] == (SymbolConfig { id: 6, value: Amount { mantissa: 12, scale: 0 }, weight: 10 }),
        symbol_table()[5] == (SymbolConfig { id: 5, value: Amount { mantissa: 10, scale: 0 }, weight: 12 }),
        symbol_table()[6] == (SymbolConfig { id: 3, value: Amount { mantissa: 5, scale: 0 }, weight: 16 }),
        symbol_table()[7] == (SymbolConfig { id: 2, value: Amount { mantissa: 4, scale: 0 }, weight: 18 }),
        symbol_table()[8] == (SymbolConfig { id: 1, value: Amount { mantissa: 2, scale: 0 }, weight: 20 }),
        weight_sum(symbol_table()) == 96,
{
    reveal_with_fuel(weight_sum, 10);
}

/// What one cell of each symbol pays per tenth of the bet: the table's
/// value for its symbol, and zero for the bomb and for symbols not in the
/// table.
pub proof fn symbol_values()
    ensures
        symbol_value(10) == (Amount { mantissa: 100, scale: 0 }),
        symbol_value(9) == (Amount { mantissa: 50, scale: 0 }),
        symbol_value(8) == (Amount { mantissa: 25, scale: 0 }),
        symbol_value(7) == (Amount { mantissa: 15, scale: 0 }),
        symbol_value(6) == (Amount { mantissa: 12, scale: 0 }),
        symbol_value(5) == (Amount { mantissa: 10, scale: 0 }),
        symbol_value(3) == (Amount { mantissa: 5, scale: 0 }),
        symbol_value(2) == (Amount { mantissa: 4, scale: 0 }),
        symbol_value(1) == (Amount { mantissa: 2, scale: 0 }),
        symbol_value(4) == (Amount { mantissa: 0, scale: 0 }),
        symbol_value(BOMB_ID) == (Amount { mantissa: 0, scale: 0 }),
        symbol_value(0) == (Amount { mantissa: 0, scale: 0 }),
{
    reveal_with_fuel(table_value, 10);
}

/// The win of no cells is zero.
pub proof fn no_cells_win_zero(winners: Seq<u32>, bet: Amount)
    ensures
        win_total(Seq::<GameCell>::empty(), winners, bet) == Some(Amount { mantissa: 0, scale: 0 }),
{
}

/// Every cell whose symbol is among the paying symbols pays: adding such a
/// cell adds `value(symbol) * (bet / 10)` to the win, with rust_decimal's
/// arithmetic (and the win overflows when one of these operations does).
pub proof fn paying_cell_pays(cells: Seq<GameCell>, cell: GameCell, winners: Seq<u32>, bet: Amount)
    requires
        winners.contains(cell.id),
    ensures
        win_total(cells.push(cell), winners, bet) == match win_total(cells, winners, bet) {
            None => None,
            Some(acc) => match amount_div(bet, Amount { mantissa: 10, scale: 0 }) {
                None => None,
                Some(unit) => match amount_mul(symbol_value(cell.id), unit) {
                    None => None,
                    Some(part) => amount_add(acc, part),
                },
            },
        },
{
    assert(cells.push(cell).drop_last() =~= cells);
}

/// A cell whose symbol does not pay adds nothing to the win.
pub proof fn unpaid_cell_adds_nothing(cells: Seq<GameCell>, cell: GameCell, winners: Seq<u32>, bet: Amount)
    requires
        !winners.contains(cell.id),
    ensures
        win_total(cells.push(cell), winners, bet) == win_total(cells, winners, bet),
{
    assert(cells.push(cell).drop_last() =~= cells);
}

/// The total of a completed round is the sum of its cascade wins times the
/// sum of the bomb multipliers of the starting grid when there are any,
/// and that sum itself otherwise.
pub proof fn round_total_is_raw_times_multiplier(
    initial: Seq<Seq<GameCell>>,
    bet: Amount,
    is_bonus: bool,
    res: SpinResult,
)
    requires
        round_valid(initial, bet, is_bonus, res),
    ensures
        res.total_multiplier as int == multiplier_sum(grid_cells(initial)),
        raw_total(res.cascades@) is Some,
        res.total_multiplier > 0 ==> amount_mul(
            raw_total(res.cascades@)->Some_0,
            Amount { mantissa: res.total_multiplier as i128, scale: 0 },
        ) == Some(res.total_win),
        res.total_multiplier == 0 ==> raw_total(res.cascades@) == Some(res.total_win),
{
}

} // verus!
