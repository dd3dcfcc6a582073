//! Counting symbols on a grid and paying the winning ones.
use vstd::prelude::*;
use std::collections::HashMap;
use crate::amount::{Amount, amount_add, amount_div, amount_mul, whole};
use crate::symbols::{
    BOMB_ID, SCATTER_ID, WIN_THRESHOLD, GameCell, SymbolConfig, get_symbols_config, symbol_table,
};

verus! {

broadcast use vstd::std_specs::hash::group_hash_axioms;

/// The grid as rows of cells.
pub open spec fn grid_view(grid: Vec<Vec<GameCell>>) -> Seq<Seq<GameCell>> {
    grid@.map_values(|row: Vec<GameCell>| row@)
}

/// The cells of a grid, row after row.
pub open spec fn grid_cells(g: Seq<Seq<GameCell>>) -> Seq<GameCell> {
    g.flatten()
}

/// Symbols that can pay by count: everything but bombs and scatters.
pub open spec fn counts_toward_win(id: u32) -> bool {
    id != BOMB_ID && id != SCATTER_ID
}

/// How many cells hold symbol `id`.
pub open spec fn id_count(cells: Seq<GameCell>, id: u32) -> nat
    decreases cells.len(),
{
    if cells.len() == 0 {
        0
    } else {
        id_count(cells.drop_last(), id) + if cells.last().id == id { 1nat } else { 0nat }
    }
}

/// Symbol `id` pays: it counts toward wins and fills at least
/// `WIN_THRESHOLD` cells.
pub open spec fn is_winning_id(cells: Seq<GameCell>, id: u32) -> bool {
    counts_toward_win(id) && id_count(cells, id) >= WIN_THRESHOLD
}

/// The paying symbols of `cells` that occur in `scanned`, each once, in the
/// order of their first occurrence.
pub open spec fn winners_in_order(cells: Seq<GameCell>, scanned: Seq<GameCell>) -> Seq<u32>
    decreases scanned.len(),
{
    if scanned.len() == 0 {
        Seq::empty()
    } else {
        let prev = winners_in_order(cells, scanned.drop_last());
        let id = scanned.last().id;
        if is_winning_id(cells, id) && !prev.contains(id) {
            prev.push(id)
        } else {
            prev
        }
    }
}

/// The paying symbols of a grid's cells, in order of first occurrence.
pub open spec fn winning_ids(cells: Seq<GameCell>) -> Seq<u32> {
    winners_in_order(cells, cells)
}

/// The value of the first table entry for `id`; zero when there is none.
pub open spec fn table_value(table: Seq<SymbolConfig>, id: u32) -> Amount
    decreases table.len(),
{
    if table.len() == 0 {
        whole(0)
    } else if table[0].id == id {
        table[0].value
    } else {
        table_value(table.drop_first(), id)
    }
}

/// The value one cell of symbol `id` pays per tenth of the bet.
pub open spec fn symbol_value(id: u32) -> Amount {
    table_value(symbol_table(), id)
}

/// The win of the cells in `scanned`: each cell whose symbol is among
/// `winners` adds `value * (bet / 10)`, accumulated from zero in cell
/// order with rust_decimal's arithmetic; `None` as soon as an operation
/// overflows.
pub open spec fn win_total(scanned: Seq<GameCell>, winners: Seq<u32>, bet: Amount) -> Option<Amount>
    decreases scanned.len(),
{
    if scanned.len() == 0 {
        Some(whole(0))
    } else {
        match win_total(scanned.drop_last(), winners, bet) {
            None => None,
            Some(acc) => if winners.contains(scanned.last().id) {
                match amount_div(bet, whole(10)) {
                    None => None,
                    Some(unit) => match amount_mul(symbol_value(scanned.last().id), unit) {
                        None => None,
                        Some(part) => amount_add(acc, part),
                    },
                }
            } else {
                Some(acc)
            },
        }
    }
}

/// How many cells hold a scatter.
pub open spec fn scatter_count(cells: Seq<GameCell>) -> nat
    decreases cells.len(),
{
    if cells.len() == 0 {
        0
    } else {
        scatter_count(cells.drop_last()) + if cells.last().id == SCATTER_ID { 1nat } else { 0nat }
    }
}

/// The sum of the multipliers of the bombs among the cells (a bomb without
/// multiplier adds 0).
pub open spec fn multiplier_sum(cells: Seq<GameCell>) -> nat
    decreases cells.len(),
{
    if cells.len() == 0 {
        0
    } else {
        multiplier_sum(cells.drop_last()) + if cells.last().id == BOMB_ID {
            match cells.last().multiplier {
                Some(m) => m as nat,
                None => 0nat,
            }
        } else {
            0nat
        }
    }
}

proof fn lemma_id_count_bound(cells: Seq<GameCell>, id: u32)
    ensures
        id_count(cells, id) <= cells.len(),
    decreases cells.len(),
{
    if cells.len() > 0 {
        lemma_id_count_bound(cells.drop_last(), id);
    }
}

proof fn lemma_win_total_none(cells: Seq<GameCell>, winners: Seq<u32>, bet: Amount, i: int)
    requires
        0 <= i <= cells.len(),
        win_total(cells.take(i), winners, bet) is None,
    ensures
        win_total(cells, winners, bet) is None,
    decreases cells.len() - i,
{
    if i < cells.len() {
        assert(cells.take(i + 1).drop_last() =~= cells.take(i));
        lemma_win_total_none(cells, winners, bet, i + 1);
    } else {
        assert(cells.take(i) =~= cells);
    }
}

/// The cells of the grid, row after row, as copies.
pub fn flatten_grid(grid: &Vec<Vec<GameCell>>) -> (cells: Vec<GameCell>)
    ensures
        cells@ == grid_cells(grid_view(*grid)),
{
    let ghost g = grid_view(*grid);
    let mut cells: Vec<GameCell> = Vec::new();
    let mut r: usize = 0;
    while r < grid.len()
        invariant
            g == grid_view(*grid),
            r <= g.len(),
            cells@ == g.take(r as int).flatten(),
        decreases g.len() - r,
    {
        let row = &grid[r];
        assert(row@ == g[r as int]);
        let mut c: usize = 0;
        while c < row.len()
            invariant
                g == grid_view(*grid),
                r < g.len(),
                row@ == g[r as int],
                c <= row@.len(),
                cells@ == g.take(r as int).flatten() + row@.take(c as int),
            decreases row@.len() - c,
        {
            cells.push(row[c].clone());
            assert(row@.take(c + 1) =~= row@.take(c as int).push(row@[c as int]));
            assert(cells@ =~= g.take(r as int).flatten() + row@.take(c + 1));
            c = c + 1;
        }
        proof {
            assert(row@.take(c as int) =~= row@);
            assert(g.take(r + 1) =~= g.take(r as int).push(g[r as int]));
            g.take(r as int).lemma_flatten_push(g[r as int]);
        }
        r = r + 1;
    }
    assert(g.take(r as int) =~= g);
    cells
}

/// `ids` contains `id`.
pub fn contains_id(ids: &Vec<u32>, id: u32) -> (found: bool)
    ensures
        found == ids@.contains(id),
{
    let mut i: usize = 0;
    while i < ids.len()
        invariant
            i <= ids@.len(),
            forall|j: int| 0 <= j < i ==> ids@[j] != id,
        decreases ids@.len() - i,
    {
        if ids[i] == id {
            return true;
        }
        i = i + 1;
    }
    false
}

/// Occurrences of each symbol that counts toward wins.
pub fn count_symbols(cells: &Vec<GameCell>) -> (counts: HashMap<u32, usize>)
    ensures
        forall|id: u32| #[trigger] counts@.contains_key(id)
            <==> (counts_toward_win(id) && id_count(cells@, id) > 0),
        forall|id: u32| #[trigger] counts@.contains_key(id) ==> counts@[id] == id_count(cells@, id),
{
    let mut counts: HashMap<u32, usize> = HashMap::new();
    let mut i: usize = 0;
    while i < cells.len()
        invariant
            i <= cells@.len(),
            forall|id: u32| #[trigger] counts@.contains_key(id)
                <==> (counts_toward_win(id) && id_count(cells@.take(i as int), id) > 0),
            forall|id: u32| #[trigger] counts@.contains_key(id)
                ==> counts@[id] == id_count(cells@.take(i as int), id),
        decreases cells@.len() - i,
    {
        let id = cells[i].id;
        proof {
            assert(cells@.take(i + 1).drop_last() =~= cells@.take(i as int));
            lemma_id_count_bound(cells@.take(i as int), id);
        }
        if id != BOMB_ID && id != SCATTER_ID {
            let n: usize = match counts.get(&id) {
                Some(n) => *n,
                None => 0,
            };
            counts.insert(id, n + 1);
        }
        i = i + 1;
    }
    assert(cells@.take(i as int) =~= cells@);
    counts
}

/// The paying symbols, each once, in order of first occurrence.
pub fn find_winning_ids(cells: &Vec<GameCell>, counts: &HashMap<u32, usize>) -> (winners: Vec<u32>)
    requires
        forall|id: u32| #[trigger] counts@.contains_key(id)
            <==> (counts_toward_win(id) && id_count(cells@, id) > 0),
        forall|id: u32| #[trigger] counts@.contains_key(id) ==> counts@[id] == id_count(cells@, id),
    ensures
        winners@ == winning_ids(cells@),
{
    let mut winners: Vec<u32> = Vec::new();
    let mut i: usize = 0;
    while i < cells.len()
        invariant
            i <= cells@.len(),
            forall|id: u32| #[trigger] counts@.contains_key(id)
                <==> (counts_toward_win(id) && id_count(cells@, id) > 0),
            forall|id: u32| #[trigger] counts@.contains_key(id) ==> counts@[id] == id_count(cells@, id),
            winners@ == winners_in_order(cells@, cells@.take(i as int)),
        decreases cells@.len() - i,
    {
        let id = cells[i].id;
        proof {
            assert(cells@.take(i + 1).drop_last() =~= cells@.take(i as int));
        }
        let pays: bool = match counts.get(&id) {
            Some(n) => *n >= WIN_THRESHOLD,
            None => false,
        };
        if pays && !contains_id(&winners, id) {
            winners.push(id);
        }
        i = i + 1;
    }
    assert(cells@.take(i as int) =~= cells@);
    winners
}

/// The value of the first entry for `id`, zero when there is none
/// (`config.iter().find(..).map(|s| s.value).unwrap_or(dec!(0))`).
pub fn value_of_symbol(config: &Vec<SymbolConfig>, id: u32) -> (value: Amount)
    requires
        forall|j: int| 0 <= j < config@.len() ==> (#[trigger] config@[j]).value.wf(),
    ensures
        value == table_value(config@, id),
        value.wf(),
{
    let mut i: usize = 0;
    assert(config@.skip(0) =~= config@);
    while i < config.len()
        invariant
            i <= config@.len(),
            forall|j: int| 0 <= j < config@.len() ==> (#[trigger] config@[j]).value.wf(),
            table_value(config@, id) == table_value(config@.skip(i as int), id),
        decreases config@.len() - i,
    {
        let sym = config[i];
        assert(config@.skip(i as int)[0] == sym);
        if sym.id == id {
            return sym.value;
        }
        assert(config@.skip(i as int).drop_first() =~= config@.skip(i + 1));
        i = i + 1;
    }
    Amount::zero()
}

/// The win of the cells whose symbol is among `winners`: `value * (bet / 10)`
/// per cell, added up in cell order; `None` where rust_decimal overflows.
pub fn win_amount(cells: &Vec<GameCell>, winners: &Vec<u32>, bet: Amount) -> (win: Option<Amount>)
    requires
        bet.wf(),
    ensures
        win == win_total(cells@, winners@, bet),
        win matches Some(w) ==> w.wf(),
{
    let config = get_symbols_config();
    assert forall|j: int| 0 <= j < config@.len() implies (#[trigger] config@[j]).value.wf() by {
        assert(config@[j] == symbol_table()[j]);
    }
    let ten = Amount::from_u32(10);
    let mut win = Amount::zero();
    let mut i: usize = 0;
    while i < cells.len()
        invariant
            i <= cells@.len(),
            config@ == symbol_table(),
            forall|j: int| 0 <= j < config@.len() ==> (#[trigger] config@[j]).value.wf(),
            bet.wf(),
            ten == whole(10),
            ten.wf(),
            win.wf(),
            win_total(cells@.take(i as int), winners@, bet) == Some(win),
        decreases cells@.len() - i,
    {
        let id = cells[i].id;
        proof {
            assert(cells@.take(i + 1).drop_last() =~= cells@.take(i as int));
            assert(cells@.take(i + 1).last() == cells@[i as int]);
        }
        if contains_id(winners, id) {
            let value = value_of_symbol(&config, id);
            let unit = match bet.checked_div(ten) {
                Some(u) => u,
                None => {
                    proof { lemma_win_total_none(cells@, winners@, bet, i + 1); }
                    return None;
                },
            };
            let part = match value.checked_mul(unit) {
                Some(p) => p,
                None => {
                    proof { lemma_win_total_none(cells@, winners@, bet, i + 1); }
                    return None;
                },
            };
            win = match win.checked_add(part) {
                Some(w) => w,
                None => {
                    proof { lemma_win_total_none(cells@, winners@, bet, i + 1); }
                    return None;
                },
            };
        }
        i = i + 1;
    }
    assert(cells@.take(i as int) =~= cells@);
    Some(win)
}

/// The paying symbols of the grid and what they win for `bet`; `None` where
/// computing the win overflows.
pub fn calculate_wins(grid: &Vec<Vec<GameCell>>, bet: Amount) -> (result: Option<(Vec<u32>, Amount)>)
    requires
        bet.wf(),
    ensures
        match result {
            Some((winners, win)) => {
                &&& winners@ == winning_ids(grid_cells(grid_view(*grid)))
                &&& win_total(grid_cells(grid_view(*grid)), winners@, bet) == Some(win)
                &&& win.wf()
            },
            None => win_total(
                grid_cells(grid_view(*grid)),
                winning_ids(grid_cells(grid_view(*grid))),
                bet,
            ) is None,
        },
{
    let cells = flatten_grid(grid);
    let counts = count_symbols(&cells);
    let winners = find_winning_ids(&cells, &counts);
    match win_amount(&cells, &winners, bet) {
        Some(win) => Some((winners, win)),
        None => None,
    }
}

/// How many cells of the grid hold a scatter.
pub fn count_scatters(grid: &Vec<Vec<GameCell>>) -> (n: usize)
    ensures
        n == scatter_count(grid_cells(grid_view(*grid))),
{
    let cells = flatten_grid(grid);
    let mut n: usize = 0;
    let mut i: usize = 0;
    while i < cells.len()
        invariant
            i <= cells@.len(),
            n == scatter_count(cells@.take(i as int)),
            n <= i,
        decreases cells@.len() - i,
    {
        proof {
            assert(cells@.take(i + 1).drop_last() =~= cells@.take(i as int));
        }
        if cells[i].id == SCATTER_ID {
            n = n + 1;
        }
        i = i + 1;
    }
    assert(cells@.take(i as int) =~= cells@);
    n
}

} // verus!
