//! A full round: pay the winning symbols, let the grid cascade, repeat until
//! nothing pays, then apply bomb multipliers and award free spins.
use vstd::prelude::*;
use crate::amount::{Amount, amount_add, amount_mul, whole};
use crate::gravity::{apply_gravity, gravity_outcome, shape_ok};
use crate::payout::{
    calculate_wins, count_scatters, flatten_grid, grid_cells, grid_view, multiplier_sum,
    scatter_count, win_total, winning_ids,
};
use crate::symbols::{BOMB_ID, GameCell};

verus! {

/// Scatters needed to win free spins.
pub const FREE_SPIN_SCATTERS: usize = 4;
/// Free spins awarded when enough scatters land.
pub const FREE_SPINS_AWARD: u32 = 10;

/// One cascade: the grid after the paying symbols fell away, which symbols
/// paid, and what they paid.
#[derive(Debug)]
pub struct CascadeStep {
    pub grid: Vec<Vec<GameCell>>,
    pub winning_ids: Vec<u32>,
    pub step_win: Amount,
}

/// The outcome of a round.
#[derive(Debug)]
pub struct SpinResult {
    pub initial_grid: Vec<Vec<GameCell>>,
    pub cascades: Vec<CascadeStep>,
    pub total_win: Amount,
    pub total_multiplier: u32,
    pub free_spins_won: u32,
}

/// Why a round could not be completed.
#[derive(Debug, Clone, Copy, PartialEq, Eq, Structural)]
pub enum RoundError {
    /// The bomb multipliers of the starting grid add up to more than `u32::MAX`.
    MultiplierOverflow,
    /// A win, the running total or the multiplied total exceeds the decimal range.
    AmountOverflow,
}

/// The grid a cascade step starts from: the starting grid for the first
/// step, the grid the previous step left otherwise.
pub open spec fn grid_before_step(initial: Seq<Seq<GameCell>>, steps: Seq<CascadeStep>, i: int) -> Seq<Seq<GameCell>> {
    if i == 0 {
        initial
    } else {
        grid_view(steps[i - 1].grid)
    }
}

/// The grid after all the steps.
pub open spec fn final_grid(initial: Seq<Seq<GameCell>>, steps: Seq<CascadeStep>) -> Seq<Seq<GameCell>> {
    grid_before_step(initial, steps, steps.len() as int)
}

/// A step from grid `g`: the paying symbols of `g` (at least one), their
/// win, and a grid that gravity can make of `g`.
pub open spec fn step_valid(g: Seq<Seq<GameCell>>, bet: Amount, is_bonus: bool, step: CascadeStep) -> bool {
    &&& step.winning_ids@ == winning_ids(grid_cells(g))
    &&& step.winning_ids@.len() > 0
    &&& win_total(grid_cells(g), step.winning_ids@, bet) == Some(step.step_win)
    &&& gravity_outcome(g, step.winning_ids@, is_bonus, grid_view(step.grid))
}

/// Every step follows from the grid before it.
pub open spec fn cascade_chain(initial: Seq<Seq<GameCell>>, bet: Amount, is_bonus: bool, steps: Seq<CascadeStep>) -> bool {
    forall|i: int|
        0 <= i < steps.len() ==> step_valid(grid_before_step(initial, steps, i), bet, is_bonus, #[trigger] steps[i])
}

/// The step wins added up from zero in order; `None` on overflow.
pub open spec fn raw_total(steps: Seq<CascadeStep>) -> Option<Amount>
    decreases steps.len(),
{
    if steps.len() == 0 {
        Some(whole(0))
    } else {
        match raw_total(steps.drop_last()) {
            None => None,
            Some(t) => amount_add(t, steps.last().step_win),
        }
    }
}

/// The raw win times the bomb multiplier when there is one.
pub open spec fn round_total_win(raw: Amount, multiplier: u32) -> Option<Amount> {
    if multiplier > 0 {
        amount_mul(raw, whole(multiplier as int))
    } else {
        Some(raw)
    }
}

/// Free spins for a number of scatters on the final grid.
pub open spec fn free_spins_for(scatters: nat) -> u32 {
    if scatters >= FREE_SPIN_SCATTERS {
        FREE_SPINS_AWARD
    } else {
        0
    }
}

/// `res` is a completed round from `initial`: its cascades follow one from
/// the other until nothing pays, the multiplier is the sum of the bombs of
/// the starting grid, the total is the summed step wins times that
/// multiplier, and free spins depend on the scatters of the final grid.
pub open spec fn round_valid(initial: Seq<Seq<GameCell>>, bet: Amount, is_bonus: bool, res: SpinResult) -> bool {
    &&& grid_view(res.initial_grid) == initial
    &&& cascade_chain(initial, bet, is_bonus, res.cascades@)
    &&& winning_ids(grid_cells(final_grid(initial, res.cascades@))).len() == 0
    &&& res.total_multiplier == multiplier_sum(grid_cells(initial))
    &&& (raw_total(res.cascades@) matches Some(raw) && round_total_win(raw, res.total_multiplier)
        == Some(res.total_win))
    &&& res.total_multiplier > 0 ==> (raw_total(res.cascades@) matches Some(raw) && amount_mul(
        raw,
        Amount { mantissa: res.total_multiplier as i128, scale: 0 },
    ) == Some(res.total_win))
    &&& res.total_multiplier == 0 ==> raw_total(res.cascades@) == Some(res.total_win)
    &&& res.free_spins_won == free_spins_for(
        scatter_count(grid_cells(final_grid(initial, res.cascades@))),
    )
}

/// After the valid `steps`, the next computation overflows: the win of the
/// grid they leave, adding it to the running total, or (when nothing pays
/// any more) applying the multiplier.
pub open spec fn overflow_after(
    initial: Seq<Seq<GameCell>>,
    bet: Amount,
    is_bonus: bool,
    steps: Seq<CascadeStep>,
    multiplier: u32,
) -> bool {
    &&& cascade_chain(initial, bet, is_bonus, steps)
    &&& raw_total(steps) matches Some(raw) && {
        let g = final_grid(initial, steps);
        let w = winning_ids(grid_cells(g));
        match win_total(grid_cells(g), w, bet) {
            None => true,
            Some(win) => if w.len() > 0 {
                amount_add(raw, win) is None
            } else {
                round_total_win(raw, multiplier) is None
            },
        }
    }
}

proof fn lemma_chain_push(
    initial: Seq<Seq<GameCell>>,
    bet: Amount,
    is_bonus: bool,
    steps: Seq<CascadeStep>,
    step: CascadeStep,
)
    requires
        cascade_chain(initial, bet, is_bonus, steps),
        step_valid(final_grid(initial, steps), bet, is_bonus, step),
    ensures
        cascade_chain(initial, bet, is_bonus, steps.push(step)),
        final_grid(initial, steps.push(step)) == grid_view(step.grid),
{
    let next = steps.push(step);
    assert forall|i: int| 0 <= i < next.len() implies step_valid(
        grid_before_step(initial, next, i),
        bet,
        is_bonus,
        #[trigger] next[i],
    ) by {
        if i < steps.len() {
            assert(next[i] == steps[i]);
            if i > 0 {
                assert(next[i - 1] == steps[i - 1]);
            }
            assert(grid_before_step(initial, next, i) == grid_before_step(initial, steps, i));
        } else {
            if i > 0 {
                assert(next[i - 1] == steps[i - 1]);
            }
            assert(grid_before_step(initial, next, i) == final_grid(initial, steps));
        }
    }
}

proof fn lemma_raw_total_push(steps: Seq<CascadeStep>, step: CascadeStep)
    ensures
        raw_total(steps.push(step)) == match raw_total(steps) {
            None => None,
            Some(t) => amount_add(t, step.step_win),
        },
{
    assert(steps.push(step).drop_last() =~= steps);
}

proof fn lemma_multiplier_sum_prefix(cells: Seq<GameCell>, i: int)
    requires
        0 <= i <= cells.len(),
    ensures
        multiplier_sum(cells.take(i)) <= multiplier_sum(cells),
    decreases cells.len() - i,
{
    if i < cells.len() {
        assert(cells.take(i + 1).drop_last() =~= cells.take(i));
        lemma_multiplier_sum_prefix(cells, i + 1);
    } else {
        assert(cells.take(i) =~= cells);
    }
}

/// The sum of the bomb multipliers of the cells, `None` when it exceeds
/// `u32::MAX`.
pub fn bomb_multiplier_total(cells: &Vec<GameCell>) -> (total: Option<u32>)
    ensures
        total == (if multiplier_sum(cells@) <= u32::MAX {
            Some(multiplier_sum(cells@) as u32)
        } else {
            None::<u32>
        }),
{
    let mut total: u32 = 0;
    let mut i: usize = 0;
    while i < cells.len()
        invariant
            i <= cells@.len(),
            total == multiplier_sum(cells@.take(i as int)),
        decreases cells@.len() - i,
    {
        proof {
            assert(cells@.take(i + 1).drop_last() =~= cells@.take(i as int));
        }
        if cells[i].id == BOMB_ID {
            let m: u32 = match cells[i].multiplier {
                Some(m) => m,
                None => 0,
            };
            total = match total.checked_add(m) {
                Some(t) => t,
                None => {
                    proof { lemma_multiplier_sum_prefix(cells@, i + 1); }
                    return None;
                },
            };
        }
        i = i + 1;
    }
    assert(cells@.take(i as int) =~= cells@);
    Some(total)
}

/// A copy of the grid, cell by cell.
pub fn copy_grid(grid: &Vec<Vec<GameCell>>) -> (copy: Vec<Vec<GameCell>>)
    ensures
        grid_view(copy) == grid_view(*grid),
{
    let mut copy: Vec<Vec<GameCell>> = Vec::new();
    let mut r: usize = 0;
    while r < grid.len()
        invariant
            r <= grid@.len(),
            copy@.len() == r,
            forall|i: int| 0 <= i < r ==> (#[trigger] copy@[i])@ == grid@[i]@,
        decreases grid@.len() - r,
    {
        let src = &grid[r];
        let mut row: Vec<GameCell> = Vec::new();
        let mut c: usize = 0;
        while c < src.len()
            invariant
                c <= src@.len(),
                row@ == src@.take(c as int),
            decreases src@.len() - c,
        {
            row.push(src[c].clone());
            assert(row@ =~= src@.take(c + 1));
            c = c + 1;
        }
        assert(row@ =~= src@);
        copy.push(row);
        r = r + 1;
    }
    assert(grid_view(copy) =~= grid_view(*grid));
    copy
}

/// Plays a round from `grid`: while some symbol fills at least
/// `WIN_THRESHOLD` cells, pay the paying symbols and let the grid cascade
/// (new cells are bonus cells when `is_bonus`); then multiply the summed
/// wins by the bombs of the starting grid and award free spins for four
/// scatters or more.
///
/// Where rust_decimal would overflow, or the multipliers exceed `u32`,
/// the round ends with an error.
pub fn process_full_round(grid: Vec<Vec<GameCell>>, bet: Amount, is_bonus: bool) -> (result: Result<SpinResult, RoundError>)
    requires
        bet.wf(),
        shape_ok(grid_view(grid)) || winning_ids(grid_cells(grid_view(grid))).len() == 0,
    ensures
        (result matches Err(RoundError::MultiplierOverflow)) <==> multiplier_sum(
            grid_cells(grid_view(grid)),
        ) > u32::MAX,
        result matches Ok(res) ==> round_valid(grid_view(grid), bet, is_bonus, res),
        result matches Err(RoundError::AmountOverflow) ==> {
            &&& multiplier_sum(grid_cells(grid_view(grid))) <= u32::MAX
            &&& exists|steps: Seq<CascadeStep>|
                #[trigger] overflow_after(
                    grid_view(grid),
                    bet,
                    is_bonus,
                    steps,
                    multiplier_sum(grid_cells(grid_view(grid))) as u32,
                )
        },
{
    let ghost initial = grid_view(grid);
    let initial_grid_state = copy_grid(&grid);
    let cells = flatten_grid(&grid);
    let total_multiplier = match bomb_multiplier_total(&cells) {
        Some(m) => m,
        None => return Err(RoundError::MultiplierOverflow),
    };
    let mut grid = grid;
    let mut cascades: Vec<CascadeStep> = Vec::new();
    let mut total_raw_win = Amount::zero();
    #[verifier::loop_isolation(false)]
    loop
        invariant
            bet.wf(),
            total_multiplier == multiplier_sum(grid_cells(initial)),
            grid_view(initial_grid_state) == initial,
            grid_view(grid) == final_grid(initial, cascades@),
            cascade_chain(initial, bet, is_bonus, cascades@),
            raw_total(cascades@) == Some(total_raw_win),
            total_raw_win.wf(),
            shape_ok(grid_view(grid)) || winning_ids(grid_cells(grid_view(grid))).len() == 0,
        decreases usize::MAX - cascades@.len(),
    {
        let ghost before = grid_view(grid);
        let (winners, win) = match calculate_wins(&grid, bet) {
            Some(found) => found,
            None => {
                assert(overflow_after(initial, bet, is_bonus, cascades@, total_multiplier));
                return Err(RoundError::AmountOverflow);
            },
        };
        if winners.len() == 0 {
            break;
        }
        total_raw_win = match total_raw_win.checked_add(win) {
            Some(t) => t,
            None => {
                assert(overflow_after(initial, bet, is_bonus, cascades@, total_multiplier));
                return Err(RoundError::AmountOverflow);
            },
        };
        grid = apply_gravity(grid, &winners, is_bonus);
        let step = CascadeStep { grid: copy_grid(&grid), winning_ids: winners, step_win: win };
        let ghost old_steps = cascades@;
        proof {
            lemma_chain_push(initial, bet, is_bonus, old_steps, step);
            lemma_raw_total_push(old_steps, step);
        }
        cascades.push(step);
        assert(cascades@.len() <= usize::MAX) by {
            assert(cascades.len() == cascades@.len());
        }
    }
    let scatters = count_scatters(&grid);
    let free_spins_won: u32 = if scatters >= FREE_SPIN_SCATTERS { FREE_SPINS_AWARD } else { 0 };
    let total_win = if total_multiplier > 0 {
        match total_raw_win.checked_mul(Amount::from_u32(total_multiplier)) {
            Some(t) => t,
            None => {
                assert(overflow_after(initial, bet, is_bonus, cascades@, total_multiplier));
                return Err(RoundError::AmountOverflow);
            },
        }
    } else {
        total_raw_win
    };
    Ok(SpinResult {
        initial_grid: initial_grid_state,
        cascades,
        total_win,
        total_multiplier,
        free_spins_won,
    })
}

} // verus!
