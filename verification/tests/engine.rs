use rust_decimal::Decimal;
use sweet_bananza::amount::Amount;
use sweet_bananza::gravity::apply_gravity;
use sweet_bananza::payout::{calculate_wins, count_scatters};
use sweet_bananza::round::{process_full_round, RoundError};
use sweet_bananza::spin::{spin, spin_start_grid};
use sweet_bananza::symbols::{
    cell_from_draws, multiplier_from_draws,
    generate_multiplier, generate_random_symbol, get_symbols_config, pick_symbol, total_weight,
    GameCell, BOMB_ID, GRID_COLS, GRID_ROWS, SCATTER_ID,
};

fn dec(a: Amount) -> Decimal {
    Decimal::from_i128_with_scale(a.mantissa, a.scale)
}

fn cell(id: u32) -> GameCell {
    GameCell { id, multiplier: None, uid: "0000abcd".to_string(), is_new: false }
}

fn bomb(m: u32) -> GameCell {
    GameCell { id: BOMB_ID, multiplier: Some(m), uid: "0000beef".to_string(), is_new: false }
}

/// A 5x6 grid where no symbol reaches eight cells.
fn quiet_grid() -> Vec<Vec<GameCell>> {
    let ids = [[2, 3, 5, 6, 7, 8], [3, 5, 6, 7, 8, 9], [5, 6, 7, 8, 9, 2], [6, 7, 8, 9, 2, 3], [7, 8, 9, 2, 3, 5]];
    ids.iter().map(|row| row.iter().map(|&id| cell(id)).collect()).collect()
}

fn is_short_uid(s: &str) -> bool {
    s.len() == 8 && s.chars().all(|c| c.is_ascii_digit() || ('a'..='f').contains(&c))
}

#[test]
fn symbol_table_contents() {
    let config = get_symbols_config();
    let ids: Vec<u32> = config.iter().map(|s| s.id).collect();
    assert_eq!(ids, vec![10, 9, 8, 7, 6, 5, 3, 2, 1]);
    let weights: Vec<u32> = config.iter().map(|s| s.weight).collect();
    assert_eq!(weights, vec![2, 4, 6, 8, 10, 12, 16, 18, 20]);
    assert_eq!(config[0].value, Amount { mantissa: 100, scale: 0 });
    assert_eq!(config[8].value, Amount { mantissa: 2, scale: 0 });
    assert_eq!(total_weight(&config), 96);
}

#[test]
fn weighted_pick_boundaries() {
    let config = get_symbols_config();
    assert_eq!(pick_symbol(&config, 0), 10);
    assert_eq!(pick_symbol(&config, 1), 10);
    assert_eq!(pick_symbol(&config, 2), 9);
    assert_eq!(pick_symbol(&config, 5), 9);
    assert_eq!(pick_symbol(&config, 6), 8);
    assert_eq!(pick_symbol(&config, 75), 2);
    assert_eq!(pick_symbol(&config, 76), 1);
    assert_eq!(pick_symbol(&config, 95), 1);
    assert_eq!(pick_symbol(&config, 96), 1);
}

#[test]
fn random_symbols_are_fresh() {
    for _ in 0..200 {
        let c = generate_random_symbol(false);
        assert!(c.is_new);
        assert!(c.multiplier.is_none());
        assert!([10, 9, 8, 7, 6, 5, 3, 2, 1].contains(&c.id));
        assert!(is_short_uid(&c.uid));
    }
}

#[test]
fn bonus_symbols_carry_valid_multipliers() {
    for _ in 0..2000 {
        let c = generate_random_symbol(true);
        assert!(c.is_new);
        if c.id == BOMB_ID {
            let m = c.multiplier.unwrap();
            assert!([2, 3, 4, 5, 10, 15, 20, 25, 50, 100].contains(&m));
        } else {
            assert!(c.multiplier.is_none());
        }
    }
}

#[test]
fn multipliers_come_from_the_tiers() {
    for _ in 0..500 {
        let m = generate_multiplier();
        assert!([2, 3, 4, 5, 10, 15, 20, 25, 50, 100].contains(&m));
    }
}

#[test]
fn quiet_grid_pays_nothing() {
    let grid = quiet_grid();
    let (winners, win) = calculate_wins(&grid, Amount::from_u32(10)).unwrap();
    assert!(winners.is_empty());
    assert_eq!(dec(win), Decimal::ZERO);
}

#[test]
fn eight_bananas_pay() {
    let mut grid = quiet_grid();
    for c in 0..6 {
        grid[0][c] = cell(1);
    }
    grid[1][0] = cell(1);
    grid[1][1] = cell(1);
    let (winners, win) = calculate_wins(&grid, Amount::from_u32(10)).unwrap();
    assert_eq!(winners, vec![1]);
    // 8 cells * value 2 * (10 / 10)
    assert_eq!(dec(win), Decimal::from(16u32));
}

#[test]
fn win_scales_with_bet() {
    let mut grid = quiet_grid();
    for c in 0..6 {
        grid[2][c] = cell(9);
        grid[3][c] = cell(9);
    }
    // 12 hearts plus the two of the quiet grid outside rows 2 and 3,
    // value 50, bet 2.5: 14 * 50 * 0.25 = 175
    let (winners, win) = calculate_wins(&grid, Amount { mantissa: 25, scale: 1 }).unwrap();
    assert_eq!(winners, vec![9]);
    assert_eq!(dec(win), Decimal::from(175u32));
}

#[test]
fn winners_listed_in_order_of_first_occurrence() {
    let mut grid = quiet_grid();
    for c in 0..6 {
        grid[1][c] = cell(6);
        grid[2][c] = cell(4);
    }
    grid[3][0] = cell(6);
    grid[3][1] = cell(6);
    grid[3][2] = cell(4);
    grid[3][3] = cell(4);
    let (winners, win) = calculate_wins(&grid, Amount::from_u32(10)).unwrap();
    assert_eq!(winners, vec![6, 4]);
    // symbol 4 is not in the table and pays 0; symbol 6: the quiet grid has
    // one more 6 at (0,3): 9 cells * 12 = 108
    assert_eq!(dec(win), Decimal::from(108u32));
}

#[test]
fn scatters_and_bombs_never_pay() {
    let mut grid = quiet_grid();
    for c in 0..6 {
        grid[0][c] = cell(SCATTER_ID);
        grid[1][c] = bomb(2);
    }
    grid[2][0] = cell(SCATTER_ID);
    grid[2][1] = cell(SCATTER_ID);
    grid[3][0] = bomb(3);
    grid[3][1] = bomb(3);
    let (winners, _) = calculate_wins(&grid, Amount::from_u32(10)).unwrap();
    assert!(winners.is_empty());
    assert_eq!(count_scatters(&grid), 8);
}

#[test]
fn win_overflow_is_reported() {
    let mut grid = quiet_grid();
    for c in 0..6 {
        grid[0][c] = cell(1);
        grid[4][c] = cell(1);
    }
    let huge = Amount { mantissa: sweet_bananza::amount::MAX_MANTISSA, scale: 0 };
    assert!(calculate_wins(&grid, huge).is_none());
}

#[test]
fn gravity_drops_survivors_and_refills() {
    let mut grid = quiet_grid();
    // column 0 top-down: 1, 7, 1, SCATTER, 2
    grid[0][0] = cell(1);
    grid[1][0] = cell(7);
    grid[2][0] = cell(1);
    grid[3][0] = GameCell { id: SCATTER_ID, multiplier: None, uid: "scatter1".to_string(), is_new: true };
    grid[4][0] = cell(2);
    let out = apply_gravity(grid.clone(), &vec![1], false);
    assert_eq!(out.len(), GRID_ROWS);
    for r in 0..GRID_ROWS {
        assert_eq!(out[r].len(), GRID_COLS);
    }
    // survivors of column 0 fall to the bottom in order, no longer new
    assert_eq!(out[4][0].id, 2);
    assert_eq!(out[3][0].id, SCATTER_ID);
    assert_eq!(out[3][0].uid, "scatter1");
    assert!(!out[3][0].is_new);
    assert_eq!(out[2][0].id, 7);
    // the two removed cells are replaced by new cells on top
    assert!(out[0][0].is_new && out[1][0].is_new);
    assert!(is_short_uid(&out[0][0].uid));
    // other columns hold no winners: same symbols, marked settled
    for r in 0..GRID_ROWS {
        for c in 1..GRID_COLS {
            assert_eq!(out[r][c].id, grid[r][c].id);
            assert!(!out[r][c].is_new);
        }
    }
}

#[test]
fn gravity_leaves_cells_outside_the_window() {
    let mut grid = quiet_grid();
    grid[0].push(cell(1));
    grid.push(vec![cell(1), cell(1)]);
    grid[0][0] = cell(1);
    let out = apply_gravity(grid, &vec![1], false);
    assert_eq!(out.len(), 6);
    assert_eq!(out[0].len(), 7);
    assert_eq!(out[0][6].id, 1);
    assert!(!out[0][6].is_new);
    assert_eq!(out[5].len(), 2);
    assert_eq!(out[5][0].id, 1);
    assert!(out[0][0].is_new);
}

#[test]
fn gravity_keeps_scatters_law() {
    for _ in 0..50 {
        let grid = spin_start_grid(true);
        let before = count_scatters(&grid);
        let out = apply_gravity(grid, &vec![1, 2, 3, 5, 6, 7, 8, 9], true);
        assert!(count_scatters(&out) >= before);
    }
}

#[test]
fn quiet_round_has_no_cascades() {
    let mut grid = quiet_grid();
    grid[4][0] = cell(SCATTER_ID);
    grid[4][1] = cell(SCATTER_ID);
    grid[4][2] = cell(SCATTER_ID);
    grid[4][3] = cell(SCATTER_ID);
    let res = process_full_round(grid, Amount::from_u32(10), false).unwrap();
    assert!(res.cascades.is_empty());
    assert_eq!(dec(res.total_win), Decimal::ZERO);
    assert_eq!(res.total_multiplier, 0);
    assert_eq!(res.free_spins_won, 10);
    assert_eq!(res.initial_grid[4][0].id, SCATTER_ID);
}

#[test]
fn three_scatters_win_no_free_spins() {
    let mut grid = quiet_grid();
    grid[4][0] = cell(SCATTER_ID);
    grid[4][1] = cell(SCATTER_ID);
    grid[4][2] = cell(SCATTER_ID);
    let res = process_full_round(grid, Amount::from_u32(10), false).unwrap();
    assert_eq!(res.free_spins_won, 0);
}

#[test]
fn bombs_multiply_the_round_win() {
    for _ in 0..20 {
        let mut grid = quiet_grid();
        for c in 0..6 {
            grid[0][c] = cell(1);
        }
        grid[1][0] = cell(1);
        grid[1][1] = cell(1);
        grid[4][5] = bomb(3);
        grid[3][5] = bomb(2);
        let res = process_full_round(grid, Amount::from_u32(10), false).unwrap();
        assert_eq!(res.total_multiplier, 5);
        assert!(!res.cascades.is_empty());
        assert_eq!(res.cascades[0].winning_ids, vec![1]);
        assert_eq!(dec(res.cascades[0].step_win), Decimal::from(16u32));
        let raw = res.cascades.iter().fold(Decimal::ZERO, |acc, s| acc + dec(s.step_win));
        assert_eq!(dec(res.total_win), raw * Decimal::from(5u32));
        // the initial grid is reported unchanged
        assert_eq!(res.initial_grid[0][0].id, 1);
        // the last grid pays nothing any more
        let last = &res.cascades[res.cascades.len() - 1].grid;
        assert!(calculate_wins(last, Amount::from_u32(10)).unwrap().0.is_empty());
    }
}

#[test]
fn multiplier_overflow_is_reported() {
    let mut grid = quiet_grid();
    grid[0][0] = bomb(u32::MAX);
    grid[0][1] = bomb(1);
    assert_eq!(process_full_round(grid, Amount::from_u32(10), false).err(), Some(RoundError::MultiplierOverflow));
}

#[test]
fn amount_overflow_is_reported() {
    let mut grid = quiet_grid();
    for c in 0..6 {
        grid[0][c] = cell(1);
        grid[4][c] = cell(1);
    }
    let huge = Amount { mantissa: sweet_bananza::amount::MAX_MANTISSA, scale: 0 };
    assert_eq!(process_full_round(grid, huge, false).err(), Some(RoundError::AmountOverflow));
}

#[test]
fn small_grid_without_wins_is_accepted() {
    let grid = vec![vec![cell(1), cell(2)], vec![cell(SCATTER_ID)]];
    let res = process_full_round(grid, Amount::from_u32(10), false).unwrap();
    assert!(res.cascades.is_empty());
    assert_eq!(res.free_spins_won, 0);
}

#[test]
fn spin_start_grid_shape() {
    let grid = spin_start_grid(false);
    assert_eq!(grid.len(), GRID_ROWS);
    for row in &grid {
        assert_eq!(row.len(), GRID_COLS);
        for c in row {
            assert!(c.is_new);
            assert!(c.multiplier.is_none());
            assert_ne!(c.id, BOMB_ID);
        }
    }
}

#[test]
fn bought_bonus_places_scatters() {
    for _ in 0..50 {
        let grid = spin_start_grid(true);
        assert!(count_scatters(&grid) >= 4);
    }
}

#[test]
fn bought_bonus_always_wins_free_spins() {
    for _ in 0..50 {
        let res = spin(Amount::from_u32(10), Some(true)).unwrap();
        assert_eq!(res.free_spins_won, 10);
        assert_eq!(res.total_multiplier, 0);
    }
}

#[test]
fn plain_spin_has_no_multiplier() {
    for _ in 0..50 {
        let res = spin(Amount::from_u32(1), None).unwrap();
        assert_eq!(res.total_multiplier, 0);
        let raw = res.cascades.iter().fold(Decimal::ZERO, |acc, s| acc + dec(s.step_win));
        assert_eq!(dec(res.total_win), raw);
        assert_eq!(res.initial_grid.len(), GRID_ROWS);
        let spins = if count_scatters(&res.cascades.last().map(|s| &s.grid).unwrap_or(&res.initial_grid)) >= 4 { 10 } else { 0 };
        assert_eq!(res.free_spins_won, spins);
    }
}

#[test]
fn multiplier_follows_its_draws() {
    assert_eq!(multiplier_from_draws(0, 3, 15, true), 3);
    assert_eq!(multiplier_from_draws(59, 5, 25, false), 5);
    assert_eq!(multiplier_from_draws(60, 5, 25, false), 25);
    assert_eq!(multiplier_from_draws(89, 2, 10, true), 10);
    assert_eq!(multiplier_from_draws(90, 2, 10, true), 50);
    assert_eq!(multiplier_from_draws(99, 2, 10, false), 100);
}

#[test]
fn cell_follows_its_draws() {
    let c = cell_from_draws(true, true, 20, 0, "01234567".to_string());
    assert_eq!((c.id, c.multiplier, c.is_new), (BOMB_ID, Some(20), true));
    assert_eq!(c.uid, "01234567");
    let c = cell_from_draws(false, true, 20, 0, "01234567".to_string());
    assert_eq!((c.id, c.multiplier, c.is_new), (10, None, true));
    let c = cell_from_draws(true, false, 20, 95, "89abcdef".to_string());
    assert_eq!((c.id, c.multiplier), (1, None));
    let c = cell_from_draws(false, false, 0, 42, "89abcdef".to_string());
    assert_eq!(c.id, 3);
}

#[test]
fn bought_bonus_places_four_to_six_scatters_at_least() {
    for _ in 0..50 {
        let grid = spin_start_grid(true);
        let n = count_scatters(&grid);
        assert!(n >= 4 && n <= 30);
    }
}

#[test]
fn winners_ignore_cell_order() {
    let mut grid = quiet_grid();
    for c in 0..6 {
        grid[0][c] = cell(1);
    }
    grid[1][0] = cell(1);
    grid[1][1] = cell(1);
    // the same cells, rows reversed and each row reversed
    let flipped: Vec<Vec<GameCell>> =
        grid.iter().rev().map(|row| row.iter().rev().cloned().collect()).collect();
    let (a, _) = calculate_wins(&grid, Amount::from_u32(10)).unwrap();
    let (b, _) = calculate_wins(&flipped, Amount::from_u32(10)).unwrap();
    let mut a = a;
    let mut b = b;
    a.sort();
    b.sort();
    assert_eq!(a, b);
}

#[test]
fn cascades_carry_unpaid_cells() {
    for _ in 0..20 {
        let mut grid = quiet_grid();
        for c in 0..6 {
            grid[0][c] = cell(1);
        }
        grid[1][0] = cell(1);
        grid[1][1] = cell(1);
        grid[4][5] = GameCell { id: SCATTER_ID, multiplier: None, uid: "5ca77e21".to_string(), is_new: false };
        let res = process_full_round(grid, Amount::from_u32(10), false).unwrap();
        for step in &res.cascades {
            assert_eq!(step.grid.len(), GRID_ROWS);
            assert!(step.grid.iter().all(|row| row.len() == GRID_COLS));
            assert!(step.grid.iter().flatten().any(|c| c.uid == "5ca77e21" && c.id == SCATTER_ID));
        }
    }
}

#[test]
fn short_uids_are_eight_hex_digits() {
    for _ in 0..100 {
        let uid = sweet_bananza::random::new_short_uid();
        assert!(is_short_uid(&uid));
    }
}
