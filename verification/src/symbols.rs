//! Symbols, their payout values and weights, and random cells.
use vstd::prelude::*;
use crate::amount::{Amount, whole};
use crate::random::{is_short_uid, new_short_uid, random_choice, random_ratio, random_u32_in};

verus! {

/// Columns of the play grid.
pub const GRID_COLS: usize = 6;
/// Rows of the play grid.
pub const GRID_ROWS: usize = 5;
/// Occurrences of one symbol that make it pay.
pub const WIN_THRESHOLD: usize = 8;
/// The scatter symbol; it never pays by count and awards free spins.
pub const SCATTER_ID: u32 = 10;
/// The bomb symbol; it carries a multiplier and never pays by count.
pub const BOMB_ID: u32 = 11;

/// The price of buying the bonus game, `dec!(100)`.
pub fn bonus_buy_cost() -> (cost: Amount)
    ensures
        cost == whole(100),
        cost.wf(),
{
    Amount { mantissa: 100, scale: 0 }
}

/// A symbol: its identifier, the value it pays per cell and its weight in
/// the random draw.
#[derive(Clone, Copy, Debug, PartialEq, Eq, Structural)]
pub struct SymbolConfig {
    pub id: u32,
    pub value: Amount,
    pub weight: u32,
}

/// One entry of the symbol table.
pub open spec fn symbol(id: u32, value: int, weight: u32) -> SymbolConfig {
    SymbolConfig { id, value: whole(value), weight }
}

/// The symbol table, most valuable first.
pub open spec fn symbol_table() -> Seq<SymbolConfig> {
    seq![
        symbol(10, 100, 2),
        symbol(9, 50, 4),
        symbol(8, 25, 6),
        symbol(7, 15, 8),
        symbol(6, 12, 10),
        symbol(5, 10, 12),
        symbol(3, 5, 16),
        symbol(2, 4, 18),
        symbol(1, 2, 20),
    ]
}

/// The symbol table: scatter, heart, purple, green, blue, apple,
/// watermelon, grape and banana.
pub fn get_symbols_config() -> (config: Vec<SymbolConfig>)
    ensures
        config@ == symbol_table(),
        config@.len() == 9,
        config@[0] == (SymbolConfig { id: 10, value: Amount { mantissa: 100, scale: 0 }, weight: 2 }),
        config@[1] == (SymbolConfig { id: 9, value: Amount { mantissa: 50, scale: 0 }, weight: 4 }),
        config@[2] == (SymbolConfig { id: 8, value: Amount { mantissa: 25, scale: 0 }, weight: 6 }),
        config@[3] == (SymbolConfig { id: 7, value: Amount { mantissa: 15, scale: 0 }, weight: 8 }),
        config@[4] == (SymbolConfig { id: 6, value: Amount { mantissa: 12, scale: 0 }, weight: 10 }),
        config@[5] == (SymbolConfig { id: 5, value: Amount { mantissa: 10, scale: 0 }, weight: 12 }),
        config@[6] == (SymbolConfig { id: 3, value: Amount { mantissa: 5, scale: 0 }, weight: 16 }),
        config@[7] == (SymbolConfig { id: 2, value: Amount { mantissa: 4, scale: 0 }, weight: 18 }),
        config@[8] == (SymbolConfig { id: 1, value: Amount { mantissa: 2, scale: 0 }, weight: 20 }),
{
    vec![
        SymbolConfig { id: 10, value: Amount { mantissa: 100, scale: 0 }, weight: 2 },
        SymbolConfig { id: 9, value: Amount { mantissa: 50, scale: 0 }, weight: 4 },
        SymbolConfig { id: 8, value: Amount { mantissa: 25, scale: 0 }, weight: 6 },
        SymbolConfig { id: 7, value: Amount { mantissa: 15, scale: 0 }, weight: 8 },
        SymbolConfig { id: 6, value: Amount { mantissa: 12, scale: 0 }, weight: 10 },
        SymbolConfig { id: 5, value: Amount { mantissa: 10, scale: 0 }, weight: 12 },
        SymbolConfig { id: 3, value: Amount { mantissa: 5, scale: 0 }, weight: 16 },
        SymbolConfig { id: 2, value: Amount { mantissa: 4, scale: 0 }, weight: 18 },
        SymbolConfig { id: 1, value: Amount { mantissa: 2, scale: 0 }, weight: 20 },
    ]
}

/// Sum of the weights of a table.
pub open spec fn weight_sum(table: Seq<SymbolConfig>) -> nat
    decreases table.len(),
{
    if table.len() == 0 {
        0
    } else {
        table[0].weight as nat + weight_sum(table.drop_first())
    }
}

/// The symbol that a draw `choice` in `0..weight_sum(table)` selects: the
/// first entry whose cumulative weight exceeds the draw; 1 (banana) past
/// the end of the table.
pub open spec fn weighted_pick(table: Seq<SymbolConfig>, choice: int) -> u32
    decreases table.len(),
{
    if table.len() == 0 {
        1
    } else if choice < table[0].weight {
        table[0].id
    } else {
        weighted_pick(table.drop_first(), choice - table[0].weight)
    }
}

/// `id` names an entry of the table.
pub open spec fn is_symbol_id(table: Seq<SymbolConfig>, id: u32) -> bool {
    exists|i: int| 0 <= i < table.len() && #[trigger] table[i].id == id
}

proof fn lemma_weight_sum_push(t: Seq<SymbolConfig>, x: SymbolConfig)
    ensures
        weight_sum(t.push(x)) == weight_sum(t) + x.weight,
    decreases t.len(),
{
    if t.len() > 0 {
        assert(t.push(x).drop_first() =~= t.drop_first().push(x));
        lemma_weight_sum_push(t.drop_first(), x);
    } else {
        assert(t.push(x).drop_first() =~= t);
    }
}

proof fn lemma_weight_sum_prefix(t: Seq<SymbolConfig>, i: int)
    requires
        0 <= i <= t.len(),
    ensures
        weight_sum(t.take(i)) <= weight_sum(t),
    decreases t.len() - i,
{
    if i < t.len() {
        lemma_weight_sum_prefix(t, i + 1);
        assert(t.take(i + 1) =~= t.take(i).push(t[i]));
        lemma_weight_sum_push(t.take(i), t[i]);
    } else {
        assert(t.take(i) =~= t);
    }
}

/// A draw below the total weight selects an entry of the table.
pub proof fn lemma_pick_in_table(table: Seq<SymbolConfig>, choice: int)
    requires
        0 <= choice < weight_sum(table),
    ensures
        is_symbol_id(table, weighted_pick(table, choice)),
    decreases table.len(),
{
    if choice >= table[0].weight {
        lemma_pick_in_table(table.drop_first(), choice - table[0].weight);
        let j = choose|j: int|
            0 <= j < table.drop_first().len() && #[trigger] table.drop_first()[j].id
                == weighted_pick(table.drop_first(), choice - table[0].weight);
        assert(table[j + 1].id == table.drop_first()[j].id);
    } else {
        assert(table[0].id == weighted_pick(table, choice));
    }
}

/// Sum of the weights, `config.iter().map(|s| s.weight).sum()`.
pub fn total_weight(config: &Vec<SymbolConfig>) -> (total: u32)
    requires
        weight_sum(config@) <= u32::MAX,
    ensures
        total == weight_sum(config@),
{
    let mut total: u32 = 0;
    let mut i: usize = 0;
    while i < config.len()
        invariant
            i <= config@.len(),
            total == weight_sum(config@.take(i as int)),
            weight_sum(config@) <= u32::MAX,
        decreases config@.len() - i,
    {
        proof {
            assert(config@.take(i + 1) =~= config@.take(i as int).push(config@[i as int]));
            lemma_weight_sum_push(config@.take(i as int), config@[i as int]);
            lemma_weight_sum_prefix(config@, i + 1);
        }
        total = total + config[i].weight;
        i = i + 1;
    }
    assert(config@.take(i as int) =~= config@);
    total
}

/// The symbol a weighted draw selects: walk the table, subtracting each
/// weight from the draw until it falls below one.
pub fn pick_symbol(config: &Vec<SymbolConfig>, choice: u32) -> (id: u32)
    ensures
        id == weighted_pick(config@, choice as int),
{
    let mut rest: u32 = choice;
    let mut i: usize = 0;
    assert(config@.skip(0) =~= config@);
    while i < config.len()
        invariant
            i <= config@.len(),
            weighted_pick(config@, choice as int) == weighted_pick(config@.skip(i as int), rest as int),
        decreases config@.len() - i,
    {
        let sym = config[i];
        assert(config@.skip(i as int)[0] == sym);
        if rest < sym.weight {
            return sym.id;
        }
        assert(config@.skip(i as int).drop_first() =~= config@.skip(i + 1));
        rest = rest - sym.weight;
        i = i + 1;
    }
    assert(config@.skip(i as int).len() == 0);
    1
}

/// A multiplier that a bomb can carry.
pub open spec fn is_bomb_multiplier(m: u32) -> bool {
    (2 <= m <= 5) || m == 10 || m == 15 || m == 20 || m == 25 || m == 50 || m == 100
}

/// The multiplier that the four draws of `generate_multiplier` select: the
/// tier roll (0 to 99), the low pick (2 to 5), the middle pick (10, 15, 20
/// or 25) and the coin for the top tier.
pub open spec fn multiplier_for(roll: u32, low: u32, mid: u32, high: bool) -> u32 {
    if roll < 60 {
        low
    } else if roll < 90 {
        mid
    } else if high {
        50
    } else {
        100
    }
}

/// A middle-tier multiplier.
pub open spec fn is_mid_multiplier(m: u32) -> bool {
    m == 10 || m == 15 || m == 20 || m == 25
}

/// The multiplier for given draws: the low pick when the roll is below 60,
/// the middle pick when it is below 90, otherwise 50 or 100 by the coin.
pub fn multiplier_from_draws(roll: u32, low: u32, mid: u32, high: bool) -> (m: u32)
    requires
        roll < 100,
        2 <= low < 6,
        is_mid_multiplier(mid),
    ensures
        m == multiplier_for(roll, low, mid, high),
        is_bomb_multiplier(m),
{
    if roll < 60 {
        low
    } else if roll < 90 {
        mid
    } else if high {
        50
    } else {
        100
    }
}

/// A random bomb multiplier: 2 to 5 with probability 60%, one of 10, 15,
/// 20, 25 with 30%, and 50 or 100 with 10%. Only the draws that the roll
/// calls for are made.
pub fn generate_multiplier() -> (m: u32)
    ensures
        is_bomb_multiplier(m),
        exists|roll: u32, low: u32, mid: u32, high: bool|
            roll < 100 && 2 <= low < 6 && is_mid_multiplier(mid) && m == #[trigger] multiplier_for(
                roll,
                low,
                mid,
                high,
            ),
{
    let roll = random_u32_in(0, 100);
    let low = if roll < 60 {
        random_u32_in(2, 6)
    } else {
        2
    };
    let mid = if 60 <= roll && roll < 90 {
        let options: [u32; 4] = [10, 15, 20, 25];
        let m = random_choice(&options);
        assert(options@ =~= seq![10u32, 15, 20, 25]);
        m
    } else {
        10
    };
    let high = if roll >= 90 {
        random_ratio(1, 2)
    } else {
        false
    };
    multiplier_from_draws(roll, low, mid, high)
}

/// A cell of the grid.
#[derive(Debug)]
pub struct GameCell {
    pub id: u32,
    pub multiplier: Option<u32>,
    pub uid: String,
    pub is_new: bool,
}

impl Clone for GameCell {
    fn clone(&self) -> (r: GameCell)
        ensures
            r == *self,
    {
        GameCell {
            id: self.id,
            multiplier: self.multiplier,
            uid: self.uid.clone(),
            is_new: self.is_new,
        }
    }
}

/// A cell as `generate_random_symbol(is_bonus)` can produce it: new, with an
/// eight-digit identifier, and either a bomb with a valid multiplier (only
/// in bonus play) or a symbol of the table without multiplier.
pub open spec fn fresh_cell(c: GameCell, is_bonus: bool) -> bool {
    &&& c.is_new
    &&& is_short_uid(c.uid@)
    &&& {
        ||| (is_bonus && c.id == BOMB_ID && (c.multiplier matches Some(m) && is_bomb_multiplier(m)))
        ||| (c.multiplier is None && is_symbol_id(symbol_table(), c.id))
    }
}

/// The cell that the draws of `generate_random_symbol` select: a bomb with
/// `multiplier` when in bonus play the bomb draw succeeded, otherwise the
/// symbol that the weighted draw `choice` picks from the table, without
/// multiplier. Either way the cell is new and carries `uid`.
pub open spec fn cell_for_draws(is_bonus: bool, bomb: bool, multiplier: u32, choice: u32, uid: String) -> GameCell {
    if is_bonus && bomb {
        GameCell { id: BOMB_ID, multiplier: Some(multiplier), uid, is_new: true }
    } else {
        GameCell {
            id: weighted_pick(symbol_table(), choice as int),
            multiplier: None,
            uid,
            is_new: true,
        }
    }
}

/// The cell for given draws (see `cell_for_draws`).
pub fn cell_from_draws(is_bonus: bool, bomb: bool, multiplier: u32, choice: u32, uid: String) -> (cell: GameCell)
    ensures
        cell == cell_for_draws(is_bonus, bomb, multiplier, choice, uid),
{
    if is_bonus && bomb {
        GameCell { id: BOMB_ID, multiplier: Some(multiplier), uid, is_new: true }
    } else {
        let config = get_symbols_config();
        let id = pick_symbol(&config, choice);
        GameCell { id, multiplier: None, uid, is_new: true }
    }
}

/// A new random cell. In bonus play it is a bomb with probability 1/20,
/// carrying a multiplier from `generate_multiplier`; otherwise its symbol
/// is drawn by weight from the symbol table. The bomb draw is made only in
/// bonus play, and only the draws its outcome calls for follow.
pub fn generate_random_symbol(is_bonus: bool) -> (cell: GameCell)
    ensures
        fresh_cell(cell, is_bonus),
        exists|bomb: bool, multiplier: u32, choice: u32|
            (is_bonus && bomb ==> is_bomb_multiplier(multiplier)) && choice < weight_sum(symbol_table())
                && cell == #[trigger] cell_for_draws(is_bonus, bomb, multiplier, choice, cell.uid),
{
    let uid = new_short_uid();
    let bomb = if is_bonus {
        random_ratio(1, 20)
    } else {
        false
    };
    let multiplier = if bomb {
        generate_multiplier()
    } else {
        0
    };
    let config = get_symbols_config();
    assert(weight_sum(symbol_table()) == 96) by {
        reveal_with_fuel(weight_sum, 10);
    }
    let total = total_weight(&config);
    let choice = if bomb {
        0
    } else {
        random_u32_in(0, total)
    };
    let ghost kept_uid = uid;
    let cell = cell_from_draws(is_bonus, bomb, multiplier, choice, uid);
    proof {
        if !bomb {
            lemma_pick_in_table(symbol_table(), choice as int);
        }
        assert(cell.uid == kept_uid);
    }
    cell
}

} // verus!
