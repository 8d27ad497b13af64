//! The 6x6 gem-swapping game: swapping two touching gems is kept only when
//! it lines up three or more equal gems; lined-up gems are cleared, refilled
//! from the host's draws, and cleared again in chains.

use vstd::prelude::*;
use std::collections::BTreeSet;
use crate::dice::{Draws, scaled, scale_draw, lemma_scaled_below};
use crate::text::{decimal, push_decimal};

verus! {

broadcast use vstd::laws_cmp::group_laws_cmp, vstd::std_specs::btree::group_btree_axioms;

/// Side of the board.
pub const BOARD_SIZE: usize = 6;

/// Number of cells.
pub const CELL_COUNT: usize = 36;

/// Number of gem kinds.
pub const GEM_TYPES: i32 = 5;

/// The gem in row `r`, column `c`.
pub open spec fn cell(b: Seq<i32>, r: int, c: int) -> i32 {
    b[r * 6 + c]
}

/// Cell (`r`, `c`) ends, centres or starts three equal gems in its row.
pub open spec fn row_triple_at(b: Seq<i32>, r: int, c: int) -> bool {
    ||| 2 <= c && cell(b, r, c - 2) == cell(b, r, c) && cell(b, r, c - 1) == cell(b, r, c)
    ||| 1 <= c <= 4 && cell(b, r, c - 1) == cell(b, r, c) && cell(b, r, c + 1) == cell(b, r, c)
    ||| c <= 3 && cell(b, r, c + 1) == cell(b, r, c) && cell(b, r, c + 2) == cell(b, r, c)
}

/// Cell (`r`, `c`) ends, centres or starts three equal gems in its column.
pub open spec fn column_triple_at(b: Seq<i32>, r: int, c: int) -> bool {
    ||| 2 <= r && cell(b, r - 2, c) == cell(b, r, c) && cell(b, r - 1, c) == cell(b, r, c)
    ||| 1 <= r <= 4 && cell(b, r - 1, c) == cell(b, r, c) && cell(b, r + 1, c) == cell(b, r, c)
    ||| r <= 3 && cell(b, r + 1, c) == cell(b, r, c) && cell(b, r + 2, c) == cell(b, r, c)
}

/// The cells that lie in a line of three or more equal gems, across or down.
pub open spec fn matched(b: Seq<i32>) -> Set<usize> {
    Set::new(
        |i: usize|
            i < 36 && (row_triple_at(b, (i / 6) as int, (i % 6) as int) || column_triple_at(b, (i / 6) as int, (i % 6) as int)),
    )
}

spec fn rows_done(b: Seq<i32>, row: int, start: int) -> Set<usize> {
    Set::new(
        |i: usize|
            i < 36 && row_triple_at(b, (i / 6) as int, (i % 6) as int) && (i / 6 < row || (i / 6 == row && i % 6
                < start)),
    )
}

spec fn columns_done(b: Seq<i32>, col: int, start: int) -> Set<usize> {
    Set::new(
        |i: usize|
            i < 36 && column_triple_at(b, (i / 6) as int, (i % 6) as int) && (i % 6 < col || (i % 6 == col && i / 6
                < start)),
    )
}

/// The cells of a maximal run of equal gems in a row lie in a line of three
/// exactly when the run is at least three long.
proof fn lemma_row_run(b: Seq<i32>, r: int, s: int, e: int, c: int)
    requires
        b.len() == 36,
        0 <= r < 6,
        0 <= s <= c < e <= 6,
        forall|k: int| s <= k < e ==> #[trigger] cell(b, r, k) == cell(b, r, s),
        s == 0 || cell(b, r, s - 1) != cell(b, r, s),
        e == 6 || cell(b, r, e) != cell(b, r, s),
    ensures
        row_triple_at(b, r, c) <==> e - s >= 3,
{
    assert(cell(b, r, c) == cell(b, r, s));
    if e - s >= 3 {
        if c + 2 < e {
            assert(cell(b, r, c + 1) == cell(b, r, s));
            assert(cell(b, r, c + 2) == cell(b, r, s));
        } else if c - 1 >= s && c + 1 < e {
            assert(cell(b, r, c + 1) == cell(b, r, s));
            assert(cell(b, r, c - 1) == cell(b, r, s));
        } else {
            assert(cell(b, r, c - 1) == cell(b, r, s));
            assert(cell(b, r, c - 2) == cell(b, r, s));
        }
    } else {
        if c - 1 >= s {
            assert(cell(b, r, c - 1) == cell(b, r, s));
        }
        if c + 1 < e {
            assert(cell(b, r, c + 1) == cell(b, r, s));
        }
    }
}

/// The column counterpart of `lemma_row_run`.
proof fn lemma_column_run(b: Seq<i32>, c: int, s: int, e: int, r: int)
    requires
        b.len() == 36,
        0 <= c < 6,
        0 <= s <= r < e <= 6,
        forall|k: int| s <= k < e ==> #[trigger] cell(b, k, c) == cell(b, s, c),
        s == 0 || cell(b, s - 1, c) != cell(b, s, c),
        e == 6 || cell(b, e, c) != cell(b, s, c),
    ensures
        column_triple_at(b, r, c) <==> e - s >= 3,
{
    assert(cell(b, r, c) == cell(b, s, c));
    if e - s >= 3 {
        if r + 2 < e {
            assert(cell(b, r + 1, c) == cell(b, s, c));
            assert(cell(b, r + 2, c) == cell(b, s, c));
        } else if r - 1 >= s && r + 1 < e {
            assert(cell(b, r + 1, c) == cell(b, s, c));
            assert(cell(b, r - 1, c) == cell(b, s, c));
        } else {
            assert(cell(b, r - 1, c) == cell(b, s, c));
            assert(cell(b, r - 2, c) == cell(b, s, c));
        }
    } else {
        if r - 1 >= s {
            assert(cell(b, r - 1, c) == cell(b, s, c));
        }
        if r + 1 < e {
            assert(cell(b, r + 1, c) == cell(b, s, c));
        }
    }
}

/// The cells lying in a line of three or more equal gems.
fn collect_matches(board: &[i32]) -> (matches: BTreeSet<usize>)
    requires
        board@.len() == 36,
    ensures
        matches@ == matched(board@),
{
    let ghost b = board@;
    let mut matches: BTreeSet<usize> = BTreeSet::new();
    assert(matches@ =~= rows_done(b, 0, 0));
    let mut row: usize = 0;
    while row < BOARD_SIZE
        invariant
            board@ == b,
            b.len() == 36,
            row <= 6,
            matches@ == rows_done(b, row as int, 0),
        decreases 6 - row,
    {
        let mut start: usize = 0;
        while start < BOARD_SIZE
            invariant
                board@ == b,
                b.len() == 36,
                row < 6,
                start <= 6,
                matches@ == rows_done(b, row as int, start as int),
                start == 0 || start == 6 || cell(b, row as int, start - 1) != cell(
                    b,
                    row as int,
                    start as int,
                ),
            decreases 6 - start,
        {
            let value = board[row * BOARD_SIZE + start];
            let mut end = start + 1;
            while end < BOARD_SIZE && board[row * BOARD_SIZE + end] == value
                invariant
                    board@ == b,
                    b.len() == 36,
                    row < 6,
                    start < end <= 6,
                    value == cell(b, row as int, start as int),
                    forall|k: int| start <= k < end ==> #[trigger] cell(b, row as int, k) == value,
                decreases 6 - end,
            {
                end = end + 1;
            }
            let ghost before = matches@;
            if end - start >= 3 {
                let mut col = start;
                while col < end
                    invariant
                        b.len() == 36,
                        row < 6,
                        start <= col <= end <= 6,
                        matches@ == before + Set::new(
                            |i: usize| i < 36 && i / 6 == row && start <= i % 6 < col,
                        ),
                    decreases end - col,
                {
                    let ghost idx = row * 6 + col;
                    assert(idx / 6 == row && idx % 6 == col);
                    matches.insert(row * BOARD_SIZE + col);
                    col = col + 1;
                    assert(matches@ =~= before + Set::new(
                        |i: usize| i < 36 && i / 6 == row && start <= i % 6 < col,
                    ));
                }
            }
            assert forall|i: usize| #![auto] matches@.contains(i) <==> rows_done(b, row as int, end as int).contains(i) by {
                if i < 36 && i / 6 == row && start <= i % 6 < end {
                    lemma_row_run(b, row as int, start as int, end as int, (i % 6) as int);
                }
            }
            assert(matches@ =~= rows_done(b, row as int, end as int));
            start = end;
        }
        row = row + 1;
        assert(matches@ =~= rows_done(b, row as int, 0));
    }
    let ghost row_part = matches@;
    assert(columns_done(b, 0, 0) =~= Set::empty());
    let mut col: usize = 0;
    while col < BOARD_SIZE
        invariant
            board@ == b,
            b.len() == 36,
            col <= 6,
            row_part == rows_done(b, 6, 0),
            matches@ == row_part + columns_done(b, col as int, 0),
        decreases 6 - col,
    {
        let mut start: usize = 0;
        while start < BOARD_SIZE
            invariant
                board@ == b,
                b.len() == 36,
                col < 6,
                start <= 6,
                matches@ == row_part + columns_done(b, col as int, start as int),
                start == 0 || start == 6 || cell(b, start - 1, col as int) != cell(
                    b,
                    start as int,
                    col as int,
                ),
            decreases 6 - start,
        {
            let value = board[start * BOARD_SIZE + col];
            let mut end = start + 1;
            while end < BOARD_SIZE && board[end * BOARD_SIZE + col] == value
                invariant
                    board@ == b,
                    b.len() == 36,
                    col < 6,
                    start < end <= 6,
                    value == cell(b, start as int, col as int),
                    forall|k: int| start <= k < end ==> #[trigger] cell(b, k, col as int) == value,
                decreases 6 - end,
            {
                end = end + 1;
            }
            let ghost before = matches@;
            if end - start >= 3 {
                let mut row = start;
                while row < end
                    invariant
                        b.len() == 36,
                        col < 6,
                        start <= row <= end <= 6,
                        matches@ == before + Set::new(
                            |i: usize| i < 36 && i % 6 == col && start <= i / 6 < row,
                        ),
                    decreases end - row,
                {
                    let ghost idx = row * 6 + col;
                    assert(idx / 6 == row && idx % 6 == col);
                    matches.insert(row * BOARD_SIZE + col);
                    row = row + 1;
                    assert(matches@ =~= before + Set::new(
                        |i: usize| i < 36 && i % 6 == col && start <= i / 6 < row,
                    ));
                }
            }
            assert forall|i: usize| #![auto] matches@.contains(i) <==> (row_part + columns_done(b, col as int, end as int)).contains(i) by {
                if i < 36 && i % 6 == col && start <= i / 6 < end {
                    lemma_column_run(b, col as int, start as int, end as int, (i / 6) as int);
                }
            }
            assert(matches@ =~= row_part + columns_done(b, col as int, end as int));
            start = end;
        }
        col = col + 1;
        assert(matches@ =~= row_part + columns_done(b, col as int, 0));
    }
    assert(matches@ =~= matched(b));
    matches
}


// ---------------------------------------------------------------------------
// Refilling cleared cells and chains of clears
// ---------------------------------------------------------------------------

/// The gem kind a draw selects.
pub open spec fn gem_of(r: u32) -> i32 {
    scaled(r, 5) as i32
}

/// The board after the cells of `m` from position `pos` on are refilled in
/// increasing order, each with the gem of the next draw of `d`.
pub open spec fn refill_from(b: Seq<i32>, m: Set<usize>, d: Seq<u32>, pos: int) -> Seq<i32>
    decreases 36 - pos,
{
    if pos < 0 || pos >= 36 {
        b
    } else if m.contains(pos as usize) {
        refill_from(b.update(pos, gem_of(d[0])), m, d.drop_first(), pos + 1)
    } else {
        refill_from(b, m, d, pos + 1)
    }
}

/// Number of draws the refill from position `pos` on takes.
pub open spec fn refill_count_from(m: Set<usize>, pos: int) -> nat
    decreases 36 - pos,
{
    if pos < 0 || pos >= 36 {
        0
    } else if m.contains(pos as usize) {
        1 + refill_count_from(m, pos + 1)
    } else {
        refill_count_from(m, pos + 1)
    }
}

/// The board after every cell of `m` is refilled from the draws `d`, in
/// increasing cell order.
pub open spec fn refilled(b: Seq<i32>, m: Set<usize>, d: Seq<u32>) -> Seq<i32> {
    refill_from(b, m, d, 0)
}

/// Number of draws refilling the cells of `m` takes.
pub open spec fn refill_count(m: Set<usize>) -> nat {
    refill_count_from(m, 0)
}

/// Chains of clears starting at chain number `chain`: while some gems line
/// up and fewer than eight chains ran, the lined-up cells score ten points
/// each plus eight per earlier chain, and are refilled.
/// The result is the final board, the points, the number of cleared cells
/// and the number of draws taken.
pub open spec fn cascade(b: Seq<i32>, d: Seq<u32>, chain: int) -> (Seq<i32>, int, int, nat)
    decreases 8 - chain,
{
    if chain < 0 || chain >= 8 || matched(b).is_empty() {
        (b, 0, 0, 0)
    } else {
        let m = matched(b);
        let k = refill_count(m);
        let rest = cascade(refilled(b, m, d), d.skip(k as int), chain + 1);
        (rest.0, m.len() * 10 + chain * 8 + rest.1, m.len() + rest.2, k + rest.3)
    }
}

/// Up to eight rounds of refilling lined-up cells without scoring, from round
/// `round` on; gives the board and the number of draws taken.
pub open spec fn settle(b: Seq<i32>, d: Seq<u32>, round: int) -> (Seq<i32>, nat)
    decreases 8 - round,
{
    if round < 0 || round >= 8 || matched(b).is_empty() {
        (b, 0)
    } else {
        let m = matched(b);
        let k = refill_count(m);
        let rest = settle(refilled(b, m, d), d.skip(k as int), round + 1);
        (rest.0, k + rest.1)
    }
}

/// The starting board a list of draws selects, one gem per cell.
pub open spec fn dealt(d: Seq<u32>) -> Seq<i32> {
    Seq::new(36, |i: int| gem_of(d[i]))
}

proof fn lemma_refill_count_bound(m: Set<usize>, pos: int)
    requires
        0 <= pos <= 36,
    ensures
        refill_count_from(m, pos) <= 36 - pos,
    decreases 36 - pos,
{
    if pos < 36 {
        lemma_refill_count_bound(m, pos + 1);
    }
}

proof fn lemma_refill_len(b: Seq<i32>, m: Set<usize>, d: Seq<u32>, pos: int)
    requires
        0 <= pos <= 36,
        b.len() == 36,
    ensures
        refill_from(b, m, d, pos).len() == 36,
    decreases 36 - pos,
{
    if pos < 36 {
        if m.contains(pos as usize) {
            lemma_refill_len(b.update(pos, gem_of(d[0])), m, d.drop_first(), pos + 1);
        } else {
            lemma_refill_len(b, m, d, pos + 1);
        }
    }
}

proof fn lemma_below_finite(n: usize)
    ensures
        Set::new(|i: usize| i < n).finite(),
        Set::new(|i: usize| i < n).len() == n,
    decreases n,
{
    if n > 0 {
        lemma_below_finite((n - 1) as usize);
        assert(Set::new(|i: usize| i < n) =~= Set::new(|i: usize| i < (n - 1) as usize).insert(
            (n - 1) as usize,
        ));
    } else {
        assert(Set::new(|i: usize| i < n) =~= Set::<usize>::empty());
    }
}

proof fn lemma_matched_len(b: Seq<i32>)
    ensures
        matched(b).finite(),
        matched(b).len() <= 36,
{
    lemma_below_finite(36);
    assert(matched(b).subset_of(Set::new(|i: usize| i < 36)));
    vstd::set_lib::lemma_len_subset(matched(b), Set::new(|i: usize| i < 36));
}

fn random_gem(draws: &mut Draws) -> (g: i32)
    requires
        old(draws)@.len() >= 1,
    ensures
        g == gem_of(old(draws)@[0]),
        0 <= g < 5,
        final(draws)@ == old(draws)@.drop_first(),
{
    let r = draws.take();
    let k = scale_draw(r, 5);
    k as i32
}

/// Refills every cell of `matches`, in increasing cell order.
fn refill_cells(board: &mut Vec<i32>, matches: &BTreeSet<usize>, draws: &mut Draws)
    requires
        old(board)@.len() == 36,
        old(draws)@.len() >= refill_count(matches@),
    ensures
        final(board)@ == refilled(old(board)@, matches@, old(draws)@),
        final(draws)@ == old(draws)@.skip(refill_count(matches@) as int),
{
    let ghost b0 = board@;
    let ghost d0 = draws@;
    let mut pos: usize = 0;
    assert(d0.skip(0) =~= d0);
    while pos < CELL_COUNT
        invariant
            board@.len() == 36,
            pos <= 36,
            refill_from(board@, matches@, draws@, pos as int) == refilled(b0, matches@, d0),
            refill_count(matches@) == refill_count_from(matches@, pos as int) + (d0.len()
                - draws@.len()),
            draws@.len() >= refill_count_from(matches@, pos as int),
            draws@ == d0.skip(d0.len() - draws@.len()),
            draws@.len() <= d0.len(),
        decreases 36 - pos,
    {
        if matches.contains(&pos) {
            let ghost before = draws@;
            let g = random_gem(draws);
            board.set(pos, g);
            assert(draws@ =~= d0.skip(d0.len() - draws@.len()));
        }
        pos = pos + 1;
    }
    assert(draws@ =~= d0.skip(refill_count(matches@) as int));
}

/// The 6x6 gem-swapping game in progress.
pub struct Match3Game {
    pub board: Vec<i32>,
    pub score: i32,
    pub moves_left: i32,
    pub selected: Option<usize>,
    pub message: String,
}

impl Match3Game {
    /// Clears lined-up cells in chains, scoring each chain; gives the number
    /// of cleared cells.
    fn resolve_matches(&mut self, matches: BTreeSet<usize>, draws: &mut Draws) -> (cleared: usize)
        requires
            old(self).board@.len() == 36,
            matches@ == matched(old(self).board@),
            old(draws)@.len() >= cascade(old(self).board@, old(draws)@, 0).3,
            old(self).score + cascade(old(self).board@, old(draws)@, 0).1 <= i32::MAX,
        ensures
            final(self).board@ == cascade(old(self).board@, old(draws)@, 0).0,
            final(self).score == old(self).score + cascade(old(self).board@, old(draws)@, 0).1,
            cleared == cascade(old(self).board@, old(draws)@, 0).2,
            final(draws)@ == old(draws)@.skip(cascade(old(self).board@, old(draws)@, 0).3 as int),
            final(self).moves_left == old(self).moves_left,
            final(self).selected == old(self).selected,
            final(self).message == old(self).message,
    {
        let ghost b0 = self.board@;
        let ghost d0 = draws@;
        let ghost s0 = self.score;
        let ghost goal = cascade(b0, d0, 0);
        let mut matches = matches;
        let mut total: usize = 0;
        let mut chain: i32 = 0;
        assert(d0.skip(0) =~= d0);
        proof {
            lemma_cascade_bounds(b0, d0, 0);
        }
        while !matches.is_empty() && chain < 8
            invariant
                self.board@.len() == 36,
                0 <= chain <= 8,
                matches@ == matched(self.board@),
                goal == cascade(b0, d0, 0),
                self.score == s0 + (goal.1 - cascade(self.board@, draws@, chain as int).1),
                total == goal.2 - cascade(self.board@, draws@, chain as int).2,
                goal.0 == cascade(self.board@, draws@, chain as int).0,
                draws@ == d0.skip(d0.len() - draws@.len()),
                d0.len() - draws@.len() == goal.3 - cascade(self.board@, draws@, chain as int).3,
                draws@.len() <= d0.len(),
                draws@.len() >= cascade(self.board@, draws@, chain as int).3,
                s0 + goal.1 <= i32::MAX,
                0 <= cascade(self.board@, draws@, chain as int).1,
                0 <= cascade(self.board@, draws@, chain as int).2 <= 36 * (8 - chain),
                total <= 36 * chain,
                self.moves_left == old(self).moves_left,
                self.selected == old(self).selected,
                self.message == old(self).message,
            decreases 8 - chain,
        {
            let ghost b = self.board@;
            let ghost d = draws@;
            proof {
                lemma_matched_len(b);
                lemma_cascade_bounds(refilled(b, matched(b), d), d.skip(refill_count(matched(b)) as int), chain + 1);
                lemma_refill_len(b, matched(b), d, 0);
            }
            let cleared = matches.len();
            total = total + cleared;
            self.score = self.score + (cleared as i32) * 10 + chain * 8;
            refill_cells(&mut self.board, &matches, draws);
            matches = collect_matches(self.board.as_slice());
            chain = chain + 1;
            proof {
                let u = d0.len() - d.len();
                let k = refill_count(matched(b));
                assert(draws@ == d.skip(k as int));
                assert(d.skip(k as int) =~= d0.skip(u + k));
            }
        }
        assert(draws@ =~= d0.skip(goal.3 as int));
        total
    }
}

proof fn lemma_cascade_bounds(b: Seq<i32>, d: Seq<u32>, chain: int)
    requires
        0 <= chain <= 8,
    ensures
        0 <= cascade(b, d, chain).1,
        0 <= cascade(b, d, chain).2 <= 36 * (8 - chain),
    decreases 8 - chain,
{
    if chain < 8 && !matched(b).is_empty() {
        let m = matched(b);
        lemma_matched_len(b);
        lemma_cascade_bounds(refilled(b, m, d), d.skip(refill_count(m) as int), chain + 1);
    }
}


/// Whether cells `a` and `b` of the 6x6 board share a side.
pub open spec fn side_by_side(a: int, b: int) -> bool {
    let dr = if a / 6 >= b / 6 { a / 6 - b / 6 } else { b / 6 - a / 6 };
    let dc = if a % 6 >= b % 6 { a % 6 - b % 6 } else { b % 6 - a % 6 };
    dr + dc == 1
}

/// The board with cells `i` and `j` exchanged.
pub open spec fn swapped(b: Seq<i32>, i: int, j: int) -> Seq<i32> {
    b.update(i, b[j]).update(j, b[i])
}

fn is_adjacent(a: usize, b: usize) -> (r: bool)
    ensures
        r == side_by_side(a as int, b as int),
{
    let ar = a / BOARD_SIZE;
    let ac = a % BOARD_SIZE;
    let br = b / BOARD_SIZE;
    let bc = b % BOARD_SIZE;
    let dr = if ar >= br { ar - br } else { br - ar };
    let dc = if ac >= bc { ac - bc } else { bc - ac };
    dr as u128 + dc as u128 == 1
}

fn swap_cells(board: &mut Vec<i32>, i: usize, j: usize)
    requires
        i < old(board)@.len(),
        j < old(board)@.len(),
    ensures
        final(board)@ == swapped(old(board)@, i as int, j as int),
{
    let a = board[i];
    let b = board[j];
    board.set(i, b);
    board.set(j, a);
}

/// The message after a swap that clears `n` cells.
pub open spec fn cleared_message(n: int) -> Seq<char> {
    "清扫成功，消除 "@ + decimal(n) + " 个图块。"@
}

impl Match3Game {
    /// Up to eight rounds of refilling lined-up cells of a new board.
    fn remove_starting_matches(&mut self, draws: &mut Draws)
        requires
            old(self).board@.len() == 36,
            old(draws)@.len() >= settle(old(self).board@, old(draws)@, 0).1,
        ensures
            final(self).board@ == settle(old(self).board@, old(draws)@, 0).0,
            final(draws)@ == old(draws)@.skip(settle(old(self).board@, old(draws)@, 0).1 as int),
            final(self).score == old(self).score,
            final(self).moves_left == old(self).moves_left,
            final(self).selected == old(self).selected,
            final(self).message == old(self).message,
    {
        let ghost b0 = self.board@;
        let ghost d0 = draws@;
        let ghost goal = settle(b0, d0, 0);
        assert(d0.skip(0) =~= d0);
        let mut round: usize = 0;
        while round < 8
            invariant
                self.board@.len() == 36,
                round <= 8,
                goal == settle(b0, d0, 0),
                b0 == old(self).board@,
                d0 == old(draws)@,
                goal.0 == settle(self.board@, draws@, round as int).0,
                d0.len() - draws@.len() == goal.1 - settle(self.board@, draws@, round as int).1,
                draws@ == d0.skip(d0.len() - draws@.len()),
                draws@.len() <= d0.len(),
                draws@.len() >= settle(self.board@, draws@, round as int).1,
                self.score == old(self).score,
                self.moves_left == old(self).moves_left,
                self.selected == old(self).selected,
                self.message == old(self).message,
            decreases 8 - round,
        {
            let matches = collect_matches(self.board.as_slice());
            if matches.is_empty() {
                assert(matched(self.board@).is_empty());
                assert(settle(self.board@, draws@, round as int) == (self.board@, 0nat));
                assert(draws@ =~= d0.skip(goal.1 as int));
                return;
            }
            let ghost b = self.board@;
            let ghost d = draws@;
            proof {
                lemma_refill_len(b, matched(b), d, 0);
            }
            refill_cells(&mut self.board, &matches, draws);
            round = round + 1;
            proof {
                let u = d0.len() - d.len();
                let k = refill_count(matched(b));
                assert(d.skip(k as int) =~= d0.skip(u + k));
            }
        }
        assert(draws@ =~= d0.skip(goal.1 as int));
    }

    /// A new game: one gem per cell from the draws, lines of three refilled
    /// away for up to eight rounds, eighteen moves.
    pub fn new(draws: &mut Draws) -> (g: Self)
        requires
            old(draws)@.len() >= 36 + 8 * 36,
        ensures
            g.board@ == settle(dealt(old(draws)@), old(draws)@.skip(36), 0).0,
            final(draws)@ == old(draws)@.skip(
                36 + settle(dealt(old(draws)@), old(draws)@.skip(36), 0).1 as int,
            ),
            g.score == 0,
            g.moves_left == 18,
            g.selected is None,
            g.message@ == "点选一个图块，再点相邻图块交换。"@,
    {
        let ghost d0 = draws@;
        let mut board: Vec<i32> = Vec::new();
        let mut i: usize = 0;
        assert(d0.skip(0) =~= d0);
        while i < CELL_COUNT
            invariant
                i <= 36,
                d0.len() >= 36 + 8 * 36,
                draws@ == d0.skip(i as int),
                board@.len() == i,
                forall|k: int| 0 <= k < i ==> board@[k] == gem_of(d0[k]),
            decreases 36 - i,
        {
            let g = random_gem(draws);
            board.push(g);
            i = i + 1;
            assert(draws@ =~= d0.skip(i as int));
        }
        assert(board@ =~= dealt(d0));
        let mut game = Self {
            board,
            score: 0,
            moves_left: 18,
            selected: None,
            message: "点选一个图块，再点相邻图块交换。".to_owned(),
        };
        proof {
            lemma_settle_draws(dealt(d0), d0.skip(36), 0);
        }
        game.remove_starting_matches(draws);
        assert(draws@ =~= d0.skip(36 + settle(dealt(d0), d0.skip(36), 0).1 as int));
        game
    }
}

proof fn lemma_settle_draws(b: Seq<i32>, d: Seq<u32>, round: int)
    requires
        0 <= round <= 8,
    ensures
        settle(b, d, round).1 <= 36 * (8 - round),
    decreases 8 - round,
{
    if round < 8 && !matched(b).is_empty() {
        let m = matched(b);
        lemma_refill_count_bound(m, 0);
        lemma_settle_draws(refilled(b, m, d), d.skip(refill_count(m) as int), round + 1);
    }
}


/// Exchanging the same two cells twice gives back the board.
pub proof fn law_swap_undone(b: Seq<i32>, i: int, j: int)
    requires
        0 <= i < b.len(),
        0 <= j < b.len(),
    ensures
        swapped(swapped(b, i, j), i, j) == b,
{
    assert(swapped(swapped(b, i, j), i, j) =~= b);
}

impl Match3Game {
    /// Whether tapping `index` in this game would swap two touching gems and
    /// thereby line up three equal gems.
    pub open spec fn swap_clears(self, index: usize) -> bool {
        &&& index < 36
        &&& self.moves_left > 0
        &&& self.selected matches Some(first) && first != index && side_by_side(
            first as int,
            index as int,
        ) && !matched(swapped(self.board@, first as int, index as int)).is_empty()
    }

    /// Taps cell `index`: the first tap selects a gem, tapping it again
    /// drops the selection, tapping a far gem moves the selection there, and
    /// tapping a touching gem swaps the two. A swap that lines up no three
    /// gems is taken back; otherwise it costs a move and the lined-up gems
    /// are cleared in chains.
    pub fn tap(&mut self, index: usize, draws: &mut Draws)
        requires
            old(self).board@.len() == 36,
            old(self).selected matches Some(first) ==> first < 36,
            old(self).swap_clears(index) ==> {
                let first = old(self).selected->0;
                let c = cascade(swapped(old(self).board@, first as int, index as int), old(draws)@, 0);
                &&& old(draws)@.len() >= c.3
                &&& old(self).score + c.1 <= i32::MAX
            },
        ensures
            final(self).board@.len() == 36,
            final(self).selected matches Some(first) ==> first < 36,
            gems_only(old(self).board@) ==> gems_only(final(self).board@),
            final(self).score >= old(self).score,
            old(self).moves_left - 1 <= final(self).moves_left <= old(self).moves_left,
            if index >= 36 || old(self).moves_left <= 0 {
                &&& *final(self) == *old(self)
                &&& final(draws)@ == old(draws)@
            } else {
                match old(self).selected {
                    None => {
                        &&& final(self).board == old(self).board
                        &&& final(self).score == old(self).score
                        &&& final(self).moves_left == old(self).moves_left
                        &&& final(self).selected == Some(index)
                        &&& final(self).message@ == "选择相邻图块进行交换。"@
                        &&& final(draws)@ == old(draws)@
                    },
                    Some(first) => if first == index {
                        &&& final(self).board == old(self).board
                        &&& final(self).score == old(self).score
                        &&& final(self).moves_left == old(self).moves_left
                        &&& final(self).selected is None
                        &&& final(self).message@ == "已取消选择。"@
                        &&& final(draws)@ == old(draws)@
                    } else if !side_by_side(first as int, index as int) {
                        &&& final(self).board == old(self).board
                        &&& final(self).score == old(self).score
                        &&& final(self).moves_left == old(self).moves_left
                        &&& final(self).selected == Some(index)
                        &&& final(self).message@ == "只能交换上下左右相邻图块。"@
                        &&& final(draws)@ == old(draws)@
                    } else if !old(self).swap_clears(index) {
                        &&& final(self).board@ == old(self).board@
                        &&& final(self).score == old(self).score
                        &&& final(self).moves_left == old(self).moves_left
                        &&& final(self).selected is None
                        &&& final(self).message@ == "这次交换没有形成三连。"@
                        &&& final(draws)@ == old(draws)@
                    } else {
                        let c = cascade(
                            swapped(old(self).board@, first as int, index as int),
                            old(draws)@,
                            0,
                        );
                        &&& final(self).board@ == c.0
                        &&& final(self).score == old(self).score + c.1
                        &&& final(self).moves_left == old(self).moves_left - 1
                        &&& final(self).selected is None
                        &&& final(self).message@ == cleared_message(c.2)
                        &&& final(draws)@ == old(draws)@.skip(c.3 as int)
                        &&& c.1 >= 30
                        &&& c.2 >= 3
                        &&& matched(final(self).board@).is_empty() || c.2 >= 24
                        &&& exists|n: int|
                            0 <= n <= 8 && c.1 == 10 * c.2 + #[trigger] chain_extra(0, n) && c.2
                                >= 3 * n && (matched(c.0).is_empty() || n == 8)
                    },
                }
            },
    {
        if index >= CELL_COUNT || self.moves_left <= 0 {
            return;
        }
        let first = match self.selected {
            Some(first) => first,
            None => {
                self.selected = Some(index);
                self.message = "选择相邻图块进行交换。".to_owned();
                return;
            },
        };
        if first == index {
            self.selected = None;
            self.message = "已取消选择。".to_owned();
            return;
        }
        if !is_adjacent(first, index) {
            self.selected = Some(index);
            self.message = "只能交换上下左右相邻图块。".to_owned();
            return;
        }
        let ghost b0 = self.board@;
        swap_cells(&mut self.board, first, index);
        let matches = collect_matches(self.board.as_slice());
        if matches.is_empty() {
            swap_cells(&mut self.board, first, index);
            proof {
                law_swap_undone(b0, first as int, index as int);
            }
            self.selected = None;
            self.message = "这次交换没有形成三连。".to_owned();
            return;
        }
        self.moves_left = self.moves_left - 1;
        proof {
            lemma_cascade_len(self.board@, draws@, 0);
            lemma_cascade_bounds(self.board@, draws@, 0);
            law_clearing_swap_pays(self.board@, draws@);
            law_chain_scoring(self.board@, draws@);
            if gems_only(b0) {
                lemma_swapped_gems(b0, first as int, index as int);
                lemma_cascade_gems(self.board@, draws@, 0);
            }
        }
        let cleared = self.resolve_matches(matches, draws);
        self.selected = None;
        let mut message = "清扫成功，消除 ".to_owned();
        push_decimal(&mut message, cleared as i64);
        message.append(" 个图块。");
        self.message = message;
    }
}

proof fn lemma_cascade_len(b: Seq<i32>, d: Seq<u32>, chain: int)
    requires
        b.len() == 36,
        0 <= chain <= 8,
    ensures
        cascade(b, d, chain).0.len() == 36,
        cascade(b, d, chain).2 <= 36 * (8 - chain),
    decreases 8 - chain,
{
    lemma_cascade_bounds(b, d, chain);
    if chain < 8 && !matched(b).is_empty() {
        let m = matched(b);
        lemma_refill_len(b, m, d, 0);
        lemma_cascade_len(refilled(b, m, d), d.skip(refill_count(m) as int), chain + 1);
    }
}


/// Every cell holds one of the five gem kinds.
pub open spec fn gems_only(b: Seq<i32>) -> bool {
    forall|i: int| 0 <= i < b.len() ==> 0 <= #[trigger] b[i] < 5
}

proof fn lemma_refill_gems(b: Seq<i32>, m: Set<usize>, d: Seq<u32>, pos: int)
    requires
        gems_only(b),
        b.len() == 36,
        0 <= pos <= 36,
    ensures
        gems_only(refill_from(b, m, d, pos)),
    decreases 36 - pos,
{
    if pos < 36 {
        if m.contains(pos as usize) {
            crate::dice::lemma_scaled_below(d[0], 5);
            assert(0 <= gem_of(d[0]) < 5);
            assert(gems_only(b.update(pos, gem_of(d[0]))));
            lemma_refill_gems(b.update(pos, gem_of(d[0])), m, d.drop_first(), pos + 1);
        } else {
            lemma_refill_gems(b, m, d, pos + 1);
        }
    }
}

proof fn lemma_cascade_gems(b: Seq<i32>, d: Seq<u32>, chain: int)
    requires
        gems_only(b),
        b.len() == 36,
        0 <= chain <= 8,
    ensures
        gems_only(cascade(b, d, chain).0),
    decreases 8 - chain,
{
    if chain < 8 && !matched(b).is_empty() {
        let m = matched(b);
        lemma_refill_gems(b, m, d, 0);
        lemma_refill_len(b, m, d, 0);
        lemma_cascade_gems(refilled(b, m, d), d.skip(refill_count(m) as int), chain + 1);
    }
}

proof fn lemma_swapped_gems(b: Seq<i32>, i: int, j: int)
    requires
        gems_only(b),
        0 <= i < b.len(),
        0 <= j < b.len(),
    ensures
        gems_only(swapped(b, i, j)),
{
}

// ---------------------------------------------------------------------------
// How gems are drawn
// ---------------------------------------------------------------------------

/// The character shown on a gem of kind `value`.
pub open spec fn gem_label_of(value: i32) -> Seq<char> {
    if value == 0 { "叶"@ }
    else if value == 1 { "花"@ }
    else if value == 2 { "晶"@ }
    else if value == 3 { "丝"@ }
    else { "星"@ }
}

/// The character shown on a gem.
pub fn gem_label(value: i32) -> (r: &'static str)
    ensures
        r@ == gem_label_of(value),
{
    if value == 0 { "叶" }
    else if value == 1 { "花" }
    else if value == 2 { "晶" }
    else if value == 3 { "丝" }
    else { "星" }
}

/// The colour of a gem of kind `value`.
pub open spec fn gem_color_of(value: i32) -> Seq<char> {
    if value == 0 { "#f6c453"@ }
    else if value == 1 { "#ef6f8f"@ }
    else if value == 2 { "#57c7d4"@ }
    else if value == 3 { "#9b83f0"@ }
    else { "#77c96f"@ }
}

/// The colour of a gem.
pub fn gem_color(value: i32) -> (r: &'static str)
    ensures
        r@ == gem_color_of(value),
{
    if value == 0 { "#f6c453" }
    else if value == 1 { "#ef6f8f" }
    else if value == 2 { "#57c7d4" }
    else if value == 3 { "#9b83f0" }
    else { "#77c96f" }
}

// ---------------------------------------------------------------------------
// Limits of one swap
// ---------------------------------------------------------------------------

/// Points the chains of clears from chain number `chain` on can earn at
/// most: each remaining chain clears at most the whole board (360 points)
/// and adds at most 56 for its number.
pub open spec fn chain_points_limit(chain: int) -> int {
    416 * (8 - chain)
}

proof fn lemma_cascade_limits(b: Seq<i32>, d: Seq<u32>, chain: int)
    requires
        0 <= chain <= 8,
    ensures
        0 <= cascade(b, d, chain).1 <= chain_points_limit(chain),
        cascade(b, d, chain).3 <= 36 * (8 - chain),
    decreases 8 - chain,
{
    if chain < 8 && !matched(b).is_empty() {
        let m = matched(b);
        lemma_matched_len(b);
        lemma_refill_count_bound(m, 0);
        lemma_cascade_limits(refilled(b, m, d), d.skip(refill_count(m) as int), chain + 1);
    }
}

/// A line of equal gems holds at least three cells.
#[verifier::spinoff_prover]
proof fn lemma_matched_three(b: Seq<i32>)
    requires
        b.len() == 36,
        !matched(b).is_empty(),
    ensures
        matched(b).len() >= 3,
{
    lemma_matched_len(b);
    let m = matched(b);
    let i = m.choose();
    assert(m.contains(i));
    let r = (i / 6) as int;
    let c = (i % 6) as int;
    let (x, y, z): (int, int, int) = if row_triple_at(b, r, c) {
        if 2 <= c && cell(b, r, c - 2) == cell(b, r, c) && cell(b, r, c - 1) == cell(b, r, c) {
            (r * 6 + c - 2, r * 6 + c - 1, r * 6 + c)
        } else if 1 <= c <= 4 && cell(b, r, c - 1) == cell(b, r, c) && cell(b, r, c + 1) == cell(b, r, c) {
            (r * 6 + c - 1, r * 6 + c, r * 6 + c + 1)
        } else {
            (r * 6 + c, r * 6 + c + 1, r * 6 + c + 2)
        }
    } else {
        if 2 <= r && cell(b, r - 2, c) == cell(b, r, c) && cell(b, r - 1, c) == cell(b, r, c) {
            ((r - 2) * 6 + c, (r - 1) * 6 + c, r * 6 + c)
        } else if 1 <= r <= 4 && cell(b, r - 1, c) == cell(b, r, c) && cell(b, r + 1, c) == cell(b, r, c) {
            ((r - 1) * 6 + c, r * 6 + c, (r + 1) * 6 + c)
        } else {
            (r * 6 + c, (r + 1) * 6 + c, (r + 2) * 6 + c)
        }
    };
    assert(0 <= x < y < z < 36);
    assert(m.contains(x as usize)) by {
        assert((x as usize) / 6 == x / 6);
        assert((x as usize) % 6 == x % 6);
    }
    assert(m.contains(y as usize)) by {
        assert((y as usize) / 6 == y / 6);
        assert((y as usize) % 6 == y % 6);
    }
    assert(m.contains(z as usize)) by {
        assert((z as usize) / 6 == z / 6);
        assert((z as usize) % 6 == z % 6);
    }
    let three = set![x as usize, y as usize, z as usize];
    assert(three.subset_of(m));
    assert(three.len() == 3) by {
        assert(set![x as usize].len() == 1);
        assert(set![x as usize, y as usize].len() == 2);
    }
    vstd::set_lib::lemma_len_subset(three, m);
}

/// A swap that lines up gems earns at least thirty points and clears at
/// least three cells.
pub proof fn law_clearing_swap_pays(b: Seq<i32>, d: Seq<u32>)
    requires
        b.len() == 36,
        !matched(b).is_empty(),
    ensures
        cascade(b, d, 0).1 >= 30,
        cascade(b, d, 0).2 >= 3,
{
    lemma_matched_three(b);
    let m = matched(b);
    lemma_cascade_bounds(refilled(b, m, d), d.skip(refill_count(m) as int), 1);
}

/// The points of `n` chains starting at chain number `c` beyond ten per
/// cleared cell: eight per earlier chain, for each chain.
pub open spec fn chain_extra(c: int, n: int) -> int {
    4 * n * (2 * c + n - 1)
}

proof fn lemma_cascade_scoring(b: Seq<i32>, d: Seq<u32>, c: int)
    requires
        b.len() == 36,
        0 <= c <= 8,
    ensures
        exists|n: int|
            0 <= n <= 8 - c && #[trigger] chain_extra(c, n) == cascade(b, d, c).1 - 10 * cascade(b, d, c).2
                && cascade(b, d, c).2 >= 3 * n && (matched(cascade(b, d, c).0).is_empty() || n == 8 - c),
    decreases 8 - c,
{
    if c < 8 && !matched(b).is_empty() {
        let m = matched(b);
        lemma_matched_three(b);
        lemma_refill_len(b, m, d, 0);
        let b1 = refilled(b, m, d);
        let d1 = d.skip(refill_count(m) as int);
        lemma_cascade_scoring(b1, d1, c + 1);
        let n1 = choose|n: int|
            0 <= n <= 8 - (c + 1) && #[trigger] chain_extra(c + 1, n) == cascade(b1, d1, c + 1).1 - 10
                * cascade(b1, d1, c + 1).2 && cascade(b1, d1, c + 1).2 >= 3 * n && (matched(
                cascade(b1, d1, c + 1).0,
            ).is_empty() || n == 8 - (c + 1));
        assert(chain_extra(c, n1 + 1) == 8 * c + chain_extra(c + 1, n1)) by (nonlinear_arith);
        assert(chain_extra(c, n1 + 1) == cascade(b, d, c).1 - 10 * cascade(b, d, c).2);
    } else {
        assert(chain_extra(c, 0) == 0) by (nonlinear_arith);
    }
}

/// How the clears after a swap score: when `n` chains of clears run (at
/// most eight), the points are ten per cleared cell plus, for each chain,
/// eight per chain before it; each chain clears at least three cells; and
/// the final board has no three equal gems in a line unless all eight chains
/// ran.
pub proof fn law_chain_scoring(b: Seq<i32>, d: Seq<u32>)
    requires
        b.len() == 36,
    ensures
        exists|n: int|
            0 <= n <= 8 && cascade(b, d, 0).1 == 10 * cascade(b, d, 0).2 + #[trigger] chain_extra(0, n)
                && cascade(b, d, 0).2 >= 3 * n && (matched(cascade(b, d, 0).0).is_empty() || n == 8),
{
    lemma_cascade_scoring(b, d, 0);
}

/// The clears that follow one swap earn at most 3328 points and take at
/// most 288 draws, whatever the board and the draws.
pub proof fn law_swap_limits(b: Seq<i32>, d: Seq<u32>)
    ensures
        0 <= cascade(b, d, 0).1 <= 3328,
        cascade(b, d, 0).3 <= 288,
{
    lemma_cascade_limits(b, d, 0);
}

impl Match3Game {
    /// A test that suffices for `tap`: the board and the selection are in
    /// range, the score has room for the most one swap can earn, and the
    /// draws at hand cover the most one swap can take.
    pub fn tap_fits(&self, index: usize, draws: &Draws) -> (r: bool)
        ensures
            r == ({
                &&& self.board@.len() == 36
                &&& (self.selected matches Some(first) ==> first < 36)
                &&& self.score + 3328 <= i32::MAX
                &&& draws@.len() >= 288
            }),
            r ==> ({
                &&& self.board@.len() == 36
                &&& (self.selected matches Some(first) ==> first < 36)
                &&& self.swap_clears(index) ==> {
                    let first = self.selected->0;
                    let c = cascade(swapped(self.board@, first as int, index as int), draws@, 0);
                    &&& draws@.len() >= c.3
                    &&& self.score + c.1 <= i32::MAX
                }
            }),
    {
        proof {
            if self.selected is Some {
                let first = self.selected->0;
                law_swap_limits(swapped(self.board@, first as int, index as int), draws@);
            }
        }
        let selected_ok = match self.selected {
            Some(first) => first < 36,
            None => true,
        };
        self.board.len() == 36 && selected_ok && self.score as i64 + 3328 <= i32::MAX as i64
            && draws.remaining() >= 288
    }
}

} // verus!
