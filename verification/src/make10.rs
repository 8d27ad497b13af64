//! The 4x4 "make ten" game: chains of touching numbers are selected, and a
//! chain adding up to exactly ten is cleared and refilled.

use vstd::prelude::*;
use crate::dice::{Draws, scaled, scale_draw};
use crate::text::{decimal, push_decimal};

verus! {

/// Side of the board.
pub const BOARD_SIZE: usize = 4;

/// Number of cells.
pub const CELL_COUNT: usize = 16;

/// The number in `1..=9` a draw selects.
pub open spec fn number_of(r: u32) -> i32 {
    (scaled(r, 9) + 1) as i32
}

/// Whether cells `a` and `b` of the 4x4 board share a side.
pub open spec fn side_by_side(a: int, b: int) -> bool {
    let dr = if a / 4 >= b / 4 { a / 4 - b / 4 } else { b / 4 - a / 4 };
    let dc = if a % 4 >= b % 4 { a % 4 - b % 4 } else { b % 4 - a % 4 };
    dr + dc == 1
}

/// Sum of the numbers in the selected cells.
pub open spec fn picked_sum(b: Seq<i32>, sel: Seq<usize>) -> int
    decreases sel.len(),
{
    if sel.len() == 0 {
        0
    } else {
        b[sel[0] as int] + picked_sum(b, sel.skip(1))
    }
}

/// The running sum over the first `k` selected cells.
pub open spec fn running_sum(b: Seq<i32>, sel: Seq<usize>, k: int) -> int {
    picked_sum(b, sel.take(k))
}

/// Adding up the selected numbers in order stays within `i32`.
pub open spec fn sum_fits(b: Seq<i32>, sel: Seq<usize>) -> bool {
    forall|k: int|
        0 <= k <= sel.len() ==> i32::MIN <= #[trigger] running_sum(b, sel, k) <= i32::MAX
}

/// The selection without any occurrence of `x`.
pub open spec fn without(sel: Seq<usize>, x: usize) -> Seq<usize>
    decreases sel.len(),
{
    if sel.len() == 0 {
        sel
    } else if sel[0] == x {
        without(sel.skip(1), x)
    } else {
        seq![sel[0]] + without(sel.skip(1), x)
    }
}

/// The board after the selected cells are refilled in selection order, each
/// with the number of the next draw.
pub open spec fn redealt(b: Seq<i32>, sel: Seq<usize>, d: Seq<u32>) -> Seq<i32>
    decreases sel.len(),
{
    if sel.len() == 0 {
        b
    } else {
        redealt(b.update(sel[0] as int, number_of(d[0])), sel.skip(1), d.skip(1))
    }
}

/// Points for clearing a chain of `len` cells as combo number `combos`.
pub open spec fn clear_bonus(len: int, combos: int) -> int {
    20 + len * 12 + combos * 5
}

/// What tapping cell `index` of game `g` with the draws `d` does: `h` is the
/// game after the tap and `e` the draws left. Tapping a selected cell drops
/// it from the chain; tapping a cell not touching the end of the chain starts
/// a new chain; otherwise the cell joins the chain. A chain adding up to ten
/// scores, costs a move and is refilled; going over ten starts again from the
/// tapped cell.
pub open spec fn tap_outcome(g: Make10Game, index: usize, d: Seq<u32>, h: Make10Game, e: Seq<u32>) -> bool {
    if index >= 16 || g.moves_left <= 0 {
        &&& h == g
        &&& e == d
    } else if g.selected@.contains(index) {
        &&& h.board == g.board
        &&& h.score == g.score
        &&& h.moves_left == g.moves_left
        &&& h.combos == g.combos
        &&& h.selected@ == without(g.selected@, index)
        &&& h.message@ == "已移除一个数字。"@
        &&& e == d
    } else if !g.extends(index) {
        &&& h.board == g.board
        &&& h.score == g.score
        &&& h.moves_left == g.moves_left
        &&& h.combos == g.combos
        &&& h.selected@ == seq![index]
        &&& h.message@ == "路线断开，已重新开始选择。"@
        &&& e == d
    } else {
        let chain = g.selected@.push(index);
        let sum = picked_sum(g.board@, chain);
        if sum == 10 {
            &&& h.board@ == redealt(g.board@, chain, d)
            &&& h.score == g.score + clear_bonus(
                chain.len() as int,
                g.combos as int,
            )
            &&& h.moves_left == g.moves_left - 1
            &&& h.combos == g.combos + 1
            &&& h.selected@.len() == 0
            &&& h.message@ == "正好到十，连击 "@ + decimal(g.combos + 1)
                + "。"@
            &&& e == d.skip(chain.len() as int)
        } else if sum > 10 {
            &&& h.board == g.board
            &&& h.score == g.score
            &&& h.moves_left == g.moves_left
            &&& h.combos == g.combos
            &&& h.selected@ == seq![index]
            &&& h.message@ == "超过 10 了，从当前数字重新开始。"@
            &&& e == d
        } else {
            &&& h.board == g.board
            &&& h.score == g.score
            &&& h.moves_left == g.moves_left
            &&& h.combos == g.combos
            &&& h.selected@ == chain
            &&& h.message@ == "当前合计 "@ + decimal(sum) + "，继续找相邻数字。"@
            &&& e == d
        }
    }
}

fn is_adjacent(a: usize, b: usize) -> (r: bool)
    ensures
        r == side_by_side(a as int, b as int),
{
    let ar = a / BOARD_SIZE;
    let ac = a % BOARD_SIZE;
    let br = b / BOARD_SIZE;
    let bc = b % BOARD_SIZE;
    let dr = if ar >= br { ar - br } else { br - ar };
    let dc = if ac >= bc { ac - bc } else { bc - ac };
    dr as u128 + dc as u128 == 1
}

fn random_number(draws: &mut Draws) -> (n: i32)
    requires
        old(draws)@.len() >= 1,
    ensures
        n == number_of(old(draws)@[0]),
        1 <= n <= 9,
        final(draws)@ == old(draws)@.drop_first(),
{
    let r = draws.take();
    let k = scale_draw(r, 9);
    k as i32 + 1
}

proof fn lemma_running_step(b: Seq<i32>, sel: Seq<usize>, k: int)
    requires
        0 <= k < sel.len(),
    ensures
        running_sum(b, sel, k + 1) == running_sum(b, sel, k) + b[sel[k] as int],
    decreases k,
{
    if k == 0 {
        assert(sel.take(1).skip(1) =~= Seq::<usize>::empty());
        assert(sel.take(0) =~= Seq::<usize>::empty());
    } else {
        lemma_running_step(b, sel.skip(1), k - 1);
        assert(sel.take(k + 1).skip(1) =~= sel.skip(1).take(k));
        assert(sel.take(k).skip(1) =~= sel.skip(1).take(k - 1));
    }
}

/// The board of the "make ten" game in progress.
pub struct Make10Game {
    pub board: Vec<i32>,
    pub score: i32,
    pub moves_left: i32,
    pub combos: i32,
    pub selected: Vec<usize>,
    pub message: String,
}

impl Make10Game {
    /// The sum of the selected numbers.
    pub fn selected_sum(&self) -> (sum: i32)
        requires
            forall|k: int| 0 <= k < self.selected@.len() ==> #[trigger] self.selected@[k]
                < self.board@.len(),
            sum_fits(self.board@, self.selected@),
        ensures
            sum == picked_sum(self.board@, self.selected@),
    {
        let mut sum: i32 = 0;
        let mut k: usize = 0;
        assert(self.selected@.take(0) =~= Seq::<usize>::empty());
        while k < self.selected.len()
            invariant
                k <= self.selected@.len(),
                forall|j: int| 0 <= j < self.selected@.len() ==> #[trigger] self.selected@[j]
                    < self.board@.len(),
                sum_fits(self.board@, self.selected@),
                sum == running_sum(self.board@, self.selected@, k as int),
            decreases self.selected@.len() - k,
        {
            proof {
                lemma_running_step(self.board@, self.selected@, k as int);
                assert(i32::MIN <= running_sum(self.board@, self.selected@, k + 1) <= i32::MAX);
            }
            sum = sum + self.board[self.selected[k]];
            k = k + 1;
        }
        assert(self.selected@.take(self.selected@.len() as int) =~= self.selected@);
        sum
    }
}


fn selection_contains(sel: &Vec<usize>, x: usize) -> (r: bool)
    ensures
        r == sel@.contains(x),
{
    let mut k: usize = 0;
    while k < sel.len()
        invariant
            k <= sel@.len(),
            forall|j: int| 0 <= j < k ==> sel@[j] != x,
        decreases sel@.len() - k,
    {
        if sel[k] == x {
            return true;
        }
        k = k + 1;
    }
    false
}

fn remove_all(sel: &Vec<usize>, x: usize) -> (r: Vec<usize>)
    ensures
        r@ == without(sel@, x),
{
    let mut r: Vec<usize> = Vec::new();
    let mut k: usize = 0;
    assert(sel@.skip(0) =~= sel@);
    while k < sel.len()
        invariant
            k <= sel@.len(),
            r@ + without(sel@.skip(k as int), x) == without(sel@, x),
        decreases sel@.len() - k,
    {
        let ghost rest = sel@.skip(k as int);
        assert(rest.skip(1) =~= sel@.skip(k + 1));
        let ghost before = r@;
        if sel[k] != x {
            r.push(sel[k]);
            assert(r@ + without(sel@.skip(k + 1), x) =~= before + without(rest, x)) by {
                assert(without(rest, x) == seq![sel@[k as int]] + without(rest.skip(1), x));
            }
        }
        k = k + 1;
    }
    assert(sel@.skip(sel@.len() as int) =~= Seq::<usize>::empty());
    assert(r@ =~= without(sel@, x));
    r
}

impl Make10Game {
    /// Whether tapping `index` adds it to the end of the selected chain.
    pub open spec fn extends(self, index: usize) -> bool {
        &&& index < 16
        &&& self.moves_left > 0
        &&& !self.selected@.contains(index)
        &&& (self.selected@.len() == 0 || side_by_side(self.selected@.last() as int, index as int))
    }

    /// Whether tapping `index` completes a chain adding up to ten.
    pub open spec fn completes(self, index: usize) -> bool {
        self.extends(index) && picked_sum(self.board@, self.selected@.push(index)) == 10
    }

    /// A new game: sixteen numbers from the draws, sixteen moves.
    pub fn new(draws: &mut Draws) -> (g: Self)
        requires
            old(draws)@.len() >= 16,
        ensures
            g.board@ == Seq::new(16, |i: int| number_of(old(draws)@[i])),
            final(draws)@ == old(draws)@.skip(16),
            g.score == 0,
            g.moves_left == 16,
            g.combos == 0,
            g.selected@.len() == 0,
            g.message@ == "点选相邻数字，凑到 10 自动清除。"@,
    {
        let ghost d0 = draws@;
        let mut board: Vec<i32> = Vec::new();
        let mut i: usize = 0;
        assert(d0.skip(0) =~= d0);
        while i < CELL_COUNT
            invariant
                i <= 16,
                d0.len() >= 16,
                draws@ == d0.skip(i as int),
                board@.len() == i,
                forall|k: int| 0 <= k < i ==> board@[k] == number_of(d0[k]),
            decreases 16 - i,
        {
            let n = random_number(draws);
            board.push(n);
            i = i + 1;
            assert(draws@ =~= d0.skip(i as int));
        }
        assert(board@ =~= Seq::new(16, |i: int| number_of(d0[i])));
        Self {
            board,
            score: 0,
            moves_left: 16,
            combos: 0,
            selected: Vec::new(),
            message: "点选相邻数字，凑到 10 自动清除。".to_owned(),
        }
    }

    /// Taps cell `index`. Tapping a selected cell drops it from the chain;
    /// tapping a cell not touching the end of the chain starts a new chain;
    /// otherwise the cell joins the chain. A chain adding up to ten scores,
    /// costs a move and is refilled; going over ten starts again from the
    /// tapped cell.
    pub fn tap(&mut self, index: usize, draws: &mut Draws)
        requires
            old(self).board@.len() == 16,
            forall|k: int| 0 <= k < old(self).selected@.len() ==> #[trigger] old(self).selected@[k]
                < 16,
            old(self).extends(index) ==> sum_fits(old(self).board@, old(self).selected@.push(index)),
            old(self).completes(index) ==> {
                let n = old(self).selected@.len() + 1int;
                &&& 20 + n * 12 <= i32::MAX
                &&& i32::MIN <= old(self).combos * 5 <= i32::MAX
                &&& clear_bonus(n, old(self).combos as int) <= i32::MAX
                &&& i32::MIN <= old(self).score + clear_bonus(n, old(self).combos as int) <= i32::MAX
                &&& old(self).combos < i32::MAX
                &&& old(draws)@.len() >= n
            },
        ensures
            final(self).board@.len() == 16,
            forall|k: int| 0 <= k < final(self).selected@.len() ==> #[trigger] final(self).selected@[k]
                < 16,
            digits_only(old(self).board@) ==> digits_only(final(self).board@),
            digits_only(old(self).board@) && picked_sum(old(self).board@, old(self).selected@) < 10
                ==> picked_sum(final(self).board@, final(self).selected@) < 10,
            old(self).selected@.no_duplicates() ==> final(self).selected@.no_duplicates(),
            old(self).moves_left - 1 <= final(self).moves_left <= old(self).moves_left,
            old(self).combos >= 0 ==> {
                &&& final(self).combos >= 0
                &&& final(self).score >= old(self).score
                &&& (final(self).score > old(self).score) == (final(self).moves_left == old(self).moves_left
                    - 1)
                &&& (final(self).moves_left == old(self).moves_left - 1) == (final(self).combos
                    == old(self).combos + 1)
            },
            tap_outcome(*old(self), index, old(draws)@, *final(self), final(draws)@),
    {
        if index >= CELL_COUNT || self.moves_left <= 0 {
            return;
        }
        if selection_contains(&self.selected, index) {
            let kept = remove_all(&self.selected, index);
            proof {
                lemma_without_members(old(self).selected@, index);
                if digits_only(old(self).board@) {
                    lemma_without_sum(old(self).board@, old(self).selected@, index);
                    lemma_picked_sum_nonneg(old(self).board@, without(old(self).selected@, index));
                }
                if old(self).selected@.no_duplicates() {
                    lemma_without_distinct(old(self).selected@, index);
                }
            }
            self.selected = kept;
            self.message = "已移除一个数字。".to_owned();
            return;
        }
        if self.selected.len() > 0 {
            let last = self.selected[self.selected.len() - 1];
            if !is_adjacent(last, index) {
                self.selected.clear();
                self.selected.push(index);
                proof {
                    lemma_single_sum(self.board@, index);
                }
                self.message = "路线断开，已重新开始选择。".to_owned();
                return;
            }
        }
        self.selected.push(index);
        proof {
            lemma_pushed_sum(self.board@, old(self).selected@, index);
            if digits_only(old(self).board@) {
                lemma_picked_sum_nonneg(old(self).board@, old(self).selected@);
            }
        }
        let sum = self.selected_sum();
        if sum == 10 {
            let count = self.selected.len() as i32;
            self.score = self.score + (20 + count * 12 + self.combos * 5);
            self.combos = self.combos + 1;
            self.moves_left = self.moves_left - 1;
            let ghost chain = self.selected@;
            let ghost d0 = draws@;
            let ghost b0 = self.board@;
            let ghost kept = (self.score, self.moves_left, self.combos, self.message);
            let mut k: usize = 0;
            assert(chain.skip(0) =~= chain);
            assert(d0.skip(0) =~= d0);
            while k < self.selected.len()
                invariant
                    self.selected@ == chain,
                    k <= chain.len(),
                    self.board@.len() == 16,
                    forall|j: int| 0 <= j < chain.len() ==> #[trigger] chain[j] < 16,
                    d0.len() >= chain.len(),
                    draws@ == d0.skip(k as int),
                    kept == (self.score, self.moves_left, self.combos, self.message),
                    redealt(self.board@, chain.skip(k as int), draws@) == redealt(b0, chain, d0),
                decreases chain.len() - k,
            {
                let ghost rest = chain.skip(k as int);
                assert(rest.skip(1) =~= chain.skip(k + 1));
                let n = random_number(draws);
                self.board.set(self.selected[k], n);
                k = k + 1;
                assert(draws@ =~= d0.skip(k as int));
                assert(d0.skip(k - 1).skip(1) =~= d0.skip(k as int));
            }
            assert(chain.skip(chain.len() as int) =~= Seq::<usize>::empty());
            proof {
                if digits_only(b0) {
                    lemma_redealt_digits(b0, chain, d0);
                }
            }
            self.selected.clear();
            assert(picked_sum(self.board@, self.selected@) == 0);
            let mut message = "正好到十，连击 ".to_owned();
            push_decimal(&mut message, self.combos as i64);
            message.append("。");
            self.message = message;
        } else if sum > 10 {
            self.selected.clear();
            self.selected.push(index);
            proof {
                lemma_single_sum(self.board@, index);
            }
            self.message = "超过 10 了，从当前数字重新开始。".to_owned();
        } else {
            let mut message = "当前合计 ".to_owned();
            push_decimal(&mut message, sum as i64);
            message.append("，继续找相邻数字。");
            self.message = message;
        }
    }
}

proof fn lemma_without_members(sel: Seq<usize>, x: usize)
    ensures
        forall|k: int| 0 <= k < without(sel, x).len() ==> sel.contains(#[trigger] without(sel, x)[k]),
        !without(sel, x).contains(x),
    decreases sel.len(),
{
    if sel.len() > 0 {
        lemma_without_members(sel.skip(1), x);
        let w = without(sel, x);
        let rest = without(sel.skip(1), x);
        assert forall|k: int| 0 <= k < w.len() implies sel.contains(#[trigger] w[k]) by {
            if sel[0] == x {
                assert(sel.skip(1).contains(w[k]));
                let j = choose|j: int| 0 <= j < sel.skip(1).len() && sel.skip(1)[j] == w[k];
                assert(sel[j + 1] == w[k]);
            } else if k == 0 {
                assert(sel[0] == w[0]);
            } else {
                assert(w[k] == rest[k - 1]);
                assert(sel.skip(1).contains(w[k]));
                let j = choose|j: int| 0 <= j < sel.skip(1).len() && sel.skip(1)[j] == w[k];
                assert(sel[j + 1] == w[k]);
            }
        }
        if sel[0] != x {
            assert forall|k: int| 0 <= k < w.len() implies w[k] != x by {
                if k > 0 {
                    assert(w[k] == rest[k - 1]);
                }
            }
        }
    }
}


/// Every cell holds a number from one to nine.
pub open spec fn digits_only(b: Seq<i32>) -> bool {
    forall|i: int| 0 <= i < b.len() ==> 1 <= #[trigger] b[i] <= 9
}

proof fn lemma_picked_sum_nonneg(b: Seq<i32>, sel: Seq<usize>)
    requires
        digits_only(b),
        forall|k: int| 0 <= k < sel.len() ==> #[trigger] sel[k] < b.len(),
    ensures
        picked_sum(b, sel) >= 0,
    decreases sel.len(),
{
    if sel.len() > 0 {
        assert forall|k: int| 0 <= k < sel.skip(1).len() implies #[trigger] sel.skip(1)[k] < b.len() by {
            assert(sel.skip(1)[k] == sel[k + 1]);
        }
        lemma_picked_sum_nonneg(b, sel.skip(1));
        assert(b[sel[0] as int] >= 1);
    }
}

proof fn lemma_without_sum(b: Seq<i32>, sel: Seq<usize>, x: usize)
    requires
        digits_only(b),
        forall|k: int| 0 <= k < sel.len() ==> #[trigger] sel[k] < b.len(),
    ensures
        picked_sum(b, without(sel, x)) <= picked_sum(b, sel),
    decreases sel.len(),
{
    if sel.len() > 0 {
        assert forall|k: int| 0 <= k < sel.skip(1).len() implies #[trigger] sel.skip(1)[k] < b.len() by {
            assert(sel.skip(1)[k] == sel[k + 1]);
        }
        lemma_without_sum(b, sel.skip(1), x);
        assert(b[sel[0] as int] >= 1);
        if sel[0] != x {
            let w = seq![sel[0]] + without(sel.skip(1), x);
            assert(w.skip(1) =~= without(sel.skip(1), x));
        }
    }
}

proof fn lemma_without_distinct(sel: Seq<usize>, x: usize)
    requires
        sel.no_duplicates(),
    ensures
        without(sel, x).no_duplicates(),
    decreases sel.len(),
{
    if sel.len() > 0 {
        let tail = sel.skip(1);
        assert(tail.no_duplicates()) by {
            assert forall|i: int, j: int| 0 <= i < tail.len() && 0 <= j < tail.len() && i != j implies tail[i] != tail[j] by {
                assert(tail[i] == sel[i + 1] && tail[j] == sel[j + 1]);
            }
        }
        lemma_without_distinct(tail, x);
        lemma_without_members(tail, x);
        if sel[0] != x {
            let w = seq![sel[0]] + without(tail, x);
            let r = without(tail, x);
            assert forall|i: int, j: int| 0 <= i < w.len() && 0 <= j < w.len() && i != j implies w[i] != w[j] by {
                if i > 0 && j > 0 {
                    assert(w[i] == r[i - 1] && w[j] == r[j - 1]);
                } else if i == 0 {
                    assert(w[j] == r[j - 1]);
                    assert(tail.contains(r[j - 1]));
                    let k = choose|k: int| 0 <= k < tail.len() && tail[k] == r[j - 1];
                    assert(sel[k + 1] == tail[k]);
                } else {
                    assert(w[i] == r[i - 1]);
                    assert(tail.contains(r[i - 1]));
                    let k = choose|k: int| 0 <= k < tail.len() && tail[k] == r[i - 1];
                    assert(sel[k + 1] == tail[k]);
                }
            }
        }
    }
}

proof fn lemma_redealt_digits(b: Seq<i32>, sel: Seq<usize>, d: Seq<u32>)
    requires
        digits_only(b),
        forall|k: int| 0 <= k < sel.len() ==> #[trigger] sel[k] < b.len(),
    ensures
        digits_only(redealt(b, sel, d)),
        redealt(b, sel, d).len() == b.len(),
    decreases sel.len(),
{
    if sel.len() > 0 {
        let nb = b.update(sel[0] as int, number_of(d[0]));
        crate::dice::lemma_scaled_below(d[0], 9);
        assert(digits_only(nb));
        assert forall|k: int| 0 <= k < sel.skip(1).len() implies #[trigger] sel.skip(1)[k] < nb.len() by {
            assert(sel.skip(1)[k] == sel[k + 1]);
        }
        lemma_redealt_digits(nb, sel.skip(1), d.skip(1));
    }
}

proof fn lemma_pushed_sum(b: Seq<i32>, sel: Seq<usize>, x: usize)
    ensures
        picked_sum(b, sel.push(x)) == picked_sum(b, sel) + b[x as int],
    decreases sel.len(),
{
    reveal_with_fuel(picked_sum, 2);
    if sel.len() == 0 {
        assert(sel.push(x).skip(1) =~= Seq::<usize>::empty());
    } else {
        lemma_pushed_sum(b, sel.skip(1), x);
        assert(sel.push(x).skip(1) =~= sel.skip(1).push(x));
    }
}

proof fn lemma_single_sum(b: Seq<i32>, x: usize)
    ensures
        picked_sum(b, seq![x]) == b[x as int],
{
    reveal_with_fuel(picked_sum, 2);
    assert(seq![x].skip(1) =~= Seq::<usize>::empty());
}

impl Make10Game {
    /// Whether tapping `index` may be done with `available` draws at hand:
    /// the condition of `tap`, as an executable test.
    pub fn tap_fits(&self, index: usize, available: usize) -> (r: bool)
        ensures
            r == ({
                &&& self.board@.len() == 16
                &&& forall|k: int| 0 <= k < self.selected@.len() ==> #[trigger] self.selected@[k] < 16
                &&& self.extends(index) ==> sum_fits(self.board@, self.selected@.push(index))
                &&& self.completes(index) ==> {
                    let n = self.selected@.len() + 1int;
                    &&& 20 + n * 12 <= i32::MAX
                    &&& i32::MIN <= self.combos * 5 <= i32::MAX
                    &&& clear_bonus(n, self.combos as int) <= i32::MAX
                    &&& i32::MIN <= self.score + clear_bonus(n, self.combos as int) <= i32::MAX
                    &&& self.combos < i32::MAX
                    &&& available >= n
                }
            }),
    {
        if self.board.len() != 16 {
            return false;
        }
        let sel = &self.selected;
        let mut k: usize = 0;
        while k < sel.len()
            invariant
                sel@ == self.selected@,
                k <= sel@.len(),
                forall|j: int| 0 <= j < k ==> #[trigger] sel@[j] < 16,
            decreases sel@.len() - k,
        {
            if sel[k] >= 16 {
                return false;
            }
            k = k + 1;
        }
        let extends = index < 16 && self.moves_left > 0 && !selection_contains(sel, index) && (sel.len()
            == 0 || is_adjacent(sel[sel.len() - 1], index));
        if !extends {
            return true;
        }
        let ghost chain = sel@.push(index);
        let ghost b = self.board@;
        let mut sum: i64 = 0;
        let mut j: usize = 0;
        assert(chain.take(0) =~= Seq::<usize>::empty());
        while j < sel.len()
            invariant
                sel@ == self.selected@,
                self.extends(index),
                chain == sel@.push(index),
                index < 16,
                forall|i: int| 0 <= i < sel@.len() ==> #[trigger] sel@[i] < 16,
                b == self.board@,
                b.len() == 16,
                j <= sel@.len(),
                sum == running_sum(b, chain, j as int),
                forall|i: int| 0 <= i <= j ==> i32::MIN <= #[trigger] running_sum(b, chain, i) <= i32::MAX,
            decreases sel@.len() - j,
        {
            proof {
                lemma_running_step(b, chain, j as int);
            }
            assert(sel@[j as int] == chain[j as int]);
            sum = sum + self.board[sel[j]] as i64;
            if sum < i32::MIN as i64 || sum > i32::MAX as i64 {
                return false;
            }
            j = j + 1;
        }
        proof {
            lemma_running_step(b, chain, j as int);
        }
        assert(chain[j as int] == index);
        sum = sum + self.board[index] as i64;
        if sum < i32::MIN as i64 || sum > i32::MAX as i64 {
            return false;
        }
        assert(chain.take(chain.len() as int) =~= chain);
        assert(forall|i: int| 0 <= i <= chain.len() ==> i32::MIN <= #[trigger] running_sum(b, chain, i) <= i32::MAX);
        if sum != 10 {
            return true;
        }
        let len = sel.len() as i128 + 1;
        let combos = self.combos as i128;
        let bonus = 20 + len * 12 + combos * 5;
        let total = self.score as i128 + bonus;
        20 + len * 12 <= i32::MAX as i128 && bonus <= i32::MAX as i128 && i32::MIN as i128 <= total && total
            <= i32::MAX as i128 && self.combos < i32::MAX && combos * 5 <= i32::MAX as i128 && combos * 5
            >= i32::MIN as i128 && available as i128 >= len
    }
}

/// Clearing a chain of `n` cells pays 20 points, 12 per cell and 5 for every
/// combo made before it, so a later combo pays 5 more per earlier combo than
/// the same chain as the first; the clear costs one move and counts a combo.
pub proof fn law_combo_bonus(g: Make10Game, index: usize, d: Seq<u32>, h: Make10Game, e: Seq<u32>)
    requires
        tap_outcome(g, index, d, h, e),
        g.completes(index),
    ensures
        h.score == g.score + 20 + 12 * (g.selected@.len() + 1) + 5 * g.combos,
        h.combos == g.combos + 1,
        h.moves_left == g.moves_left - 1,
        h.selected@.len() == 0,
        e == d.skip(g.selected@.len() + 1int),
{
}

proof fn lemma_redealt_cells(b: Seq<i32>, sel: Seq<usize>, d: Seq<u32>)
    requires
        sel.no_duplicates(),
        forall|k: int| 0 <= k < sel.len() ==> #[trigger] sel[k] < b.len(),
        d.len() >= sel.len(),
    ensures
        redealt(b, sel, d).len() == b.len(),
        forall|k: int| 0 <= k < sel.len() ==> #[trigger] redealt(b, sel, d)[sel[k] as int] == number_of(d[k]),
        forall|i: int| 0 <= i < b.len() && !sel.contains(i as usize) ==> #[trigger] redealt(b, sel, d)[i] == b[i],
    decreases sel.len(),
{
    if sel.len() > 0 {
        let b1 = b.update(sel[0] as int, number_of(d[0]));
        let tail = sel.skip(1);
        assert forall|k: int| 0 <= k < tail.len() implies #[trigger] tail[k] < b1.len() by {
            assert(tail[k] == sel[k + 1]);
        }
        assert(tail.no_duplicates()) by {
            assert forall|x: int, y: int| 0 <= x < tail.len() && 0 <= y < tail.len() && x != y implies tail[x]
                != tail[y] by {
                assert(tail[x] == sel[x + 1] && tail[y] == sel[y + 1]);
            }
        }
        lemma_redealt_cells(b1, tail, d.skip(1));
        let r = redealt(b, sel, d);
        assert forall|k: int| 0 <= k < sel.len() implies #[trigger] r[sel[k] as int] == number_of(d[k]) by {
            if k == 0 {
                if tail.contains(sel[0]) {
                    let j = choose|j: int| 0 <= j < tail.len() && tail[j] == sel[0];
                    assert(sel[j + 1] == sel[0]);
                }
            } else {
                assert(tail[k - 1] == sel[k]);
                assert(d.skip(1)[k - 1] == d[k]);
            }
        }
        assert forall|i: int| 0 <= i < b.len() && !sel.contains(i as usize) implies #[trigger] r[i] == b[i] by {
            assert(i != sel[0] as int) by {
                assert(sel[0] == sel[0]);
                if i == sel[0] as int {
                    assert(sel.contains(sel[0]));
                }
            }
            if tail.contains(i as usize) {
                let j = choose|j: int| 0 <= j < tail.len() && tail[j] == i as usize;
                assert(sel[j + 1] == i as usize);
            }
        }
    }
}

/// A cleared chain is refilled cell by cell in the order it was chosen, the
/// k-th cell with the number of the k-th draw; every other cell keeps its
/// number.
pub proof fn law_clear_refills(g: Make10Game, index: usize, d: Seq<u32>, h: Make10Game, e: Seq<u32>)
    requires
        tap_outcome(g, index, d, h, e),
        g.completes(index),
        g.board@.len() == 16,
        g.selected@.no_duplicates(),
        forall|k: int| 0 <= k < g.selected@.len() ==> #[trigger] g.selected@[k] < 16,
        d.len() >= g.selected@.len() + 1,
    ensures
        ({
            let chain = g.selected@.push(index);
            &&& h.board@.len() == 16
            &&& forall|k: int| 0 <= k < chain.len() ==> #[trigger] h.board@[chain[k] as int] == number_of(d[k])
            &&& forall|i: int| 0 <= i < 16 && !chain.contains(i as usize) ==> #[trigger] h.board@[i] == g.board@[i]
        }),
{
    let chain = g.selected@.push(index);
    assert forall|k: int| 0 <= k < chain.len() implies #[trigger] chain[k] < 16 by {
        if k < g.selected@.len() {
            assert(chain[k] == g.selected@[k]);
        }
    }
    assert(chain.no_duplicates()) by {
        assert forall|x: int, y: int| 0 <= x < chain.len() && 0 <= y < chain.len() && x != y implies chain[x]
            != chain[y] by {
            if x == g.selected@.len() {
                assert(chain[y] == g.selected@[y]);
            } else if y == g.selected@.len() {
                assert(chain[x] == g.selected@[x]);
            }
        }
    }
    lemma_redealt_cells(g.board@, chain, d);
}

} // verus!
