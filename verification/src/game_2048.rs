//! The 4x4 sliding-tile game: tiles slide toward a side, equal neighbours
//! merge once per move, and a new tile appears after every move that
//! changes the board.

use vstd::prelude::*;
use crate::dice::{Draws, scaled, scale_draw, lemma_scaled_below};
use crate::text::text_eq;

verus! {

// ---------------------------------------------------------------------------
// The rule on one line of four cells
// ---------------------------------------------------------------------------

/// The non-empty cells of a line, in order.
pub open spec fn nonzero(s: Seq<i32>) -> Seq<i32>
    decreases s.len(),
{
    if s.len() == 0 {
        s
    } else if s[0] == 0 {
        nonzero(s.skip(1))
    } else {
        seq![s[0]] + nonzero(s.skip(1))
    }
}

/// Greedy merging from the front: two equal leading tiles become one tile of
/// twice the value, and neither takes part in another merge.
pub open spec fn merge_pairs(s: Seq<i32>) -> Seq<i32>
    decreases s.len(),
{
    if s.len() == 0 {
        s
    } else if s.len() >= 2 && s[0] == s[1] {
        seq![(s[0] * 2) as i32] + merge_pairs(s.skip(2))
    } else {
        seq![s[0]] + merge_pairs(s.skip(1))
    }
}

/// The points a merge pass earns: the values of the tiles it creates.
pub open spec fn merge_gain(s: Seq<i32>) -> int
    decreases s.len(),
{
    if s.len() == 0 {
        0
    } else if s.len() >= 2 && s[0] == s[1] {
        s[0] * 2 + merge_gain(s.skip(2))
    } else {
        merge_gain(s.skip(1))
    }
}

/// `s` followed by zeros up to length `n`.
pub open spec fn pad_zeros(s: Seq<i32>, n: nat) -> Seq<i32> {
    s + Seq::new((n - s.len()) as nat, |i: int| 0i32)
}

/// A line of four after sliding toward its front.
pub open spec fn slid_line(row: Seq<i32>) -> Seq<i32> {
    pad_zeros(merge_pairs(nonzero(row)), 4)
}

/// The points earned by sliding a line toward its front.
pub open spec fn slide_gain(row: Seq<i32>) -> int {
    merge_gain(nonzero(row))
}

/// Sum of the values of a sequence of cells.
pub open spec fn total(s: Seq<i32>) -> int
    decreases s.len(),
{
    if s.len() == 0 {
        0
    } else {
        s[0] + total(s.skip(1))
    }
}

/// Whether every tile a merge pass creates, and every running total of the
/// points it earns starting from `acc`, fits in an `i32`.
pub open spec fn merges_fit(s: Seq<i32>, acc: int) -> bool
    decreases s.len(),
{
    if s.len() == 0 {
        true
    } else if s.len() >= 2 && s[0] == s[1] {
        &&& i32::MIN <= s[0] * 2 <= i32::MAX
        &&& i32::MIN <= acc + s[0] * 2 <= i32::MAX
        &&& merges_fit(s.skip(2), acc + s[0] * 2)
    } else {
        merges_fit(s.skip(1), acc)
    }
}

/// Whether sliding a line toward its front stays within `i32`.
pub open spec fn line_fits(row: Seq<i32>) -> bool {
    merges_fit(nonzero(row), 0)
}

proof fn lemma_nonzero_facts(s: Seq<i32>)
    ensures
        nonzero(s).len() <= s.len(),
        total(nonzero(s)) == total(s),
        forall|i: int| 0 <= i < nonzero(s).len() ==> #[trigger] nonzero(s)[i] != 0,
    decreases s.len(),
{
    if s.len() > 0 {
        lemma_nonzero_facts(s.skip(1));
        if s[0] != 0 {
            let t = seq![s[0]] + nonzero(s.skip(1));
            assert(t.skip(1) =~= nonzero(s.skip(1)));
            assert forall|i: int| 0 <= i < t.len() implies #[trigger] t[i] != 0 by {
                if i > 0 {
                    assert(t[i] == nonzero(s.skip(1))[i - 1]);
                }
            }
        }
    }
}

proof fn lemma_merge_facts(s: Seq<i32>, acc: int)
    requires
        merges_fit(s, acc),
        i32::MIN <= acc <= i32::MAX,
    ensures
        merge_pairs(s).len() <= s.len(),
        total(merge_pairs(s)) == total(s),
        i32::MIN <= acc + merge_gain(s) <= i32::MAX,
    decreases s.len(),
{
    if s.len() > 0 {
        if s.len() >= 2 && s[0] == s[1] {
            let r = s.skip(2);
            assert(s.skip(1).skip(1) =~= r);
            assert(total(s.skip(1)) == s[1] + total(r));
            lemma_merge_facts(r, acc + s[0] * 2);
            let m = seq![(s[0] * 2) as i32] + merge_pairs(r);
            assert(m.skip(1) =~= merge_pairs(r));
        } else {
            lemma_merge_facts(s.skip(1), acc);
            let m = seq![s[0]] + merge_pairs(s.skip(1));
            assert(m.skip(1) =~= merge_pairs(s.skip(1)));
        }
    }
}

proof fn lemma_total_zeros(n: nat)
    ensures
        total(Seq::new(n, |i: int| 0i32)) == 0,
    decreases n,
{
    if n > 0 {
        lemma_total_zeros((n - 1) as nat);
        assert(Seq::new(n, |i: int| 0i32).skip(1) =~= Seq::new((n - 1) as nat, |i: int| 0i32));
    }
}

/// Totals add up over concatenation.
pub proof fn lemma_total_concat(a: Seq<i32>, b: Seq<i32>)
    ensures
        total(a + b) == total(a) + total(b),
    decreases a.len(),
{
    if a.len() > 0 {
        lemma_total_concat(a.skip(1), b);
        assert((a + b).skip(1) =~= a.skip(1) + b);
    } else {
        assert(a + b =~= b);
    }
}

proof fn lemma_slide_facts(row: Seq<i32>)
    requires
        row.len() == 4,
        line_fits(row),
    ensures
        slid_line(row).len() == 4,
        total(slid_line(row)) == total(row),
        i32::MIN <= slide_gain(row) <= i32::MAX,
{
    let nz = nonzero(row);
    lemma_nonzero_facts(row);
    lemma_merge_facts(nz, 0);
    let m = merge_pairs(nz);
    lemma_total_concat(m, Seq::new((4 - m.len()) as nat, |i: int| 0i32));
    lemma_total_zeros((4 - m.len()) as nat);
}

// ---------------------------------------------------------------------------
// Executable line operations
// ---------------------------------------------------------------------------

/// The non-empty cells of a line, in order.
fn nonzero_cells(row: &[i32]) -> (v: Vec<i32>)
    ensures
        v@ == nonzero(row@),
{
    let mut non_zero: Vec<i32> = Vec::new();
    let mut j: usize = 0;
    assert(row@.skip(0) =~= row@);
    while j < row.len()
        invariant
            j <= row@.len(),
            non_zero@ + nonzero(row@.skip(j as int)) == nonzero(row@),
        decreases row@.len() - j,
    {
        let ghost rest = row@.skip(j as int);
        assert(rest.skip(1) =~= row@.skip(j + 1));
        let ghost before = non_zero@;
        if row[j] != 0 {
            non_zero.push(row[j]);
            assert(non_zero@ + nonzero(row@.skip(j + 1)) =~= before + nonzero(rest)) by {
                assert(nonzero(rest) == seq![row@[j as int]] + nonzero(rest.skip(1)));
            }
        }
        j = j + 1;
    }
    assert(row@.skip(row@.len() as int) =~= Seq::<i32>::empty());
    assert(non_zero@ =~= nonzero(row@));
    non_zero
}

/// Slides one line of four toward its front, returning the new line and the
/// points earned.
fn slide_left(row: &[i32]) -> (res: (Vec<i32>, i32))
    requires
        row@.len() == 4,
        line_fits(row@),
    ensures
        res.0@ == slid_line(row@),
        res.1 == slide_gain(row@),
{
    proof {
        lemma_nonzero_facts(row@);
    }
    let non_zero = nonzero_cells(row);
    let ghost nz = non_zero@;
    proof {
        lemma_merge_facts(nz, 0);
    }
    let mut result: Vec<i32> = Vec::new();
    let mut score: i32 = 0;
    let mut i: usize = 0;
    assert(nz.skip(0) =~= nz);
    while i < non_zero.len()
        invariant
            nz == non_zero@,
            i <= nz.len(),
            merges_fit(nz.skip(i as int), score as int),
            result@ + merge_pairs(nz.skip(i as int)) == merge_pairs(nz),
            score + merge_gain(nz.skip(i as int)) == merge_gain(nz),
        decreases nz.len() - i,
    {
        let ghost rest = nz.skip(i as int);
        if i + 1 < non_zero.len() && non_zero[i] == non_zero[i + 1] {
            assert(rest.skip(2) =~= nz.skip(i + 2));
            assert(rest[0] == nz[i as int] && rest[1] == nz[i + 1]);
            let merged = non_zero[i] * 2;
            let ghost before = result@;
            result.push(merged);
            score = score + merged;
            assert(result@ + merge_pairs(nz.skip(i + 2)) =~= before + merge_pairs(rest)) by {
                assert(merge_pairs(rest) == seq![merged] + merge_pairs(rest.skip(2)));
            }
            i = i + 2;
        } else {
            assert(rest.skip(1) =~= nz.skip(i + 1));
            let ghost before = result@;
            result.push(non_zero[i]);
            assert(result@ + merge_pairs(nz.skip(i + 1)) =~= before + merge_pairs(rest)) by {
                assert(merge_pairs(rest) == seq![nz[i as int]] + merge_pairs(rest.skip(1)));
            }
            i = i + 1;
        }
    }
    assert(nz.skip(nz.len() as int) =~= Seq::<i32>::empty());
    assert(result@ =~= merge_pairs(nz));
    let ghost merged_line = result@;
    while result.len() < 4
        invariant
            merged_line.len() <= result@.len() <= 4,
            result@ == pad_zeros(merged_line, result@.len() as nat),
        decreases 4 - result@.len(),
    {
        result.push(0);
        assert(result@ =~= pad_zeros(merged_line, result@.len() as nat));
    }
    (result, score)
}

/// The points earned by sliding a line of four toward its front, or `None`
/// when a tile it creates or a running total of its points leaves `i32`.
fn line_gain_checked(row: &[i32]) -> (r: Option<i32>)
    ensures
        r.is_some() == line_fits(row@),
        r.is_some() ==> r.unwrap() == slide_gain(row@),
{
    let non_zero = nonzero_cells(row);
    let ghost nz = non_zero@;
    let mut acc: i32 = 0;
    let mut i: usize = 0;
    assert(nz.skip(0) =~= nz);
    while i < non_zero.len()
        invariant
            nz == non_zero@,
            i <= nz.len(),
            line_fits(row@) == merges_fit(nz.skip(i as int), acc as int),
            acc + merge_gain(nz.skip(i as int)) == merge_gain(nz),
        decreases nz.len() - i,
    {
        let ghost rest = nz.skip(i as int);
        if i + 1 < non_zero.len() && non_zero[i] == non_zero[i + 1] {
            assert(rest.skip(2) =~= nz.skip(i + 2));
            assert(rest[0] == nz[i as int] && rest[1] == nz[i + 1]);
            let merged: i64 = non_zero[i] as i64 * 2;
            let next: i64 = acc as i64 + merged;
            if merged < i32::MIN as i64 || merged > i32::MAX as i64 || next < i32::MIN as i64
                || next > i32::MAX as i64 {
                return None;
            }
            acc = next as i32;
            i = i + 2;
        } else {
            assert(rest.skip(1) =~= nz.skip(i + 1));
            i = i + 1;
        }
    }
    assert(nz.skip(nz.len() as int) =~= Seq::<i32>::empty());
    Some(acc)
}

// ---------------------------------------------------------------------------
// The rule on the whole board
// ---------------------------------------------------------------------------

/// Row `r` of a 4x4 board stored row by row.
pub open spec fn line(b: Seq<i32>, r: int) -> Seq<i32> {
    b.subrange(4 * r, 4 * r + 4)
}

/// The board after every row slides toward the left edge.
pub open spec fn left_board(b: Seq<i32>) -> Seq<i32> {
    slid_line(line(b, 0)) + slid_line(line(b, 1)) + slid_line(line(b, 2)) + slid_line(line(b, 3))
}

/// Points earned by sliding every row toward the left edge.
pub open spec fn left_gain(b: Seq<i32>) -> int {
    slide_gain(line(b, 0)) + slide_gain(line(b, 1)) + slide_gain(line(b, 2)) + slide_gain(line(b, 3))
}

/// A row slid toward its right end.
pub open spec fn slid_line_right(row: Seq<i32>) -> Seq<i32> {
    slid_line(row.reverse()).reverse()
}

/// The board after every row slides toward the right edge.
pub open spec fn right_board(b: Seq<i32>) -> Seq<i32> {
    slid_line_right(line(b, 0)) + slid_line_right(line(b, 1)) + slid_line_right(line(b, 2))
        + slid_line_right(line(b, 3))
}

/// Points earned by sliding every row toward the right edge.
pub open spec fn right_gain(b: Seq<i32>) -> int {
    slide_gain(line(b, 0).reverse()) + slide_gain(line(b, 1).reverse()) + slide_gain(
        line(b, 2).reverse(),
    ) + slide_gain(line(b, 3).reverse())
}

/// Rows and columns exchanged.
pub open spec fn transposed(b: Seq<i32>) -> Seq<i32> {
    Seq::new(16, |i: int| b[(i % 4) * 4 + i / 4])
}

/// The board after a move in the named direction; an unknown name leaves it.
pub open spec fn shifted(b: Seq<i32>, dir: Seq<char>) -> Seq<i32> {
    if dir == "left"@ {
        left_board(b)
    } else if dir == "right"@ {
        right_board(b)
    } else if dir == "up"@ {
        transposed(left_board(transposed(b)))
    } else if dir == "down"@ {
        transposed(right_board(transposed(b)))
    } else {
        b
    }
}

/// Points earned by a move in the named direction.
pub open spec fn shift_gain(b: Seq<i32>, dir: Seq<char>) -> int {
    if dir == "left"@ {
        left_gain(b)
    } else if dir == "right"@ {
        right_gain(b)
    } else if dir == "up"@ {
        left_gain(transposed(b))
    } else if dir == "down"@ {
        right_gain(transposed(b))
    } else {
        0
    }
}

/// Whether the running totals of four line scores all fit in an `i32`.
pub open spec fn sums_fit(g0: int, g1: int, g2: int, g3: int) -> bool {
    &&& i32::MIN <= g0 <= i32::MAX
    &&& i32::MIN <= g0 + g1 <= i32::MAX
    &&& i32::MIN <= g0 + g1 + g2 <= i32::MAX
    &&& i32::MIN <= g0 + g1 + g2 + g3 <= i32::MAX
}

/// Whether sliding every row toward the left edge stays within `i32`: each
/// row's tiles and points, and the running total over the rows.
pub open spec fn left_fits(b: Seq<i32>) -> bool {
    &&& line_fits(line(b, 0))
    &&& line_fits(line(b, 1))
    &&& line_fits(line(b, 2))
    &&& line_fits(line(b, 3))
    &&& sums_fit(
        slide_gain(line(b, 0)),
        slide_gain(line(b, 1)),
        slide_gain(line(b, 2)),
        slide_gain(line(b, 3)),
    )
}

/// Whether sliding every row toward the right edge stays within `i32`.
pub open spec fn right_fits(b: Seq<i32>) -> bool {
    &&& line_fits(line(b, 0).reverse())
    &&& line_fits(line(b, 1).reverse())
    &&& line_fits(line(b, 2).reverse())
    &&& line_fits(line(b, 3).reverse())
    &&& sums_fit(
        slide_gain(line(b, 0).reverse()),
        slide_gain(line(b, 1).reverse()),
        slide_gain(line(b, 2).reverse()),
        slide_gain(line(b, 3).reverse()),
    )
}

/// Whether a move in the named direction stays within `i32`; a name that is
/// no direction moves nothing.
pub open spec fn shift_fits(b: Seq<i32>, dir: Seq<char>) -> bool {
    if dir == "left"@ {
        left_fits(b)
    } else if dir == "right"@ {
        right_fits(b)
    } else if dir == "up"@ {
        left_fits(transposed(b))
    } else if dir == "down"@ {
        right_fits(transposed(b))
    } else {
        true
    }
}

/// Whether cells `i` and `j` of a 4x4 board touch side by side, `j` right of
/// or below `i`.
pub open spec fn touching(i: int, j: int) -> bool {
    (j == i + 1 && i % 4 != 3) || j == i + 4
}

/// No empty cell and no two touching equal tiles: no move can change the board.
pub open spec fn stuck(b: Seq<i32>) -> bool {
    &&& forall|i: int| 0 <= i < 16 ==> b[i] != 0
    &&& forall|i: int, j: int|
        #![trigger b[i], b[j]]
        0 <= i < 16 && 0 <= j < 16 && touching(i, j) ==> b[i] != b[j]
}

/// Indices of the empty cells from `k` on, in increasing order.
pub open spec fn empty_cells_from(b: Seq<i32>, k: int) -> Seq<int>
    decreases b.len() - k,
{
    if k >= b.len() || k < 0 {
        Seq::empty()
    } else if b[k] == 0 {
        seq![k] + empty_cells_from(b, k + 1)
    } else {
        empty_cells_from(b, k + 1)
    }
}

/// Indices of the empty cells, in increasing order.
pub open spec fn empty_cells(b: Seq<i32>) -> Seq<int> {
    empty_cells_from(b, 0)
}

/// Draws below this value (nine tenths of the span) give a 2, the others a 4.
pub open spec fn two_tile_limit() -> u32 {
    3865470566
}

/// The tile a draw creates.
pub open spec fn new_tile_value(r: u32) -> i32 {
    if r <= two_tile_limit() { 2 } else { 4 }
}

/// The board after a new tile is placed with the draws `pick` and `kind`:
/// `pick` selects one of the empty cells, `kind` selects a 2 or a 4.
pub open spec fn with_new_tile(b: Seq<i32>, pick: u32, kind: u32) -> Seq<i32> {
    let empties = empty_cells(b);
    if empties.len() == 0 {
        b
    } else {
        b.update(empties[scaled(pick, empties.len()) as int], new_tile_value(kind))
    }
}

/// How many draws placing a new tile consumes.
pub open spec fn tile_draws(b: Seq<i32>) -> nat {
    if empty_cells(b).len() == 0 { 0 } else { 2 }
}


proof fn lemma_total_step(s: Seq<i32>, k: int)
    requires
        0 <= k < s.len(),
    ensures
        total(s.skip(k)) == s[k] + total(s.skip(k + 1)),
{
    assert(s.skip(k).skip(1) =~= s.skip(k + 1));
}

proof fn lemma_expand4(s: Seq<i32>)
    requires
        s.len() == 4,
    ensures
        total(s) == s[0] + s[1] + s[2] + s[3],
{
    assert(s.skip(0) =~= s);
    lemma_total_step(s, 0);
    lemma_total_step(s, 1);
    lemma_total_step(s, 2);
    lemma_total_step(s, 3);
    assert(s.skip(4).len() == 0);
}

proof fn lemma_expand16(s: Seq<i32>)
    requires
        s.len() == 16,
    ensures
        total(s) == s[0] + s[1] + s[2] + s[3] + s[4] + s[5] + s[6] + s[7] + s[8] + s[9] + s[10]
            + s[11] + s[12] + s[13] + s[14] + s[15],
{
    assert(s.skip(0) =~= s);
    lemma_total_step(s, 0);
    lemma_total_step(s, 1);
    lemma_total_step(s, 2);
    lemma_total_step(s, 3);
    lemma_total_step(s, 4);
    lemma_total_step(s, 5);
    lemma_total_step(s, 6);
    lemma_total_step(s, 7);
    lemma_total_step(s, 8);
    lemma_total_step(s, 9);
    lemma_total_step(s, 10);
    lemma_total_step(s, 11);
    lemma_total_step(s, 12);
    lemma_total_step(s, 13);
    lemma_total_step(s, 14);
    lemma_total_step(s, 15);
    assert(s.skip(16).len() == 0);
}

proof fn lemma_lines(b: Seq<i32>)
    requires
        b.len() == 16,
    ensures
        b =~= line(b, 0) + line(b, 1) + line(b, 2) + line(b, 3),
        total(b) == total(line(b, 0)) + total(line(b, 1)) + total(line(b, 2)) + total(line(b, 3)),
{
    let l0 = line(b, 0);
    let l1 = line(b, 1);
    let l2 = line(b, 2);
    let l3 = line(b, 3);
    assert(b =~= l0 + l1 + l2 + l3);
    lemma_total_concat(l0, l1);
    lemma_total_concat(l0 + l1, l2);
    lemma_total_concat(l0 + l1 + l2, l3);
}

proof fn lemma_reverse4(s: Seq<i32>)
    requires
        s.len() == 4,
    ensures
        total(s.reverse()) == total(s),
{
    lemma_expand4(s);
    lemma_expand4(s.reverse());
}

proof fn lemma_transposed(b: Seq<i32>)
    requires
        b.len() == 16,
    ensures
        transposed(b).len() == 16,
        total(transposed(b)) == total(b),
        transposed(transposed(b)) =~= b,
{
    let t = transposed(b);
    lemma_expand16(b);
    lemma_expand16(t);
    assert(t[1] == b[4]);
    assert(t[2] == b[8]);
    assert(t[3] == b[12]);
    assert(t[4] == b[1]);
    assert(t[5] == b[5]);
    assert(t[6] == b[9]);
    assert(t[7] == b[13]);
    assert(t[8] == b[2]);
    assert(t[9] == b[6]);
    assert(t[10] == b[10]);
    assert(t[11] == b[14]);
    assert(t[12] == b[3]);
    assert(t[13] == b[7]);
    assert(t[14] == b[11]);
    assert(t[15] == b[15]);
    assert forall|i: int| 0 <= i < 16 implies #[trigger] transposed(t)[i] == b[i] by {
        let r = i / 4;
        let c = i % 4;
        assert(transposed(t)[i] == t[c * 4 + r]);
        assert((c * 4 + r) % 4 == r && (c * 4 + r) / 4 == c);
        assert(t[c * 4 + r] == b[r * 4 + c]);
    }
}

proof fn lemma_left_facts(b: Seq<i32>)
    requires
        b.len() == 16,
        left_fits(b),
    ensures
        left_board(b).len() == 16,
        total(left_board(b)) == total(b),
        i32::MIN <= left_gain(b) <= i32::MAX,
{
    lemma_lines(b);
    lemma_slide_facts(line(b, 0));
    lemma_slide_facts(line(b, 1));
    lemma_slide_facts(line(b, 2));
    lemma_slide_facts(line(b, 3));
    let s0 = slid_line(line(b, 0));
    let s1 = slid_line(line(b, 1));
    let s2 = slid_line(line(b, 2));
    let s3 = slid_line(line(b, 3));
    lemma_total_concat(s0, s1);
    lemma_total_concat(s0 + s1, s2);
    lemma_total_concat(s0 + s1 + s2, s3);
}

proof fn lemma_right_facts(b: Seq<i32>)
    requires
        b.len() == 16,
        right_fits(b),
    ensures
        right_board(b).len() == 16,
        total(right_board(b)) == total(b),
        i32::MIN <= right_gain(b) <= i32::MAX,
{
    lemma_lines(b);
    lemma_right_line(line(b, 0));
    lemma_right_line(line(b, 1));
    lemma_right_line(line(b, 2));
    lemma_right_line(line(b, 3));
    let s0 = slid_line_right(line(b, 0));
    let s1 = slid_line_right(line(b, 1));
    let s2 = slid_line_right(line(b, 2));
    let s3 = slid_line_right(line(b, 3));
    lemma_total_concat(s0, s1);
    lemma_total_concat(s0 + s1, s2);
    lemma_total_concat(s0 + s1 + s2, s3);
}

proof fn lemma_right_line(row: Seq<i32>)
    requires
        row.len() == 4,
        line_fits(row.reverse()),
    ensures
        slid_line_right(row).len() == 4,
        total(slid_line_right(row)) == total(row),
        i32::MIN <= slide_gain(row.reverse()) <= i32::MAX,
{
    lemma_reverse4(row);
    lemma_slide_facts(row.reverse());
    lemma_reverse4(slid_line(row.reverse()));
}

/// A move that stays within `i32` keeps sixteen cells and conserves the sum
/// of the tiles.
pub proof fn lemma_shift_facts(b: Seq<i32>, dir: Seq<char>)
    requires
        b.len() == 16,
        shift_fits(b, dir),
    ensures
        shifted(b, dir).len() == 16,
        total(shifted(b, dir)) == total(b),
        i32::MIN <= shift_gain(b, dir) <= i32::MAX,
{
    if dir == "left"@ {
        lemma_left_facts(b);
    } else if dir == "right"@ {
        lemma_right_facts(b);
    } else if dir == "up"@ {
        lemma_transposed(b);
        let t = transposed(b);
        lemma_left_facts(t);
        lemma_transposed(left_board(t));
    } else if dir == "down"@ {
        lemma_transposed(b);
        let t = transposed(b);
        lemma_right_facts(t);
        lemma_transposed(right_board(t));
    }
}

// ---------------------------------------------------------------------------
// Executable board operations
// ---------------------------------------------------------------------------

fn line_of(board: &Vec<i32>, r: usize) -> (l: Vec<i32>)
    requires
        board@.len() == 16,
        r < 4,
    ensures
        l@ == line(board@, r as int),
{
    let mut l: Vec<i32> = Vec::new();
    let mut c: usize = 0;
    while c < 4
        invariant
            board@.len() == 16,
            r < 4,
            c <= 4,
            l@ == board@.subrange(4 * r as int, 4 * r + c),
        decreases 4 - c,
    {
        l.push(board[r * 4 + c]);
        c = c + 1;
        assert(l@ =~= board@.subrange(4 * r as int, 4 * r + c));
    }
    l
}

fn reversed(v: &Vec<i32>) -> (r: Vec<i32>)
    ensures
        r@ == v@.reverse(),
{
    let mut r: Vec<i32> = Vec::new();
    let mut k: usize = v.len();
    while k > 0
        invariant
            k <= v@.len(),
            r@ =~= v@.subrange(k as int, v@.len() as int).reverse(),
        decreases k,
    {
        k = k - 1;
        r.push(v[k]);
        assert(r@ =~= v@.subrange(k as int, v@.len() as int).reverse());
    }
    assert(v@.subrange(0, v@.len() as int) =~= v@);
    r
}

/// Slides every row toward the left edge.
fn move_left(board: &Vec<i32>) -> (res: (Vec<i32>, i32))
    requires
        board@.len() == 16,
        left_fits(board@),
    ensures
        res.0@ == left_board(board@),
        res.1 == left_gain(board@),
{
    let mut next: Vec<i32> = Vec::new();
    let mut score: i32 = 0;
    let ghost b = board@;
    proof {
        lemma_left_facts(b);
        lemma_slide_facts(line(b, 0));
        lemma_slide_facts(line(b, 1));
        lemma_slide_facts(line(b, 2));
        lemma_slide_facts(line(b, 3));
    }
    let row0 = line_of(board, 0);
    let (mut line0, gained0) = slide_left(row0.as_slice());
    next.append(&mut line0);
    score = score + gained0;
    let row1 = line_of(board, 1);
    let (mut line1, gained1) = slide_left(row1.as_slice());
    next.append(&mut line1);
    score = score + gained1;
    let row2 = line_of(board, 2);
    let (mut line2, gained2) = slide_left(row2.as_slice());
    next.append(&mut line2);
    score = score + gained2;
    let row3 = line_of(board, 3);
    let (mut line3, gained3) = slide_left(row3.as_slice());
    next.append(&mut line3);
    score = score + gained3;
    (next, score)
}

/// Slides every row toward the right edge.
fn move_right(board: &Vec<i32>) -> (res: (Vec<i32>, i32))
    requires
        board@.len() == 16,
        right_fits(board@),
    ensures
        res.0@ == right_board(board@),
        res.1 == right_gain(board@),
{
    let mut next: Vec<i32> = Vec::new();
    let mut score: i32 = 0;
    let ghost b = board@;
    proof {
        lemma_right_facts(b);
        lemma_right_line(line(b, 0));
        lemma_right_line(line(b, 1));
        lemma_right_line(line(b, 2));
        lemma_right_line(line(b, 3));
    }
    let forward0 = line_of(board, 0);
    let rev0 = reversed(&forward0);
    let (moved0, gained0) = slide_left(rev0.as_slice());
    let mut back0 = reversed(&moved0);
    next.append(&mut back0);
    score = score + gained0;
    let forward1 = line_of(board, 1);
    let rev1 = reversed(&forward1);
    let (moved1, gained1) = slide_left(rev1.as_slice());
    let mut back1 = reversed(&moved1);
    next.append(&mut back1);
    score = score + gained1;
    let forward2 = line_of(board, 2);
    let rev2 = reversed(&forward2);
    let (moved2, gained2) = slide_left(rev2.as_slice());
    let mut back2 = reversed(&moved2);
    next.append(&mut back2);
    score = score + gained2;
    let forward3 = line_of(board, 3);
    let rev3 = reversed(&forward3);
    let (moved3, gained3) = slide_left(rev3.as_slice());
    let mut back3 = reversed(&moved3);
    next.append(&mut back3);
    score = score + gained3;
    (next, score)
}


/// The board with rows and columns exchanged.
pub fn transpose(board: &Vec<i32>) -> (next: Vec<i32>)
    requires
        board@.len() == 16,
    ensures
        next@ == transposed(board@),
{
    let mut next: Vec<i32> = vec![0; 16];
    let mut r: usize = 0;
    while r < 4
        invariant
            board@.len() == 16,
            next@.len() == 16,
            r <= 4,
            forall|i: int| 0 <= i < 16 && i % 4 < r ==> next@[i] == board@[(i % 4) * 4 + i / 4],
        decreases 4 - r,
    {
        let mut c: usize = 0;
        while c < 4
            invariant
                board@.len() == 16,
                next@.len() == 16,
                r < 4,
                c <= 4,
                forall|i: int|
                    0 <= i < 16 && (i % 4 < r || (i % 4 == r && i / 4 < c)) ==> next@[i]
                        == board@[(i % 4) * 4 + i / 4],
            decreases 4 - c,
        {
            let ghost idx = (c * 4 + r) as int;
            assert(idx % 4 == r && idx / 4 == c);
            next.set(c * 4 + r, board[r * 4 + c]);
            c = c + 1;
        }
        r = r + 1;
    }
    assert(next@ =~= transposed(board@));
    next
}

/// Whether no move can change the board any more.
fn is_game_over(board: &Vec<i32>) -> (over: bool)
    requires
        board@.len() == 16,
    ensures
        over == stuck(board@),
{
    let mut k: usize = 0;
    while k < 16
        invariant
            board@.len() == 16,
            k <= 16,
            forall|i: int| 0 <= i < k ==> board@[i] != 0,
        decreases 16 - k,
    {
        if board[k] == 0 {
            return false;
        }
        k = k + 1;
    }
    let mut r: usize = 0;
    while r < 4
        invariant
            board@.len() == 16,
            r <= 4,
            forall|i: int| 0 <= i < 16 && i / 4 < r && i % 4 != 3 ==> #[trigger] board@[i] != board@[i + 1],
        decreases 4 - r,
    {
        let mut c: usize = 0;
        while c < 3
            invariant
                board@.len() == 16,
                r < 4,
                c <= 3,
                forall|i: int|
                    0 <= i < 16 && i % 4 != 3 && (i / 4 < r || (i / 4 == r && i % 4 < c))
                        ==> #[trigger] board@[i] != board@[i + 1],
            decreases 3 - c,
        {
            let ghost idx = (r * 4 + c) as int;
            assert(idx / 4 == r && idx % 4 == c);
            if board[r * 4 + c] == board[r * 4 + c + 1] {
                assert(touching(idx, idx + 1));
                return false;
            }
            c = c + 1;
        }
        r = r + 1;
    }
    let mut c: usize = 0;
    while c < 4
        invariant
            board@.len() == 16,
            c <= 4,
            forall|i: int| 0 <= i < 12 && i % 4 < c ==> #[trigger] board@[i] != board@[i + 4],
        decreases 4 - c,
    {
        let mut r: usize = 0;
        while r < 3
            invariant
                board@.len() == 16,
                c < 4,
                r <= 3,
                forall|i: int|
                    0 <= i < 12 && (i % 4 < c || (i % 4 == c && i / 4 < r)) ==> #[trigger] board@[i]
                        != board@[i + 4],
            decreases 3 - r,
        {
            let ghost idx = (r * 4 + c) as int;
            assert(idx / 4 == r && idx % 4 == c);
            if board[r * 4 + c] == board[(r + 1) * 4 + c] {
                assert(touching(idx, idx + 4));
                return false;
            }
            r = r + 1;
        }
        c = c + 1;
    }
    assert forall|i: int, j: int|
        #![trigger board@[i], board@[j]]
        0 <= i < 16 && 0 <= j < 16 && touching(i, j) implies board@[i] != board@[j] by {
        if j == i + 4 {
            assert(0 <= i < 12);
        }
    }
    true
}

fn same_cells(a: &Vec<i32>, b: &Vec<i32>) -> (r: bool)
    ensures
        r == (a@ == b@),
{
    if a.len() != b.len() {
        return false;
    }
    let mut i: usize = 0;
    while i < a.len()
        invariant
            a@.len() == b@.len(),
            i <= a@.len(),
            forall|k: int| 0 <= k < i ==> a@[k] == b@[k],
        decreases a@.len() - i,
    {
        if a[i] != b[i] {
            return false;
        }
        i = i + 1;
    }
    assert(a@ =~= b@);
    true
}


proof fn lemma_empty_cells(b: Seq<i32>, k: int)
    requires
        0 <= k <= b.len(),
    ensures
        forall|j: int|
            0 <= j < empty_cells_from(b, k).len() ==> k <= #[trigger] empty_cells_from(b, k)[j]
                < b.len() && b[empty_cells_from(b, k)[j]] == 0,
        forall|i: int| k <= i < b.len() && b[i] == 0 ==> empty_cells_from(b, k).contains(i),
    decreases b.len() - k,
{
    if k < b.len() {
        lemma_empty_cells(b, k + 1);
        let rest = empty_cells_from(b, k + 1);
        if b[k] == 0 {
            let e = seq![k] + rest;
            assert forall|j: int| 0 <= j < e.len() implies k <= #[trigger] e[j] < b.len() && b[e[j]]
                == 0 by {
                if j > 0 {
                    assert(e[j] == rest[j - 1]);
                }
            }
            assert forall|i: int| k <= i < b.len() && b[i] == 0 implies e.contains(i) by {
                if i == k {
                    assert(e[0] == k);
                } else {
                    assert(rest.contains(i));
                    let j = choose|j: int| 0 <= j < rest.len() && rest[j] == i;
                    assert(e[j + 1] == i);
                }
            }
        }
    }
}

/// The 4x4 sliding-tile game in progress.
pub struct Game2048 {
    pub board: Vec<i32>,
    pub score: i32,
    pub moves: i32,
    pub over: bool,
}

impl Game2048 {
    /// Whether a move in `dir` would change the board of this game.
    pub open spec fn moves_on(self, dir: Seq<char>) -> bool {
        !self.over && shifted(self.board@, dir) != self.board@
    }

    /// A fresh game: an empty board with two new tiles.
    pub fn new(draws: &mut Draws) -> (g: Self)
        requires
            old(draws)@.len() >= 4,
        ensures
            g.board@ == with_new_tile(
                with_new_tile(Seq::new(16, |i: int| 0i32), old(draws)@[0], old(draws)@[1]),
                old(draws)@[2],
                old(draws)@[3],
            ),
            g.score == 0,
            g.moves == 0,
            !g.over,
            final(draws)@ == old(draws)@.skip(4),
    {
        let mut game = Self { board: vec![0; 16], score: 0, moves: 0, over: false };
        let ghost d = draws@;
        let ghost zeros = Seq::new(16, |i: int| 0i32);
        assert(game.board@ =~= zeros);
        proof {
            lemma_empty_cells(zeros, 0);
            assert(empty_cells(zeros).contains(0));
        }
        game.add_random_tile(draws);
        let ghost one = game.board@;
        proof {
            lemma_new_tile_facts(zeros, d[0], d[1]);
            lemma_empty_cells(one, 0);
            let e = empty_cells(zeros);
            let placed = e[scaled(d[0], e.len()) as int];
            let other = if placed == 0 { 1int } else { 0int };
            assert(one[other] == 0);
            assert(empty_cells(one).contains(other));
            assert(d.skip(2)[0] == d[2] && d.skip(2)[1] == d[3]);
        }
        game.add_random_tile(draws);
        assert(draws@ =~= d.skip(4));
        game
    }

    /// Places a new tile in an empty cell, if there is one.
    fn add_random_tile(&mut self, draws: &mut Draws)
        requires
            old(self).board@.len() == 16,
            old(draws)@.len() >= tile_draws(old(self).board@),
        ensures
            final(self).board@ == with_new_tile(
                old(self).board@,
                old(draws)@[0],
                old(draws)@[1],
            ),
            final(self).score == old(self).score,
            final(self).moves == old(self).moves,
            final(self).over == old(self).over,
            final(draws)@ == old(draws)@.skip(tile_draws(old(self).board@) as int),
    {
        let ghost b = self.board@;
        let mut empties: Vec<usize> = Vec::new();
        let mut i: usize = 0;
        proof {
            lemma_empty_cells(b, 0);
        }
        while i < self.board.len()
            invariant
                self.board@ == b,
                i <= b.len(),
                empties@.map_values(|x: usize| x as int) + empty_cells_from(b, i as int)
                    == empty_cells(b),
            decreases b.len() - i,
        {
            let ghost before = empties@;
            if self.board[i] == 0 {
                empties.push(i);
                assert(empties@.map_values(|x: usize| x as int) =~= before.map_values(
                    |x: usize| x as int,
                ).push(i as int));
                assert(empties@.map_values(|x: usize| x as int) + empty_cells_from(b, i + 1)
                    =~= before.map_values(|x: usize| x as int) + empty_cells_from(b, i as int));
            }
            i = i + 1;
        }
        assert(empties@.map_values(|x: usize| x as int) =~= empty_cells(b));
        if empties.len() == 0 {
            assert(draws@.skip(0) =~= draws@);
            assert(with_new_tile(b, draws@[0], draws@[1]) == b);
            return;
        }
        proof {
            assert(empty_cells(b).len() == empties@.len());
            assert(empties@.len() <= b.len()) by {
                lemma_empty_cells_len(b, 0);
            }
        }
        let ghost d = draws@;
        let first = draws.take();
        let count = empties.len() as u32;
        assert(count as nat == empty_cells(b).len());
        let pick = scale_draw(first, count);
        let cell = empties[pick as usize];
        assert(cell as int == empty_cells(b)[pick as int]);
        let second = draws.take();
        assert(second == d[1]);
        let value = if second <= 3865470566 { 2 } else { 4 };
        self.board.set(cell, value);
        assert(draws@ =~= d.skip(2));
        assert(first == d[0]);
        assert(pick == scaled(d[0], empty_cells(b).len()));
        assert(value == new_tile_value(d[1]));
        assert(self.board@ == b.update(empty_cells(b)[pick as int], value));
    }

    /// Makes one move in `direction` (`"left"`, `"right"`, `"up"` or
    /// `"down"`); when it changes the board the points are added, the move
    /// is counted and a new tile is placed. A finished game does not move.
    pub fn move_dir(&mut self, direction: &str, draws: &mut Draws)
        requires
            !old(self).over ==> old(self).board@.len() == 16 && shift_fits(
                old(self).board@,
                direction@,
            ),
            old(self).moves_on(direction@) ==> {
                &&& old(self).moves < i32::MAX
                &&& i32::MIN <= old(self).score + shift_gain(old(self).board@, direction@)
                    <= i32::MAX
                &&& old(draws)@.len() >= tile_draws(shifted(old(self).board@, direction@))
            },
        ensures
            if old(self).moves_on(direction@) {
                let next = shifted(old(self).board@, direction@);
                &&& final(self).board@ == with_new_tile(next, old(draws)@[0], old(draws)@[1])
                &&& final(self).score == old(self).score + shift_gain(
                    old(self).board@,
                    direction@,
                )
                &&& final(self).moves == old(self).moves + 1
                &&& final(self).over == stuck(final(self).board@)
                &&& final(self).board@.len() == 16
                &&& no_negative_tiles(old(self).board@) ==> no_negative_tiles(final(self).board@)
                    && final(self).score >= old(self).score
                &&& final(draws)@ == old(draws)@.skip(tile_draws(next) as int)
            } else {
                &&& *final(self) == *old(self)
                &&& final(draws)@ == old(draws)@
            },
    {
        if self.over {
            return;
        }
        let ghost b = self.board@;
        proof {
            lemma_shift_facts(b, direction@);
        }
        let (next, gained) = shift_board(&self.board, direction);
        assert(next@ == shifted(b, direction@));
        assert(gained == shift_gain(b, direction@));
        if !same_cells(&next, &self.board) {
            self.board = next;
            self.score = self.score + gained;
            self.moves = self.moves + 1;
            proof {
                lemma_new_tile_facts(shifted(b, direction@), draws@[0], draws@[1]);
                if no_negative_tiles(b) {
                    law_moves_keep_tiles_nonnegative(b, direction@);
                }
            }
            self.add_random_tile(draws);
            self.over = is_game_over(&self.board);
        }
    }
}

fn has_empty_cell(b: &Vec<i32>) -> (r: bool)
    ensures
        r == (empty_cells(b@).len() > 0),
{
    let mut i: usize = 0;
    while i < b.len()
        invariant
            i <= b@.len(),
            forall|j: int| 0 <= j < i ==> b@[j] != 0,
        decreases b@.len() - i,
    {
        if b[i] == 0 {
            proof {
                lemma_empty_cells(b@, 0);
            }
            assert(empty_cells(b@).contains(i as int));
            return true;
        }
        i = i + 1;
    }
    proof {
        lemma_empty_cells(b@, 0);
        if empty_cells(b@).len() > 0 {
            assert(b@[empty_cells(b@)[0]] == 0);
        }
    }
    false
}

/// The board and points after a move in `direction`, without a new tile.
fn shift_board(board: &Vec<i32>, direction: &str) -> (r: (Vec<i32>, i32))
    requires
        board@.len() == 16,
        shift_fits(board@, direction@),
    ensures
        r.0@ == shifted(board@, direction@),
        r.1 == shift_gain(board@, direction@),
{
    let ghost b = board@;
    if text_eq(direction, "left") {
        move_left(board)
    } else if text_eq(direction, "right") {
        move_right(board)
    } else if text_eq(direction, "up") {
        let transposed_board = transpose(board);
        proof {
            lemma_left_facts(transposed(b));
        }
        let (moved, score) = move_left(&transposed_board);
        (transpose(&moved), score)
    } else if text_eq(direction, "down") {
        let transposed_board = transpose(board);
        proof {
            lemma_right_facts(transposed(b));
        }
        let (moved, score) = move_right(&transposed_board);
        (transpose(&moved), score)
    } else {
        (board.clone(), 0)
    }
}

/// Whether the running totals of four line scores all fit in an `i32`.
fn sums_fit_exec(g0: i32, g1: i32, g2: i32, g3: i32) -> (r: bool)
    ensures
        r == sums_fit(g0 as int, g1 as int, g2 as int, g3 as int),
{
    let s1: i64 = g0 as i64 + g1 as i64;
    let s2: i64 = s1 + g2 as i64;
    let s3: i64 = s2 + g3 as i64;
    i32::MIN as i64 <= s1 && s1 <= i32::MAX as i64 && i32::MIN as i64 <= s2 && s2
        <= i32::MAX as i64 && i32::MIN as i64 <= s3 && s3 <= i32::MAX as i64
}

/// Whether sliding every row toward the left edge stays within `i32`.
fn left_fits_exec(board: &Vec<i32>) -> (r: bool)
    requires
        board@.len() == 16,
    ensures
        r == left_fits(board@),
{
    let row0 = line_of(board, 0);
    let row1 = line_of(board, 1);
    let row2 = line_of(board, 2);
    let row3 = line_of(board, 3);
    let g0 = line_gain_checked(row0.as_slice());
    let g1 = line_gain_checked(row1.as_slice());
    let g2 = line_gain_checked(row2.as_slice());
    let g3 = line_gain_checked(row3.as_slice());
    match (g0, g1, g2, g3) {
        (Some(a), Some(b), Some(c), Some(d)) => sums_fit_exec(a, b, c, d),
        _ => false,
    }
}

/// Whether sliding every row toward the right edge stays within `i32`.
fn right_fits_exec(board: &Vec<i32>) -> (r: bool)
    requires
        board@.len() == 16,
    ensures
        r == right_fits(board@),
{
    let row0 = line_of(board, 0);
    let row1 = line_of(board, 1);
    let row2 = line_of(board, 2);
    let row3 = line_of(board, 3);
    let rev0 = reversed(&row0);
    let rev1 = reversed(&row1);
    let rev2 = reversed(&row2);
    let rev3 = reversed(&row3);
    let g0 = line_gain_checked(rev0.as_slice());
    let g1 = line_gain_checked(rev1.as_slice());
    let g2 = line_gain_checked(rev2.as_slice());
    let g3 = line_gain_checked(rev3.as_slice());
    match (g0, g1, g2, g3) {
        (Some(a), Some(b), Some(c), Some(d)) => sums_fit_exec(a, b, c, d),
        _ => false,
    }
}

/// Whether a move in `direction` stays within `i32`.
fn shift_fits_exec(board: &Vec<i32>, direction: &str) -> (r: bool)
    requires
        board@.len() == 16,
    ensures
        r == shift_fits(board@, direction@),
{
    if text_eq(direction, "left") {
        left_fits_exec(board)
    } else if text_eq(direction, "right") {
        right_fits_exec(board)
    } else if text_eq(direction, "up") {
        let transposed_board = transpose(board);
        left_fits_exec(&transposed_board)
    } else if text_eq(direction, "down") {
        let transposed_board = transpose(board);
        right_fits_exec(&transposed_board)
    } else {
        true
    }
}

impl Game2048 {
    /// Whether a move in `direction` may be made with `available` draws at
    /// hand: the condition of `move_dir`, as an executable test.
    pub fn move_fits(&self, direction: &str, available: usize) -> (r: bool)
        ensures
            r == ((!self.over ==> self.board@.len() == 16 && shift_fits(self.board@, direction@))
                && (self.moves_on(direction@) ==> {
                &&& self.moves < i32::MAX
                &&& i32::MIN <= self.score + shift_gain(self.board@, direction@) <= i32::MAX
                &&& available >= tile_draws(shifted(self.board@, direction@))
            })),
    {
        if self.over {
            return true;
        }
        if self.board.len() != 16 {
            return false;
        }
        if !shift_fits_exec(&self.board, direction) {
            return false;
        }
        let (next, gained) = shift_board(&self.board, direction);
        if same_cells(&next, &self.board) {
            return true;
        }
        let total = self.score as i64 + gained as i64;
        let needed: usize = if has_empty_cell(&next) { 2 } else { 0 };
        self.moves < i32::MAX && i32::MIN as i64 <= total && total <= i32::MAX as i64 && available >= needed
    }
}

proof fn lemma_empty_cells_len(b: Seq<i32>, k: int)
    requires
        0 <= k <= b.len(),
    ensures
        empty_cells_from(b, k).len() <= b.len() - k,
    decreases b.len() - k,
{
    if k < b.len() {
        lemma_empty_cells_len(b, k + 1);
    }
}

/// Placing a new tile keeps the board size and fills exactly one empty cell
/// when there is one.
pub proof fn lemma_new_tile_facts(b: Seq<i32>, pick: u32, kind: u32)
    ensures
        with_new_tile(b, pick, kind).len() == b.len(),
        empty_cells(b).len() > 0 ==> {
            let cell = empty_cells(b)[scaled(pick, empty_cells(b).len()) as int];
            &&& 0 <= cell < b.len()
            &&& b[cell] == 0
            &&& with_new_tile(b, pick, kind) == b.update(cell, new_tile_value(kind))
        },
{
    lemma_empty_cells(b, 0);
    if empty_cells(b).len() > 0 {
        lemma_scaled_below(pick, empty_cells(b).len());
    }
}


/// Row `r`, column `c` of the board is row `c`, column `r` of the exchanged
/// board.
pub proof fn lemma_transposed_cells(b: Seq<i32>)
    ensures
        transposed(b).len() == 16,
        forall|r: int, c: int|
            0 <= r < 4 && 0 <= c < 4 ==> #[trigger] transposed(b)[c * 4 + r] == b[r * 4 + c],
{
    assert forall|r: int, c: int| 0 <= r < 4 && 0 <= c < 4 implies #[trigger] transposed(b)[c * 4 + r]
        == b[r * 4 + c] by {
        assert((c * 4 + r) % 4 == r);
        assert((c * 4 + r) / 4 == c);
    }
}

/// Exchanging rows and columns twice gives back the board.
pub proof fn law_transpose_involution(b: Seq<i32>)
    requires
        b.len() == 16,
    ensures
        transposed(transposed(b)) == b,
{
    lemma_transposed(b);
}


/// No tile has a negative value.
pub open spec fn no_negative_tiles(s: Seq<i32>) -> bool {
    forall|i: int| 0 <= i < s.len() ==> #[trigger] s[i] >= 0
}

proof fn lemma_nonneg_tail(s: Seq<i32>, k: int)
    requires
        no_negative_tiles(s),
        0 <= k <= s.len(),
    ensures
        no_negative_tiles(s.skip(k)),
{
    assert forall|i: int| 0 <= i < s.skip(k).len() implies #[trigger] s.skip(k)[i] >= 0 by {
        assert(s.skip(k)[i] == s[i + k]);
    }
}

proof fn lemma_nonneg_slide(row: Seq<i32>)
    requires
        no_negative_tiles(row),
        line_fits(row),
    ensures
        no_negative_tiles(slid_line(row)),
        slide_gain(row) >= 0,
{
    lemma_nonneg_nonzero(row);
    lemma_nonneg_merge(nonzero(row), 0);
    let m = merge_pairs(nonzero(row));
    let p = pad_zeros(m, 4);
    assert forall|i: int| 0 <= i < p.len() implies #[trigger] p[i] >= 0 by {
        if i < m.len() {
            assert(p[i] == m[i]);
        }
    }
}

proof fn lemma_nonneg_nonzero(s: Seq<i32>)
    requires
        no_negative_tiles(s),
    ensures
        no_negative_tiles(nonzero(s)),
    decreases s.len(),
{
    if s.len() > 0 {
        lemma_nonneg_tail(s, 1);
        lemma_nonneg_nonzero(s.skip(1));
        let t = seq![s[0]] + nonzero(s.skip(1));
        assert forall|i: int| 0 <= i < t.len() implies #[trigger] t[i] >= 0 by {
            if i > 0 {
                assert(t[i] == nonzero(s.skip(1))[i - 1]);
            }
        }
    }
}

proof fn lemma_nonneg_merge(s: Seq<i32>, acc: int)
    requires
        no_negative_tiles(s),
        merges_fit(s, acc),
    ensures
        no_negative_tiles(merge_pairs(s)),
        merge_gain(s) >= 0,
    decreases s.len(),
{
    if s.len() > 0 {
        let merging = s.len() >= 2 && s[0] == s[1];
        let k: int = if merging { 2 } else { 1 };
        let next_acc = if merging { acc + s[0] * 2 } else { acc };
        lemma_nonneg_tail(s, k);
        lemma_nonneg_merge(s.skip(k), next_acc);
        let t = merge_pairs(s);
        assert forall|i: int| 0 <= i < t.len() implies #[trigger] t[i] >= 0 by {
            if i > 0 {
                assert(t[i] == merge_pairs(s.skip(k))[i - 1]);
            }
        }
    }
}

proof fn lemma_nonneg_lines(b: Seq<i32>)
    requires
        b.len() == 16,
        no_negative_tiles(b),
    ensures
        forall|r: int| 0 <= r < 4 ==> no_negative_tiles(#[trigger] line(b, r)),
        forall|r: int| 0 <= r < 4 ==> no_negative_tiles(#[trigger] line(b, r).reverse()),
{
    assert forall|r: int| 0 <= r < 4 implies no_negative_tiles(#[trigger] line(b, r)) by {
        assert forall|i: int| 0 <= i < line(b, r).len() implies #[trigger] line(b, r)[i] >= 0 by {
            assert(line(b, r)[i] == b[4 * r + i]);
        }
    }
    assert forall|r: int| 0 <= r < 4 implies no_negative_tiles(#[trigger] line(b, r).reverse()) by {
        assert forall|i: int| 0 <= i < line(b, r).reverse().len() implies #[trigger] line(
            b,
            r,
        ).reverse()[i] >= 0 by {
            assert(line(b, r).reverse()[i] == b[4 * r + 3 - i]);
        }
    }
}

proof fn lemma_nonneg_concat4(a: Seq<i32>, b: Seq<i32>, c: Seq<i32>, d: Seq<i32>)
    requires
        no_negative_tiles(a),
        no_negative_tiles(b),
        no_negative_tiles(c),
        no_negative_tiles(d),
    ensures
        no_negative_tiles(a + b + c + d),
{
    let s = a + b + c + d;
    assert forall|i: int| 0 <= i < s.len() implies #[trigger] s[i] >= 0 by {
        if i < a.len() {
            assert(s[i] == a[i]);
        } else if i < a.len() + b.len() {
            assert(s[i] == b[i - a.len()]);
        } else if i < a.len() + b.len() + c.len() {
            assert(s[i] == c[i - a.len() - b.len()]);
        } else {
            assert(s[i] == d[i - a.len() - b.len() - c.len()]);
        }
    }
}

proof fn lemma_nonneg_reverse(s: Seq<i32>)
    requires
        no_negative_tiles(s),
    ensures
        no_negative_tiles(s.reverse()),
{
    assert forall|i: int| 0 <= i < s.reverse().len() implies #[trigger] s.reverse()[i] >= 0 by {
        assert(s.reverse()[i] == s[s.len() - 1 - i]);
    }
}

proof fn lemma_nonneg_left(b: Seq<i32>)
    requires
        b.len() == 16,
        no_negative_tiles(b),
        left_fits(b),
    ensures
        no_negative_tiles(left_board(b)),
        left_gain(b) >= 0,
{
    lemma_nonneg_lines(b);
    lemma_nonneg_slide(line(b, 0));
    lemma_nonneg_slide(line(b, 1));
    lemma_nonneg_slide(line(b, 2));
    lemma_nonneg_slide(line(b, 3));
    lemma_nonneg_concat4(
        slid_line(line(b, 0)),
        slid_line(line(b, 1)),
        slid_line(line(b, 2)),
        slid_line(line(b, 3)),
    );
}

proof fn lemma_nonneg_right(b: Seq<i32>)
    requires
        b.len() == 16,
        no_negative_tiles(b),
        right_fits(b),
    ensures
        no_negative_tiles(right_board(b)),
        right_gain(b) >= 0,
{
    lemma_nonneg_lines(b);
    lemma_nonneg_slide(line(b, 0).reverse());
    lemma_nonneg_slide(line(b, 1).reverse());
    lemma_nonneg_slide(line(b, 2).reverse());
    lemma_nonneg_slide(line(b, 3).reverse());
    lemma_nonneg_reverse(slid_line(line(b, 0).reverse()));
    lemma_nonneg_reverse(slid_line(line(b, 1).reverse()));
    lemma_nonneg_reverse(slid_line(line(b, 2).reverse()));
    lemma_nonneg_reverse(slid_line(line(b, 3).reverse()));
    lemma_nonneg_concat4(
        slid_line_right(line(b, 0)),
        slid_line_right(line(b, 1)),
        slid_line_right(line(b, 2)),
        slid_line_right(line(b, 3)),
    );
}

proof fn lemma_nonneg_transposed(b: Seq<i32>)
    requires
        b.len() == 16,
        no_negative_tiles(b),
    ensures
        no_negative_tiles(transposed(b)),
{
    assert forall|i: int| 0 <= i < 16 implies #[trigger] transposed(b)[i] >= 0 by {
        assert(0 <= (i % 4) * 4 + i / 4 < 16);
    }
}

/// With no negative tiles, a move creates no negative tile and earns no
/// negative points.
pub proof fn law_moves_keep_tiles_nonnegative(b: Seq<i32>, dir: Seq<char>)
    requires
        b.len() == 16,
        no_negative_tiles(b),
        shift_fits(b, dir),
    ensures
        no_negative_tiles(shifted(b, dir)),
        shift_gain(b, dir) >= 0,
{
    lemma_transposed(b);
    let t = transposed(b);
    if dir == "left"@ {
        lemma_nonneg_left(b);
    } else if dir == "right"@ {
        lemma_nonneg_right(b);
    } else if dir == "up"@ {
        lemma_nonneg_transposed(b);
        lemma_nonneg_left(t);
        lemma_left_facts(t);
        lemma_nonneg_transposed(left_board(t));
    } else if dir == "down"@ {
        lemma_nonneg_transposed(b);
        lemma_nonneg_right(t);
        lemma_right_facts(t);
        lemma_nonneg_transposed(right_board(t));
    }
}

// ---------------------------------------------------------------------------
// Swipes
// ---------------------------------------------------------------------------

/// The absolute value of an integer.
pub open spec fn abs_int(x: int) -> int {
    if x < 0 { -x } else { x }
}

/// The move a pointer drag of `dx` across and `dy` down asks for: none when
/// the drag is at most 26 pixels along both axes; otherwise along the longer
/// axis, vertical on a tie.
pub open spec fn swipe_of(dx: int, dy: int) -> Option<Seq<char>> {
    if abs_int(dx) <= 26 && abs_int(dy) <= 26 {
        None
    } else if abs_int(dx) > abs_int(dy) {
        Some(if dx > 0 { "right"@ } else { "left"@ })
    } else {
        Some(if dy > 0 { "down"@ } else { "up"@ })
    }
}

/// The move a pointer drag asks for, if any.
pub fn swipe_direction(dx: i64, dy: i64) -> (r: Option<&'static str>)
    ensures
        r.is_some() == swipe_of(dx as int, dy as int).is_some(),
        r.is_some() ==> r.unwrap()@ == swipe_of(dx as int, dy as int).unwrap(),
{
    let ax: i128 = if dx < 0 { -(dx as i128) } else { dx as i128 };
    let ay: i128 = if dy < 0 { -(dy as i128) } else { dy as i128 };
    if ax <= 26 && ay <= 26 {
        None
    } else if ax > ay {
        Some(if dx > 0 { "right" } else { "left" })
    } else {
        Some(if dy > 0 { "down" } else { "up" })
    }
}

// ---------------------------------------------------------------------------
// How tiles are drawn
// ---------------------------------------------------------------------------

/// The style class of a tile by its value.
pub open spec fn tile_class_of(value: i32) -> Seq<char> {
    if value == 0 {
        "game2048-cell empty"@
    } else if value == 2 || value == 4 {
        "game2048-cell low"@
    } else if 8 <= value <= 64 {
        "game2048-cell"@
    } else if 128 <= value <= 512 {
        "game2048-cell large"@
    } else {
        "game2048-cell huge"@
    }
}

/// The style class of a tile.
pub fn tile_class(value: i32) -> (r: &'static str)
    ensures
        r@ == tile_class_of(value),
{
    if value == 0 {
        "game2048-cell empty"
    } else if value == 2 || value == 4 {
        "game2048-cell low"
    } else if 8 <= value && value <= 64 {
        "game2048-cell"
    } else if 128 <= value && value <= 512 {
        "game2048-cell large"
    } else {
        "game2048-cell huge"
    }
}

/// The colour of a tile by its value: one per power of two up to 2048, and
/// one for everything else.
pub open spec fn tile_color_of(value: i32) -> Seq<char> {
    if value == 0 { "#263247"@ }
    else if value == 2 { "#f7f0e7"@ }
    else if value == 4 { "#ede0c8"@ }
    else if value == 8 { "#f2b179"@ }
    else if value == 16 { "#f59563"@ }
    else if value == 32 { "#f67c5f"@ }
    else if value == 64 { "#f65e3b"@ }
    else if value == 128 { "#edcf72"@ }
    else if value == 256 { "#edcc61"@ }
    else if value == 512 { "#4f8f76"@ }
    else if value == 1024 { "#4b73a8"@ }
    else if value == 2048 { "#3f3a54"@ }
    else { "#2f2a3d"@ }
}

/// The colour of a tile.
pub fn tile_color(value: i32) -> (r: &'static str)
    ensures
        r@ == tile_color_of(value),
{
    if value == 0 { "#263247" }
    else if value == 2 { "#f7f0e7" }
    else if value == 4 { "#ede0c8" }
    else if value == 8 { "#f2b179" }
    else if value == 16 { "#f59563" }
    else if value == 32 { "#f67c5f" }
    else if value == 64 { "#f65e3b" }
    else if value == 128 { "#edcf72" }
    else if value == 256 { "#edcc61" }
    else if value == 512 { "#4f8f76" }
    else if value == 1024 { "#4b73a8" }
    else if value == 2048 { "#3f3a54" }
    else { "#2f2a3d" }
}

} // verus!
