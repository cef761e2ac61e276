//! Choosing free cells for apples.
use vstd::prelude::*;
use vstd::arithmetic::div_mod::lemma_fundamental_div_mod;
use vstd::set_lib::{lemma_int_range, lemma_len_subset, set_int_range};
use crate::game::APPLE_COUNT;
use crate::grid::{Position, in_board, holds};
use crate::rng::random_u16;

verus! {

/// How many uniformly drawn cells are tried before the board is searched
/// in order. On a board with free cells left the search always finds one,
/// so placement ends even when nearly every cell is taken.
pub const RANDOM_DRAWS: u32 = 64;

/// The cell with row-major index `k` on a board `width` columns wide.
spec fn cell_at(k: int, width: u16) -> Position {
    ((k % width as int) as u16, (k / width as int) as u16)
}

/// A list of fewer cells than the board has misses one of the board's cells.
proof fn lemma_some_cell_uncovered(cells: Seq<Position>, width: u16, height: u16)
    requires
        width > 0,
        height > 0,
        cells.len() < width * height,
    ensures
        exists|k: int| 0 <= k < width * height && !cells.contains(#[trigger] cell_at(k, width)),
{
    let w = width as int;
    let h = height as int;
    if forall|k: int| 0 <= k < w * h ==> cells.contains(#[trigger] cell_at(k, width)) {
        let idx = cells.map_values(|p: Position| p.1 * w + p.0);
        let range = set_int_range(0, w * h);
        assert forall|k: int| range.contains(k) implies idx.to_set().contains(k) by {
            assert(cells.contains(cell_at(k, width)));
            let j = choose|j: int| 0 <= j < cells.len() && cells[j] == cell_at(k, width);
            lemma_fundamental_div_mod(k, w);
            assert(0 <= k % w < w) by (nonlinear_arith)
                requires w > 0;
            assert(0 <= k / w < h) by (nonlinear_arith)
                requires w > 0, 0 <= k < w * h;
            assert(idx[j] == (k / w) * w + k % w) by (nonlinear_arith)
                requires idx[j] == (k / w) * w + k % w;
            assert(idx[j] == k) by (nonlinear_arith)
                requires k == w * (k / w) + (k % w), idx[j] == (k / w) * w + k % w;
        }
        lemma_int_range(0, w * h);
        idx.lemma_cardinality_of_set();
        lemma_len_subset(range, idx.to_set());
    }
}

/// A cell of the board held neither by `body` nor by `apples`.
///
/// `cells` lists every taken cell (a cell may be listed once even where both
/// lists hold it); there must be fewer of them than the board has cells.
pub(crate) fn free_cell(
    body: &Vec<Position>,
    apples: &Vec<Position>,
    width: u16,
    height: u16,
    Ghost(cells): Ghost<Seq<Position>>,
) -> (r: Position)
    requires
        width > 0,
        height > 0,
        cells.len() < width * height,
        forall|p: Position| body@.contains(p) || apples@.contains(p) ==> cells.contains(p),
    ensures
        in_board(r, width, height),
        !body@.contains(r),
        !apples@.contains(r),
{
    let mut draws: u32 = 0;
    while draws < RANDOM_DRAWS
        invariant
            draws <= RANDOM_DRAWS,
            width > 0,
            height > 0,
        decreases RANDOM_DRAWS - draws,
    {
        let c = (random_u16() % width, random_u16() % height);
        if !holds(body, c) && !holds(apples, c) {
            return c;
        }
        draws = draws + 1;
    }
    let w = width as u32;
    assert((width as int) * (height as int) <= 0xffff * 0xffff) by (nonlinear_arith)
        requires width <= 0xffff, height <= 0xffff;
    let total: u32 = w * height as u32;
    let mut k: u32 = 0;
    while k < total
        invariant
            k <= total,
            total == width * height,
            w == width,
            width > 0,
            forall|p: Position| body@.contains(p) || apples@.contains(p) ==> cells.contains(p),
            forall|j: int| 0 <= j < k ==> cells.contains(#[trigger] cell_at(j, width)),
        decreases total - k,
    {
        assert(k / w < height) by (nonlinear_arith)
            requires w > 0, k < w * height;
        let c = ((k % w) as u16, (k / w) as u16);
        assert(c == cell_at(k as int, width));
        if !holds(body, c) && !holds(apples, c) {
            return c;
        }
        k = k + 1;
    }
    proof {
        lemma_some_cell_uncovered(cells, width, height);
    }
    // Not reached: the search above met every cell, and some cell is free.
    (0, 0)
}

/// `APPLE_COUNT` distinct cells of the board, none of them held by `body`.
pub(crate) fn place_apples(body: &Vec<Position>, width: u16, height: u16) -> (r: Vec<Position>)
    requires
        width > 0,
        height > 0,
        body@.len() + APPLE_COUNT < width * height,
    ensures
        r@.len() == APPLE_COUNT,
        forall|i: int| 0 <= i < r@.len() ==> in_board(#[trigger] r@[i], width, height),
        forall|i: int, j: int| 0 <= i < j < r@.len() ==> r@[i] != r@[j],
        forall|i: int| 0 <= i < r@.len() ==> !body@.contains(#[trigger] r@[i]),
{
    let mut apples: Vec<Position> = Vec::new();
    let mut i: usize = 0;
    while i < APPLE_COUNT
        invariant
            i <= APPLE_COUNT,
            apples@.len() == i,
            width > 0,
            height > 0,
            body@.len() + APPLE_COUNT < width * height,
            forall|a: int| 0 <= a < apples@.len() ==> in_board(#[trigger] apples@[a], width, height),
            forall|a: int, b: int| 0 <= a < b < apples@.len() ==> apples@[a] != apples@[b],
            forall|a: int| 0 <= a < apples@.len() ==> !body@.contains(#[trigger] apples@[a]),
        decreases APPLE_COUNT - i,
    {
        let ghost taken = body@ + apples@;
        proof {
            assert forall|p: Position| body@.contains(p) || apples@.contains(p) implies taken.contains(p) by {
                if body@.contains(p) {
                    let j = choose|j: int| 0 <= j < body@.len() && body@[j] == p;
                    assert(taken[j] == p);
                } else {
                    let j = choose|j: int| 0 <= j < apples@.len() && apples@[j] == p;
                    assert(taken[body@.len() + j] == p);
                }
            }
        }
        let c = free_cell(body, &apples, width, height, Ghost(taken));
        let ghost prev = apples@;
        apples.push(c);
        proof {
            assert forall|a: int, b: int| 0 <= a < b < apples@.len() implies apples@[a] != apples@[b] by {
                if b == i as int {
                    assert(apples@[a] == prev[a]);
                    assert(prev.contains(prev[a]));
                }
            }
        }
        i = i + 1;
    }
    apples
}

} // verus!
