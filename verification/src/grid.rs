//! Row-major grid indexing: conversions between linear indices and
//! (column, row) coordinates, and the arithmetic facts about them.

use vstd::prelude::*;
use vstd::arithmetic::div_mod::lemma_fundamental_div_mod;
use vstd::arithmetic::div_mod::lemma_fundamental_div_mod_converse;
use vstd::arithmetic::div_mod::lemma_mod_bound;
use vstd::arithmetic::mul::lemma_mul_inequality;
use vstd::arithmetic::mul::lemma_mul_is_commutative;

verus! {

/// The row of linear index `i` on a board `w` tiles wide.
pub open spec fn row_of(i: int, w: int) -> int {
    i / w
}

/// The column of linear index `i` on a board `w` tiles wide.
pub open spec fn col_of(i: int, w: int) -> int {
    i % w
}

/// The linear index of the cell in column `c` of row `r`.
pub open spec fn index_of(r: int, c: int, w: int) -> int {
    r * w + c
}

/// On a `w` by `h` board, every linear index splits into a row below `h`
/// and a column below `w`, and the split is exact.
pub proof fn lemma_row_col(w: int, h: int, i: int)
    requires
        1 <= w,
        1 <= h,
        0 <= i < w * h,
    ensures
        0 <= row_of(i, w) < h,
        0 <= col_of(i, w) < w,
        i == index_of(row_of(i, w), col_of(i, w), w),
{
    lemma_fundamental_div_mod(i, w);
    lemma_mod_bound(i, w);
    lemma_mul_is_commutative(w, i / w);
    if i / w < 0 {
        lemma_mul_inequality(i / w, -1, w);
        lemma_mul_is_commutative(-1, w);
    }
    if i / w >= h {
        lemma_mul_inequality(h, i / w, w);
        lemma_mul_is_commutative(h, w);
    }
}

/// Composing a row below `h` with a column below `w` lands inside the
/// board, and splitting the result gives the row and column back.
pub proof fn lemma_cell_index(w: int, h: int, r: int, c: int)
    requires
        1 <= w,
        1 <= h,
        0 <= r < h,
        0 <= c < w,
    ensures
        0 <= index_of(r, c, w) < w * h,
        row_of(index_of(r, c, w), w) == r,
        col_of(index_of(r, c, w), w) == c,
{
    lemma_fundamental_div_mod_converse(r * w + c, w, r, c);
    assert(0 <= r * w + c < w * h) by (nonlinear_arith)
        requires
            1 <= w,
            0 <= r < h,
            0 <= c < w,
    ;
}

/// Converts a (column, row) coordinate pair to a linear index.
pub fn get_coord_vec(coord: (u32, u32), width: u32) -> (i: usize)
    requires
        index_of(coord.1 as int, coord.0 as int, width as int) <= usize::MAX,
    ensures
        i == index_of(coord.1 as int, coord.0 as int, width as int),
{
    ((coord.1 as usize) * (width as usize)) + (coord.0 as usize)
}

/// Converts a linear index back to its (column, row) coordinate pair.
pub fn get_vec_coord(vec: usize, width: u32) -> (coord: (u32, u32))
    requires
        1 <= width,
        vec <= u32::MAX,
    ensures
        coord.0 == col_of(vec as int, width as int),
        coord.1 == row_of(vec as int, width as int),
{
    proof {
        lemma_fundamental_div_mod(vec as int, width as int);
        lemma_mod_bound(vec as int, width as int);
    }
    ((vec as u32) % width, (vec as u32) / width)
}

/// True when a mine stands at linear index `i` of the mine list.
pub open spec fn mine_at(mines: Seq<u32>, i: int) -> bool {
    0 <= i <= u32::MAX && mines.contains(i as u32)
}

/// Reports whether the list holds the value, by a linear scan.
pub fn contains_u32(v: &Vec<u32>, x: u32) -> (b: bool)
    ensures
        b == v@.contains(x),
{
    let mut k: usize = 0;
    while k < v.len()
        invariant
            0 <= k <= v@.len(),
            forall|j: int| 0 <= j < k ==> v@[j] != x,
        decreases v@.len() - k,
    {
        if v[k] == x {
            return true;
        }
        k += 1;
    }
    false
}

/// Reports whether the list holds the value, by a linear scan.
pub fn contains_usize(v: &Vec<usize>, x: usize) -> (b: bool)
    ensures
        b == v@.contains(x),
{
    let mut k: usize = 0;
    while k < v.len()
        invariant
            0 <= k <= v@.len(),
            forall|j: int| 0 <= j < k ==> v@[j] != x,
        decreases v@.len() - k,
    {
        if v[k] == x {
            return true;
        }
        k += 1;
    }
    false
}

} // verus!
