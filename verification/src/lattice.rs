//! Layout of a cubic lattice stored as one flat sequence, blue-major.

use vstd::prelude::*;

verus! {

/// Number of cells of a lattice with `res` steps along each side.
pub open spec fn cube(res: int) -> int {
    res * res * res
}

/// Whether (blue, green, red) names a cell of a lattice with `res` steps per side.
pub open spec fn in_lattice(res: int, b: int, g: int, r: int) -> bool {
    &&& 0 <= b < res
    &&& 0 <= g < res
    &&& 0 <= r < res
}

/// Position of cell (blue, green, red) in the flat storage: blue slices,
/// each made of green rows, each made of red steps.
pub open spec fn cell_index(res: int, b: int, g: int, r: int) -> int {
    (b * res + g) * res + r
}

/// Whether cell (b1, g1, r1) is visited before cell (b2, g2, r2) by a scan
/// that runs over blue, then green, then red.
pub open spec fn scan_before(b1: int, g1: int, r1: int, b2: int, g2: int, r2: int) -> bool {
    ||| b1 < b2
    ||| b1 == b2 && g1 < g2
    ||| b1 == b2 && g1 == g2 && r1 < r2
}

proof fn lemma_digit_lt(q1: int, d1: int, q2: int, d2: int, m: int)
    by (nonlinear_arith)
    requires
        0 <= d1 < m,
        0 <= d2,
        q1 < q2,
    ensures
        q1 * m + d1 < q2 * m + d2,
{
}

proof fn lemma_digit_bound(q: int, d: int, m: int, bound: int)
    by (nonlinear_arith)
    requires
        0 <= q < bound,
        0 <= d < m,
    ensures
        0 <= q * m + d < bound * m,
{
}

/// Every cell of the lattice has a position inside the flat storage.
pub proof fn lemma_cell_index_bounds(res: int, b: int, g: int, r: int)
    requires
        in_lattice(res, b, g, r),
    ensures
        0 <= cell_index(res, b, g, r) < cube(res),
{
    lemma_digit_bound(b, g, res, res);
    lemma_digit_bound(b * res + g, r, res, res * res);
}

/// The flat position follows the scan order.
pub proof fn lemma_cell_index_follows_scan(
    res: int,
    b1: int,
    g1: int,
    r1: int,
    b2: int,
    g2: int,
    r2: int,
)
    requires
        in_lattice(res, b1, g1, r1),
        in_lattice(res, b2, g2, r2),
        scan_before(b1, g1, r1, b2, g2, r2),
    ensures
        cell_index(res, b1, g1, r1) < cell_index(res, b2, g2, r2),
{
    if b1 < b2 {
        lemma_digit_lt(b1, g1, b2, g2, res);
        lemma_digit_lt(b1 * res + g1, r1, b2 * res + g2, r2, res);
    } else if g1 < g2 {
        lemma_digit_lt(b1 * res + g1, r1, b2 * res + g2, r2, res);
    }
}

/// The cell after the last red step of a row is the first of the next row.
pub proof fn lemma_cell_index_next_row(res: int, b: int, g: int)
    ensures
        cell_index(res, b, g, res) == cell_index(res, b, g + 1, 0),
{
    assert((b * res + g) * res + res == (b * res + (g + 1)) * res + 0) by (nonlinear_arith);
}

/// The row after the last green row of a slice is the first of the next slice.
pub proof fn lemma_cell_index_next_slice(res: int, b: int)
    ensures
        cell_index(res, b, res, 0) == cell_index(res, b + 1, 0, 0),
{
    assert((b * res + res) * res + 0 == ((b + 1) * res + 0) * res + 0) by (nonlinear_arith);
}

/// The first cell of slice `b` sits after all cells of the slices before it.
pub proof fn lemma_cell_index_slice_start(res: int, b: int)
    ensures
        cell_index(res, b, 0, 0) == b * (res * res),
        cell_index(res, res, 0, 0) == cube(res),
{
    assert((b * res + 0) * res + 0 == b * (res * res)) by (nonlinear_arith);
    assert((res * res + 0) * res + 0 == res * res * res) by (nonlinear_arith);
}

/// Blue, green and red are read back from a flat position by division.
pub proof fn lemma_cell_index_digits(res: int, b: int, g: int, r: int)
    requires
        in_lattice(res, b, g, r),
    ensures
        cell_index(res, b, g, r) / (res * res) == b,
        (cell_index(res, b, g, r) / res) % res == g,
        cell_index(res, b, g, r) % res == r,
{
    let i = cell_index(res, b, g, r);
    let p = b * res + g;
    vstd::arithmetic::div_mod::lemma_fundamental_div_mod_converse(i, res, p, r);
    vstd::arithmetic::div_mod::lemma_fundamental_div_mod_converse(p, res, b, g);
    assert(i >= 0) by {
        lemma_cell_index_bounds(res, b, g, r);
    }
    vstd::arithmetic::div_mod::lemma_div_denominator(i, res, res);
}

/// Every flat position inside the storage is the position of one cell.
pub proof fn lemma_cell_index_split(res: int, i: int)
    requires
        0 <= i < cube(res),
    ensures
        res > 0,
        in_lattice(res, i / (res * res), (i / res) % res, i % res),
        cell_index(res, i / (res * res), (i / res) % res, i % res) == i,
{
    if res <= 0 {
        assert(res * res * res <= 0) by (nonlinear_arith)
            requires
                res <= 0,
        ;
    }
    let q = i / res;
    vstd::arithmetic::div_mod::lemma_fundamental_div_mod(i, res);
    vstd::arithmetic::div_mod::lemma_mod_pos_bound(i, res);
    vstd::arithmetic::div_mod::lemma_div_pos_is_pos(i, res);
    vstd::arithmetic::div_mod::lemma_fundamental_div_mod(q, res);
    vstd::arithmetic::div_mod::lemma_mod_pos_bound(q, res);
    vstd::arithmetic::div_mod::lemma_div_pos_is_pos(q, res);
    vstd::arithmetic::div_mod::lemma_div_denominator(i, res, res);
    let b = q / res;
    let g = q % res;
    let r = i % res;
    assert(i == (b * res + g) * res + r) by (nonlinear_arith)
        requires
            i == res * q + r,
            q == res * b + g,
    ;
    assert(b < res) by (nonlinear_arith)
        requires
            i == (b * res + g) * res + r,
            0 <= g,
            0 <= r,
            0 < res,
            i < res * res * res,
    ;
}

} // verus!
