//! What error-diffusion quantization computes, as a function of the cells.

use vstd::prelude::*;
use crate::lattice::{cell_index, cube, in_lattice};
use crate::kernel::{KernelEntry, reaches, target_of, offsets_distinct, all_forward, is_forward};
use crate::quantize::{nearest_color, palette_keys, is_nearest, lemma_nearest_exists};

verus! {

/// Everything that quantizing the cells of a table depends on besides the
/// cells: the lattice, the palette, the kernel, the nearest-colour rule and
/// the colour arithmetic.
#[verifier::reject_recursive_types(T)]
pub struct DiffusionModel<T> {
    /// Steps along each channel.
    pub res: int,
    /// The palette, by colour id.
    pub palette: Map<u32, T>,
    /// The diffusion kernel.
    pub kernel: Seq<KernelEntry>,
    /// Keys at or above this bound never choose an entry.
    pub limit: u32,
    /// The colour of a cell for which no entry is chosen.
    pub fallback: T,
    /// Orders palette entries by their distance to a colour.
    pub key: spec_fn(T, T) -> u32,
    /// The error between a colour and the colour it was quantized to.
    pub error: spec_fn(T, T) -> T,
    /// A target cell's colour after it receives a weight of an error.
    pub diffuse: spec_fn(T, T, u32) -> T,
}

/// The cells after entries `j` and later of the kernel have spread the
/// error `e` of cell (b, g, r), in kernel order: each entry whose target
/// lies in the lattice adds its weight of the error to the target, and an
/// entry whose target lies outside is skipped.
pub open spec fn spread_error<T>(
    m: DiffusionModel<T>,
    values: Seq<T>,
    b: int,
    g: int,
    r: int,
    e: T,
    j: int,
) -> Seq<T>
    decreases m.kernel.len() - j,
{
    if 0 <= j < m.kernel.len() {
        if reaches(m.kernel[j], m.res, b, g, r) {
            let t = target_of(m.kernel[j], b, g, r);
            let i = cell_index(m.res, t.0, t.1, t.2);
            spread_error(
                m,
                values.update(i, (m.diffuse)(values[i], e, m.kernel[j].scale)),
                b,
                g,
                r,
                e,
                j + 1,
            )
        } else {
            spread_error(m, values, b, g, r, e, j + 1)
        }
    } else {
        values
    }
}

/// The cells after cell `i` is quantized: the cell becomes the palette
/// colour nearest to it, and its error is spread by the kernel.
pub open spec fn quantize_cell<T>(m: DiffusionModel<T>, values: Seq<T>, i: int) -> Seq<T> {
    let b = i / (m.res * m.res);
    let g = (i / m.res) % m.res;
    let r = i % m.res;
    let c = values[i];
    let q = nearest_color(m.palette, m.key, m.limit, m.fallback, c);
    let e = (m.error)(c, q);
    spread_error(m, values.update(i, q), b, g, r, e, 0)
}

/// The cells after the first `n` cells, in scan order, are quantized.
pub open spec fn quantize_prefix<T>(m: DiffusionModel<T>, values: Seq<T>, n: nat) -> Seq<T>
    decreases n,
{
    if n == 0 {
        values
    } else {
        quantize_cell(m, quantize_prefix(m, values, (n - 1) as nat), n - 1)
    }
}

/// Position of the target of kernel entry `k` from cell (b, g, r).
pub open spec fn target_index<T>(m: DiffusionModel<T>, k: int, b: int, g: int, r: int) -> int {
    let t = target_of(m.kernel[k], b, g, r);
    cell_index(m.res, t.0, t.1, t.2)
}

/// Entries with different offsets send error to different cells.
proof fn lemma_targets_differ<T>(m: DiffusionModel<T>, b: int, g: int, r: int, k1: int, k2: int)
    requires
        offsets_distinct(m.kernel),
        0 <= k1 < m.kernel.len(),
        0 <= k2 < m.kernel.len(),
        k1 != k2,
        reaches(m.kernel[k1], m.res, b, g, r),
        reaches(m.kernel[k2], m.res, b, g, r),
    ensures
        target_index(m, k1, b, g, r) != target_index(m, k2, b, g, r),
{
    let t1 = target_of(m.kernel[k1], b, g, r);
    let t2 = target_of(m.kernel[k2], b, g, r);
    crate::lattice::lemma_cell_index_digits(m.res, t1.0, t1.1, t1.2);
    crate::lattice::lemma_cell_index_digits(m.res, t2.0, t2.1, t2.2);
    assert(m.kernel[k1] == m.kernel[k1] && m.kernel[k2] == m.kernel[k2]);
}

/// Spreading the error with entries `j` on: the target of each entry that
/// reaches into the lattice receives `diffuse(value, e, weight)` with the
/// weight of that very entry, and every other cell keeps its value.
pub proof fn lemma_spread_gives_each_target_its_weight<T>(
    m: DiffusionModel<T>,
    values: Seq<T>,
    b: int,
    g: int,
    r: int,
    e: T,
    j: int,
)
    requires
        values.len() == cube(m.res),
        offsets_distinct(m.kernel),
        0 <= j,
    ensures
        spread_error(m, values, b, g, r, e, j).len() == values.len(),
        forall|k: int|
            j <= k < m.kernel.len() && reaches(m.kernel[k], m.res, b, g, r) ==> spread_error(
                m,
                values,
                b,
                g,
                r,
                e,
                j,
            )[#[trigger] target_index(m, k, b, g, r)] == (m.diffuse)(
                values[target_index(m, k, b, g, r)],
                e,
                m.kernel[k].scale,
            ),
        forall|p: int|
            0 <= p < values.len() && (forall|k: int|
                j <= k < m.kernel.len() && reaches(m.kernel[k], m.res, b, g, r) ==> #[trigger] target_index(
                    m,
                    k,
                    b,
                    g,
                    r,
                ) != p) ==> #[trigger] spread_error(m, values, b, g, r, e, j)[p] == values[p],
    decreases m.kernel.len() - j,
{
    if j < m.kernel.len() {
        if reaches(m.kernel[j], m.res, b, g, r) {
            let t = target_of(m.kernel[j], b, g, r);
            let tj = target_index(m, j, b, g, r);
            crate::lattice::lemma_cell_index_bounds(m.res, t.0, t.1, t.2);
            let next = values.update(tj, (m.diffuse)(values[tj], e, m.kernel[j].scale));
            lemma_spread_gives_each_target_its_weight(m, next, b, g, r, e, j + 1);
            assert forall|k: int| j < k < m.kernel.len() && reaches(m.kernel[k], m.res, b, g, r) implies #[trigger] target_index(m, k, b, g, r) != tj by {
                lemma_targets_differ(m, b, g, r, k, j);
            }
            let result = spread_error(m, next, b, g, r, e, j + 1);
            assert(spread_error(m, values, b, g, r, e, j) == result);
            assert(result[tj] == next[tj]);
            assert forall|k: int| j <= k < m.kernel.len() && reaches(m.kernel[k], m.res, b, g, r) implies result[#[trigger] target_index(m, k, b, g, r)] == (m.diffuse)(
                values[target_index(m, k, b, g, r)],
                e,
                m.kernel[k].scale,
            ) by {
                let tk = target_of(m.kernel[k], b, g, r);
                crate::lattice::lemma_cell_index_bounds(m.res, tk.0, tk.1, tk.2);
                if k != j {
                    lemma_targets_differ(m, b, g, r, k, j);
                    assert(next[target_index(m, k, b, g, r)] == values[target_index(m, k, b, g, r)]);
                }
            }
            assert forall|p: int|
                0 <= p < values.len() && (forall|k: int|
                    j <= k < m.kernel.len() && reaches(m.kernel[k], m.res, b, g, r) ==> #[trigger] target_index(m, k, b, g, r) != p)
                implies #[trigger] result[p] == values[p] by {
                assert(target_index(m, j, b, g, r) != p);
                assert(next[p] == values[p]);
            }
        } else {
            lemma_spread_gives_each_target_its_weight(m, values, b, g, r, e, j + 1);
            let result = spread_error(m, values, b, g, r, e, j + 1);
            assert(spread_error(m, values, b, g, r, e, j) == result);
            assert forall|k: int| j <= k < m.kernel.len() && reaches(m.kernel[k], m.res, b, g, r) implies result[#[trigger] target_index(m, k, b, g, r)] == (m.diffuse)(
                values[target_index(m, k, b, g, r)],
                e,
                m.kernel[k].scale,
            ) by {
                assert(k != j);
            }
        }
    }
}

/// Quantizing cell (b, g, r) with a forward kernel whose entries have
/// distinct offsets: the cell becomes `q`, the colour nearest to it; the
/// target of each kernel entry that reaches into the lattice receives
/// `diffuse(value, error(c, q), weight)` with the weight of that entry; and
/// every other cell keeps its value.
pub proof fn lemma_quantize_cell_spreads_kernel_weights<T>(
    m: DiffusionModel<T>,
    values: Seq<T>,
    b: int,
    g: int,
    r: int,
)
    requires
        values.len() == cube(m.res),
        in_lattice(m.res, b, g, r),
        all_forward(m.kernel),
        offsets_distinct(m.kernel),
    ensures
        ({
            let i = cell_index(m.res, b, g, r);
            let c = values[i];
            let q = nearest_color(m.palette, m.key, m.limit, m.fallback, c);
            let out = quantize_cell(m, values, i);
            &&& out.len() == values.len()
            &&& out[i] == q
            &&& forall|k: int|
                0 <= k < m.kernel.len() && reaches(m.kernel[k], m.res, b, g, r) ==> out[#[trigger] target_index(
                    m,
                    k,
                    b,
                    g,
                    r,
                )] == (m.diffuse)(values[target_index(m, k, b, g, r)], (m.error)(c, q), m.kernel[k].scale)
            &&& forall|p: int|
                0 <= p < values.len() && p != i && (forall|k: int|
                    0 <= k < m.kernel.len() && reaches(m.kernel[k], m.res, b, g, r) ==> #[trigger] target_index(
                        m,
                        k,
                        b,
                        g,
                        r,
                    ) != p) ==> #[trigger] out[p] == values[p]
        }),
{
    let i = cell_index(m.res, b, g, r);
    let c = values[i];
    let q = nearest_color(m.palette, m.key, m.limit, m.fallback, c);
    let e = (m.error)(c, q);
    crate::lattice::lemma_cell_index_digits(m.res, b, g, r);
    crate::lattice::lemma_cell_index_bounds(m.res, b, g, r);
    let start = values.update(i, q);
    lemma_spread_gives_each_target_its_weight(m, start, b, g, r, e, 0);
    assert forall|k: int| 0 <= k < m.kernel.len() && reaches(m.kernel[k], m.res, b, g, r) implies #[trigger] target_index(m, k, b, g, r) != i by {
        let t = target_of(m.kernel[k], b, g, r);
        assert(is_forward(m.kernel[k]));
        crate::lattice::lemma_cell_index_follows_scan(m.res, b, g, r, t.0, t.1, t.2);
    }
    let out = spread_error(m, start, b, g, r, e, 0);
    assert(quantize_cell(m, values, i) == out);
    assert(out[i] == start[i]);
    assert forall|k: int| 0 <= k < m.kernel.len() && reaches(m.kernel[k], m.res, b, g, r) implies out[#[trigger] target_index(m, k, b, g, r)] == (m.diffuse)(
        values[target_index(m, k, b, g, r)],
        e,
        m.kernel[k].scale,
    ) by {
        let tk = target_of(m.kernel[k], b, g, r);
        crate::lattice::lemma_cell_index_bounds(m.res, tk.0, tk.1, tk.2);
        assert(start[target_index(m, k, b, g, r)] == values[target_index(m, k, b, g, r)]);
    }
    assert forall|p: int|
        0 <= p < values.len() && p != i && (forall|k: int|
            0 <= k < m.kernel.len() && reaches(m.kernel[k], m.res, b, g, r) ==> #[trigger] target_index(m, k, b, g, r) != p)
        implies #[trigger] out[p] == values[p] by {
        assert(start[p] == values[p]);
    }
}

/// Colour rules under which a palette colour is left as it is: a key is 0
/// exactly for a colour and itself, keys of 0 are below the limit, and a
/// colour's error against itself changes no target.
pub open spec fn rules_keep_palette_colors<T>(m: DiffusionModel<T>) -> bool {
    &&& forall|c: T, p: T| #[trigger] (m.key)(c, p) == 0 <==> c == p
    &&& m.limit > 0
    &&& forall|c: T, t: T, w: u32| #[trigger] (m.diffuse)(t, (m.error)(c, c), w) == t
}

/// Every cell holds a palette colour with an id from 1 up to the
/// palette's size.
pub open spec fn cells_are_palette_colors<T>(m: DiffusionModel<T>, values: Seq<T>) -> bool {
    forall|i: int|
        #![trigger values[i]]
        0 <= i < values.len() ==> exists|k: int|
            1 <= k < m.palette.len() && #[trigger] m.palette[k as u32] == values[i]
}

proof fn lemma_spread_keeps_cells<T>(m: DiffusionModel<T>, values: Seq<T>, b: int, g: int, r: int, e: T, j: int)
    requires
        values.len() == cube(m.res),
        forall|t: T, w: u32| #[trigger] (m.diffuse)(t, e, w) == t,
    ensures
        spread_error(m, values, b, g, r, e, j) == values,
    decreases m.kernel.len() - j,
{
    if 0 <= j < m.kernel.len() {
        if reaches(m.kernel[j], m.res, b, g, r) {
            let t = target_of(m.kernel[j], b, g, r);
            let i = cell_index(m.res, t.0, t.1, t.2);
            crate::lattice::lemma_cell_index_bounds(m.res, t.0, t.1, t.2);
            assert(values.update(i, (m.diffuse)(values[i], e, m.kernel[j].scale)) =~= values);
        }
        lemma_spread_keeps_cells(m, values, b, g, r, e, j + 1);
    }
}

/// Quantizing a table whose cells are all palette colours changes nothing,
/// under colour rules that leave palette colours as they are: each cell is
/// its own nearest colour, its error is nil, and no target changes.
pub proof fn lemma_quantize_keeps_palette_cells<T>(m: DiffusionModel<T>, values: Seq<T>, n: nat)
    requires
        rules_keep_palette_colors(m),
        cells_are_palette_colors(m, values),
        values.len() == cube(m.res),
        n <= values.len(),
    ensures
        quantize_prefix(m, values, n) == values,
    decreases n,
{
    if n > 0 {
        lemma_quantize_keeps_palette_cells(m, values, (n - 1) as nat);
        let i = n - 1;
        let c = values[i];
        let k = choose|k: int| 1 <= k < m.palette.len() && #[trigger] m.palette[k as u32] == values[i];
        let keys = palette_keys(m.palette, m.key, m.limit, c);
        assert(keys[k] == (m.key)(c, m.palette[k as u32]));
        assert((m.key)(c, c) == 0);
        lemma_nearest_exists(keys, m.limit, k);
        let k2 = choose|k2: int| is_nearest(keys, m.limit, k2);
        assert(keys[k2] <= keys[k]);
        assert((m.key)(c, m.palette[k2 as u32]) == 0);
        let q = nearest_color(m.palette, m.key, m.limit, m.fallback, c);
        assert(q == m.palette[k2 as u32]);
        assert(q == c);
        assert(values.update(i, q) =~= values);
        let res = m.res;
        lemma_spread_keeps_cells(m, values, i / (res * res), (i / res) % res, i % res, (m.error)(c, q), 0);
    }
}

} // verus!
