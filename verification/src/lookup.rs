//! The lookup table: a cubic lattice of colours over the RGB cube.

use vstd::prelude::*;
use std::collections::HashMap;
use crate::lattice::{
    cube,
    in_lattice,
    cell_index,
    scan_before,
    lemma_cell_index_bounds,
    lemma_cell_index_follows_scan,
    lemma_cell_index_next_row,
    lemma_cell_index_next_slice,
    lemma_cell_index_slice_start,
};
use crate::kernel::{
    KernelEntry,
    mae_kernel,
    all_forward,
    is_forward,
    minimized_average_error_kernel,
    kernel_target,
};
use crate::quantize::{nearest_index, is_nearest, nearest_color, palette_keys, lemma_nearest_unique};
use crate::diffusion::{DiffusionModel, quantize_prefix, spread_error};

verus! {

broadcast use vstd::std_specs::hash::group_hash_axioms;

/// What a lookup table holds, as mathematical values.
#[verifier::ext_equal]
pub struct LookupTableModel<T> {
    /// Name under which the table and its slices are saved.
    pub name: Seq<char>,
    /// Number of steps along each of red, green and blue.
    pub resolution: nat,
    /// The cells, blue-major: cell (b, g, r) is `values[cell_index(resolution, b, g, r)]`.
    pub values: Seq<T>,
    /// The palette, by colour id.
    pub palette: Map<u32, T>,
    /// The diffusion kernel.
    pub kernel: Seq<KernelEntry>,
}

/// A lookup table over colours of type `T`: generated from a palette,
/// quantized with error diffusion, and used to convert images.
pub struct LookupTable<T> {
    name: String,
    values: Vec<T>,
    resolution: usize,
    palette: HashMap<u32, T>,
    kernel: Vec<KernelEntry>,
}

impl<T> LookupTable<T> {
    pub closed spec fn model(&self) -> LookupTableModel<T> {
        LookupTableModel {
            name: self.name@,
            resolution: self.resolution as nat,
            values: self.values@,
            palette: self.palette@,
            kernel: self.kernel@,
        }
    }

    /// The table holds one value for each cell of its lattice.
    pub open spec fn wf(&self) -> bool {
        self@.values.len() == cube(self@.resolution as int)
    }
}

impl<T> View for LookupTable<T> {
    type V = LookupTableModel<T>;

    open spec fn view(&self) -> LookupTableModel<T> {
        self.model()
    }
}

/// The lattice step that a colour step maps to: steps past the last one are
/// taken as the last one.
pub open spec fn clamp_step(step: int, res: int) -> int {
    if step > res - 1 {
        res - 1
    } else {
        step
    }
}

/// Clamping leaves a step inside the lattice as it is and takes every step
/// past the last one as the last one: it is the smaller of the step and
/// `res - 1`.
pub proof fn lemma_clamp_step(step: int, res: int)
    requires
        0 <= step,
        0 < res,
    ensures
        step < res ==> clamp_step(step, res) == step,
        step >= res ==> clamp_step(step, res) == res - 1,
        0 <= clamp_step(step, res) < res,
{
}

/// `v` is a colour that quantization can produce: an entry of the palette
/// other than entry 0, or the fallback colour.
pub open spec fn is_palette_color<T>(palette: Map<u32, T>, fallback: T, v: T) -> bool {
    ||| v == fallback
    ||| exists|k: int| 1 <= k < palette.len() && #[trigger] palette[k as u32] == v
}

/// Every id from 1 up to the palette's size names a colour of the palette.
pub open spec fn has_ids<T>(palette: Map<u32, T>) -> bool {
    forall|i: int| 1 <= i < palette.len() ==> #[trigger] palette.contains_key(i as u32)
}

/// `key_of` gives one key for each pair of colours.
pub open spec fn key_deterministic<T, K: Fn(&T, &T) -> u32>(key_of: K) -> bool {
    forall|x: T, y: T, k1: u32, k2: u32|
        #![trigger call_ensures(key_of, (&x, &y), k1), call_ensures(key_of, (&x, &y), k2)]
        call_ensures(key_of, (&x, &y), k1) && call_ensures(key_of, (&x, &y), k2) ==> k1 == k2
}

/// `error` gives one error for each pair of colours.
pub open spec fn error_deterministic<T, E: Fn(&T, &T) -> T>(error: E) -> bool {
    forall|x: T, y: T, e1: T, e2: T|
        #![trigger call_ensures(error, (&x, &y), e1), call_ensures(error, (&x, &y), e2)]
        call_ensures(error, (&x, &y), e1) && call_ensures(error, (&x, &y), e2) ==> e1 == e2
}

/// `diffuse` gives one colour for each colour, error and weight.
pub open spec fn diffuse_deterministic<T, D: Fn(&T, &T, u32) -> T>(diffuse: D) -> bool {
    forall|x: T, e: T, w: u32, v1: T, v2: T|
        #![trigger call_ensures(diffuse, (&x, &e, w), v1), call_ensures(diffuse, (&x, &e, w), v2)]
        call_ensures(diffuse, (&x, &e, w), v1) && call_ensures(diffuse, (&x, &e, w), v2) ==> v1 == v2
}

/// The key that `key_of` gives for two colours.
pub open spec fn key_function<T, K: Fn(&T, &T) -> u32>(key_of: K) -> spec_fn(T, T) -> u32 {
    |x: T, y: T| choose|k: u32| call_ensures(key_of, (&x, &y), k)
}

/// The error that `error` gives for two colours.
pub open spec fn error_function<T, E: Fn(&T, &T) -> T>(error: E) -> spec_fn(T, T) -> T {
    |x: T, y: T| choose|e: T| call_ensures(error, (&x, &y), e)
}

/// The colour that `diffuse` gives for a colour, an error and a weight.
pub open spec fn diffuse_function<T, D: Fn(&T, &T, u32) -> T>(diffuse: D) -> spec_fn(T, T, u32) -> T {
    |x: T, e: T, w: u32| choose|v: T| call_ensures(diffuse, (&x, &e, w), v)
}

/// The quantization of a table with the given colour rules.
pub open spec fn diffusion_model<T, K, E, D>(
    lut: LookupTableModel<T>,
    key_of: K,
    limit: u32,
    fallback: T,
    error: E,
    diffuse: D,
) -> DiffusionModel<T> where
    K: Fn(&T, &T) -> u32,
    E: Fn(&T, &T) -> T,
    D: Fn(&T, &T, u32) -> T,
 {
    DiffusionModel {
        res: lut.resolution as int,
        palette: lut.palette,
        kernel: lut.kernel,
        limit: limit,
        fallback: fallback,
        key: key_function(key_of),
        error: error_function(error),
        diffuse: diffuse_function(diffuse),
    }
}

/// The number of cells of a lattice, computed without overflow.
fn cell_count(res: usize) -> (n: usize)
    requires
        cube(res as int) <= usize::MAX,
    ensures
        n == cube(res as int),
{
    assert(res * res <= usize::MAX) by (nonlinear_arith)
        requires
            res * res * res <= usize::MAX,
    ;
    res * res * res
}

/// The flat position of a cell, computed without overflow.
fn flat_index(res: usize, b: usize, g: usize, r: usize) -> (i: usize)
    requires
        in_lattice(res as int, b as int, g as int, r as int),
        cube(res as int) <= usize::MAX,
    ensures
        i == cell_index(res as int, b as int, g as int, r as int),
        i < cube(res as int),
{
    proof {
        lemma_cell_index_bounds(res as int, b as int, g as int, r as int);
    }
    assert(b * res + g <= (b * res + g) * res + r && b * res <= b * res + g && (b * res + g) * res <= (b * res + g) * res + r) by (nonlinear_arith)
        requires
            0 <= g,
            0 <= r,
            0 <= b,
            1 <= res,
    ;
    (b * res + g) * res + r
}

/// `nested` holds the cells of `values` in the layout [blue][green][red],
/// `res` entries at each level.
pub open spec fn nests<T>(nested: Seq<Vec<Vec<T>>>, values: Seq<T>, res: int) -> bool {
    &&& nested.len() == res
    &&& forall|b: int| 0 <= b < res ==> (#[trigger] nested[b])@.len() == res
    &&& forall|b: int, g: int| 0 <= b < res && 0 <= g < res ==> (#[trigger] nested[b]@[g])@.len() == res
    &&& forall|b: int, g: int, r: int|
        #![trigger nested[b]@[g]@[r]]
        in_lattice(res, b, g, r) ==> nested[b]@[g]@[r] == values[cell_index(res, b, g, r)]
}

/// Every cell of a lattice with `res` steps per side has an entry in the
/// layout [blue][green][red]; entries beyond those are not read.
pub open spec fn covers<T>(nested: Seq<Vec<Vec<T>>>, res: int) -> bool {
    &&& nested.len() >= res
    &&& forall|b: int| 0 <= b < res ==> (#[trigger] nested[b])@.len() >= res
    &&& forall|b: int, g: int| 0 <= b < res && 0 <= g < res ==> (#[trigger] nested[b]@[g])@.len() >= res
}

/// The cells of a lattice with `res` steps per side, read from the layout
/// [blue][green][red] into the flat blue-major storage.
pub open spec fn flatten<T>(nested: Seq<Vec<Vec<T>>>, res: int) -> Seq<T> {
    Seq::new(cube(res) as nat, |i: int| nested[i / (res * res)]@[(i / res) % res]@[i % res])
}

/// Writing cells out in the layout [blue][green][red] and reading them back
/// gives the same cells: the nested layout covers the lattice and flattens
/// to the values it was made from.
pub proof fn lemma_nested_round_trip<T>(nested: Seq<Vec<Vec<T>>>, values: Seq<T>, res: int)
    requires
        values.len() == cube(res),
        nests(nested, values, res),
    ensures
        covers(nested, res),
        flatten(nested, res) == values,
{
    assert forall|i: int| 0 <= i < cube(res) implies #[trigger] flatten(nested, res)[i] == values[i] by {
        crate::lattice::lemma_cell_index_split(res, i);
        let b = i / (res * res);
        let g = (i / res) % res;
        let r = i % res;
        assert(nested[b]@[g]@[r] == values[cell_index(res, b, g, r)]);
    }
    assert(flatten(nested, res) =~= values);
}

/// A table written out in the layout [blue][green][red] and read back with
/// its own name, palette and kernel is the same table.
pub proof fn lemma_table_round_trip<T>(t: LookupTableModel<T>, nested: Seq<Vec<Vec<T>>>)
    requires
        t.values.len() == cube(t.resolution as int),
        nests(nested, t.values, t.resolution as int),
    ensures
        covers(nested, t.resolution as int),
        (LookupTableModel {
            name: t.name,
            resolution: t.resolution,
            values: flatten(nested, t.resolution as int),
            palette: t.palette,
            kernel: t.kernel,
        }) == t,
{
    lemma_nested_round_trip(nested, t.values, t.resolution as int);
}

/// The layout [blue][green][red] has exactly `res` entries at each level.
pub open spec fn exact_shape<T>(nested: Seq<Vec<Vec<T>>>, res: int) -> bool {
    &&& nested.len() == res
    &&& forall|b: int| 0 <= b < res ==> (#[trigger] nested[b])@.len() == res
    &&& forall|b: int, g: int| 0 <= b < res && 0 <= g < res ==> (#[trigger] nested[b]@[g])@.len() == res
}

/// Reading cells from a layout of exactly `res` entries at each level and
/// writing them out again gives the same layout: it holds the cells it was
/// read into.
pub proof fn lemma_layout_round_trip<T>(nested: Seq<Vec<Vec<T>>>, res: int)
    requires
        exact_shape(nested, res),
    ensures
        nests(nested, flatten(nested, res), res),
{
    assert forall|b: int, g: int, r: int|
        #![trigger nested[b]@[g]@[r]]
        in_lattice(res, b, g, r) implies nested[b]@[g]@[r] == flatten(nested, res)[cell_index(res, b, g, r)] by {
        crate::lattice::lemma_cell_index_digits(res, b, g, r);
        lemma_cell_index_bounds(res, b, g, r);
    }
}

/// Whether the layout [blue][green][red] has an entry for every cell.
fn covers_lattice<T>(nested: &Vec<Vec<Vec<T>>>, res: usize) -> (ok: bool)
    ensures
        ok == covers(nested@, res as int),
{
    if nested.len() < res {
        return false;
    }
    let mut b: usize = 0;
    while b < res
        invariant
            b <= res,
            nested@.len() >= res,
            forall|b2: int| 0 <= b2 < b ==> (#[trigger] nested@[b2])@.len() >= res,
            forall|b2: int, g2: int| 0 <= b2 < b && 0 <= g2 < res ==> (#[trigger] nested@[b2]@[g2])@.len() >= res,
        decreases res - b,
    {
        let slice = &nested[b];
        if slice.len() < res {
            return false;
        }
        let mut g: usize = 0;
        while g < res
            invariant
                b < res,
                g <= res,
                nested@.len() >= res,
                slice@ == nested@[b as int]@,
                slice@.len() >= res,
                forall|b2: int| 0 <= b2 < b ==> (#[trigger] nested@[b2])@.len() >= res,
                forall|b2: int, g2: int| 0 <= b2 < b && 0 <= g2 < res ==> (#[trigger] nested@[b2]@[g2])@.len() >= res,
                forall|g2: int| 0 <= g2 < g ==> (#[trigger] nested@[b as int]@[g2])@.len() >= res,
            decreases res - g,
        {
            if slice[g].len() < res {
                return false;
            }
            g = g + 1;
        }
        b = b + 1;
    }
    true
}

impl<T: Copy> LookupTable<T> {
    /// A table with `resolution` steps along each channel, every cell set to
    /// `fill`, holding the palette and the minimized-average-error kernel.
    ///
    /// The palette maps colour ids to colours: the pixels of the palette
    /// image, numbered row by row.
    pub fn new(name: String, resolution: usize, palette: HashMap<u32, T>, fill: T) -> (lut: Self)
        requires
            cube(resolution as int) <= usize::MAX,
        ensures
            lut.wf(),
            lut@.name == name@,
            lut@.resolution == resolution,
            lut@.palette == palette@,
            lut@.kernel == mae_kernel(),
            all_forward(lut@.kernel),
            lut@.values == Seq::new(cube(resolution as int) as nat, |i: int| fill),
    {
        proof {
            crate::kernel::lemma_mae_kernel_is_forward();
        }
        let n = cell_count(resolution);
        let mut values: Vec<T> = Vec::new();
        let mut i: usize = 0;
        while i < n
            invariant
                i <= n,
                values@ =~= Seq::new(i as nat, |j: int| fill),
            decreases n - i,
        {
            values.push(fill);
            i = i + 1;
        }
        LookupTable {
            name: name,
            values: values,
            resolution: resolution,
            palette: palette,
            kernel: minimized_average_error_kernel(),
        }
    }

    /// Fills every cell with the colour it stands for: cell (b, g, r) gets
    /// `color_at(r, g, b, resolution)`, the colour whose channels are the
    /// steps divided by the resolution. Cells are filled in scan order.
    pub fn populate<F: Fn(usize, usize, usize, usize) -> T>(self, color_at: F) -> (lut: Self)
        requires
            self.wf(),
            forall|r: usize, g: usize, b: usize, res: usize| call_requires(color_at, (r, g, b, res)),
        ensures
            lut.wf(),
            lut@.name == self@.name,
            lut@.resolution == self@.resolution,
            lut@.palette == self@.palette,
            lut@.kernel == self@.kernel,
            forall|b: int, g: int, r: int|
                #![trigger lut@.values[cell_index(self@.resolution as int, b, g, r)]]
                in_lattice(self@.resolution as int, b, g, r) ==> call_ensures(
                    color_at,
                    (r as usize, g as usize, b as usize, self@.resolution as usize),
                    lut@.values[cell_index(self@.resolution as int, b, g, r)],
                ),
    {
        let ghost old_len = self.values@.len();
        let LookupTable { name, values: _old_values, resolution, palette, kernel } = self;
        let res = resolution;
        let ghost resi = res as int;
        let mut values: Vec<T> = Vec::new();
        proof {
            lemma_cell_index_slice_start(resi, 0);
        }
        let mut b: usize = 0;
        while b < res
            invariant
                b <= res,
                resi == res,
                values.len() == cell_index(resi, b as int, 0, 0),
                forall|r: usize, g: usize, b: usize, res: usize| call_requires(color_at, (r, g, b, res)),
                forall|b2: int, g2: int, r2: int|
                    #![trigger values@[cell_index(resi, b2, g2, r2)]]
                    in_lattice(resi, b2, g2, r2) && scan_before(b2, g2, r2, b as int, 0, 0) ==> call_ensures(
                        color_at,
                        (r2 as usize, g2 as usize, b2 as usize, res),
                        values@[cell_index(resi, b2, g2, r2)],
                    ),
            decreases res - b,
        {
            let mut g: usize = 0;
            while g < res
                invariant
                    b < res,
                    g <= res,
                    resi == res,
                    values.len() == cell_index(resi, b as int, g as int, 0),
                    forall|r: usize, g: usize, b: usize, res: usize| call_requires(color_at, (r, g, b, res)),
                    forall|b2: int, g2: int, r2: int|
                        #![trigger values@[cell_index(resi, b2, g2, r2)]]
                        in_lattice(resi, b2, g2, r2) && scan_before(b2, g2, r2, b as int, g as int, 0) ==> call_ensures(
                            color_at,
                            (r2 as usize, g2 as usize, b2 as usize, res),
                            values@[cell_index(resi, b2, g2, r2)],
                        ),
                decreases res - g,
            {
                let mut r: usize = 0;
                while r < res
                    invariant
                        b < res,
                        g < res,
                        r <= res,
                        resi == res,
                        values.len() == cell_index(resi, b as int, g as int, r as int),
                        forall|r: usize, g: usize, b: usize, res: usize| call_requires(color_at, (r, g, b, res)),
                        forall|b2: int, g2: int, r2: int|
                            #![trigger values@[cell_index(resi, b2, g2, r2)]]
                            in_lattice(resi, b2, g2, r2) && scan_before(b2, g2, r2, b as int, g as int, r as int) ==> call_ensures(
                                color_at,
                                (r2 as usize, g2 as usize, b2 as usize, res),
                                values@[cell_index(resi, b2, g2, r2)],
                            ),
                    decreases res - r,
                {
                    let c = color_at(r, g, b, res);
                    let ghost before = values@;
                    values.push(c);
                    proof {
                        assert forall|b2: int, g2: int, r2: int|
                            in_lattice(resi, b2, g2, r2) && scan_before(b2, g2, r2, b as int, g as int, r as int + 1)
                            implies call_ensures(
                                color_at,
                                (r2 as usize, g2 as usize, b2 as usize, res),
                                #[trigger] values@[cell_index(resi, b2, g2, r2)],
                            ) by {
                            if scan_before(b2, g2, r2, b as int, g as int, r as int) {
                                lemma_cell_index_follows_scan(resi, b2, g2, r2, b as int, g as int, r as int);
                                assert(values@[cell_index(resi, b2, g2, r2)] == before[cell_index(resi, b2, g2, r2)]);
                            } else {
                                assert(b2 == b && g2 == g && r2 == r);
                            }
                        }
                    }
                    r = r + 1;
                }
                proof {
                    lemma_cell_index_next_row(resi, b as int, g as int);
                }
                g = g + 1;
            }
            proof {
                lemma_cell_index_next_slice(resi, b as int);
            }
            b = b + 1;
        }
        proof {
            lemma_cell_index_slice_start(resi, resi);
        }
        LookupTable { name, values, resolution, palette, kernel }
    }

    /// The palette colour nearest to `color`: `key_of(color, entry)` orders
    /// the entries by their distance to `color`, and the entry chosen is the
    /// one `nearest_index` picks from those keys and `limit` (entry 0 is
    /// skipped); where none is below `limit`, the colour is `fallback`.
    fn discretize_color<K: Fn(&T, &T) -> u32>(
        palette: &HashMap<u32, T>,
        color: &T,
        key_of: &K,
        limit: u32,
        fallback: T,
    ) -> (c: T)
        requires
            has_ids(palette@),
            forall|x: T, y: T| call_requires(*key_of, (&x, &y)),
        ensures
            is_palette_color(palette@, fallback, c),
            key_deterministic(*key_of) ==> c == nearest_color(
                palette@,
                key_function(*key_of),
                limit,
                fallback,
                *color,
            ),
    {
        let ghost det = key_deterministic(*key_of);
        let ghost kf = key_function(*key_of);
        let ghost all_keys = palette_keys(palette@, kf, limit, *color);
        let n = palette.len();
        if n == 0 {
            proof {
                if det {
                    assert(!exists|k2: int| is_nearest(all_keys, limit, k2));
                }
            }
            return fallback;
        }
        let mut keys: Vec<u32> = Vec::new();
        keys.push(limit);
        let mut i: usize = 1;
        while i < n
            invariant
                n == palette@.len(),
                1 <= i <= n,
                keys.len() == i,
                keys@[0] == limit,
                has_ids(palette@),
                det == key_deterministic(*key_of),
                kf == key_function(*key_of),
                forall|x: T, y: T| call_requires(*key_of, (&x, &y)),
                det ==> forall|j: int| 1 <= j < i ==> #[trigger] keys@[j] == kf(*color, palette@[j as u32]),
            decreases n - i,
        {
            let id = i as u32;
            proof {
                assert(palette@.contains_key(i as u32));
            }
            let entry = palette.get(&id).unwrap();
            let key = key_of(color, entry);
            proof {
                if det {
                    assert(call_ensures(*key_of, (color, &palette@[id]), key));
                    assert(call_ensures(*key_of, (color, &palette@[id]), kf(*color, palette@[id])));
                }
            }
            keys.push(key);
            i = i + 1;
        }
        proof {
            if det {
                assert(keys@ =~= all_keys);
            }
        }
        match nearest_index(&keys, limit) {
            Some(k) => {
                let id = k as u32;
                proof {
                    assert(palette@.contains_key(k as u32));
                    if det {
                        assert(is_nearest(all_keys, limit, k as int));
                        let k2 = choose|k2: int| is_nearest(all_keys, limit, k2);
                        lemma_nearest_unique(all_keys, limit, k as int, k2);
                    }
                }
                *palette.get(&id).unwrap()
            },
            None => {
                proof {
                    if det {
                        if exists|k2: int| is_nearest(all_keys, limit, k2) {
                            let k2 = choose|k2: int| is_nearest(all_keys, limit, k2);
                            assert(keys@[k2] < limit);
                        }
                    }
                }
                fallback
            },
        }
    }

    /// Quantizes the table with error diffusion.
    ///
    /// The cells are visited in scan order (blue, green, red). Each cell is
    /// replaced by the palette colour nearest to it (see `discretize_color`),
    /// the error `error(color, nearest)` is taken, and then, for each kernel
    /// entry in order whose target (see `kernel_target`) lies in the lattice,
    /// the target receives `diffuse(target, error, weight)`; entries whose
    /// target lies outside the lattice are skipped.
    ///
    /// With a kernel whose entries all point forward, as the kernel of `new`
    /// does, every cell of the result is a palette colour other than entry 0,
    /// or the fallback colour.
    pub fn discretize<K, E, D>(self, key_of: K, limit: u32, fallback: T, error: E, diffuse: D) -> (lut: Self) where
        K: Fn(&T, &T) -> u32,
        E: Fn(&T, &T) -> T,
        D: Fn(&T, &T, u32) -> T,

        requires
            self.wf(),
            self@.resolution > 0 ==> has_ids(self@.palette),
            forall|x: T, y: T| call_requires(key_of, (&x, &y)),
            forall|x: T, y: T| call_requires(error, (&x, &y)),
            forall|x: T, y: T, w: u32| call_requires(diffuse, (&x, &y, w)),
        ensures
            lut.wf(),
            lut@.name == self@.name,
            lut@.resolution == self@.resolution,
            lut@.palette == self@.palette,
            lut@.kernel == self@.kernel,
            all_forward(self@.kernel) ==> forall|i: int|
                0 <= i < lut@.values.len() ==> is_palette_color(
                    self@.palette,
                    fallback,
                    #[trigger] lut@.values[i],
                ),
            key_deterministic(key_of) && error_deterministic(error) && diffuse_deterministic(diffuse)
                ==> lut@.values == quantize_prefix(
                diffusion_model(self@, key_of, limit, fallback, error, diffuse),
                self@.values,
                self@.values.len(),
            ),
    {
        let LookupTable { name, mut values, resolution, palette, kernel } = self;
        let res = resolution;
        let ghost resi = res as int;
        let total: usize = values.len();
        let ghost n = total as nat;
        let ghost fwd = all_forward(kernel@);
        let ghost init = values@;
        let ghost det = key_deterministic(key_of) && error_deterministic(error) && diffuse_deterministic(
            diffuse,
        );
        let ghost m = DiffusionModel {
            res: resi,
            palette: palette@,
            kernel: kernel@,
            limit: limit,
            fallback: fallback,
            key: key_function(key_of),
            error: error_function(error),
            diffuse: diffuse_function(diffuse),
        };
        proof {
            lemma_cell_index_slice_start(resi, 0);
        }
        let mut b: usize = 0;
        while b < res
            invariant
                b <= res,
                resi == res,
                values@.len() == n,
                n == cube(resi),
                n <= usize::MAX,
                fwd == all_forward(kernel@),
                det == (key_deterministic(key_of) && error_deterministic(error) && diffuse_deterministic(diffuse)),
                m.res == resi && m.palette == palette@ && m.kernel == kernel@ && m.limit == limit && m.fallback == fallback,
                resi > 0 ==> has_ids(palette@),
                m.key == key_function(key_of) && m.error == error_function(error) && m.diffuse == diffuse_function(diffuse),
                det ==> values@ == quantize_prefix(m, init, cell_index(resi, b as int, 0, 0) as nat),
                forall|x: T, y: T| call_requires(key_of, (&x, &y)),
                forall|x: T, y: T| call_requires(error, (&x, &y)),
                forall|x: T, y: T, w: u32| call_requires(diffuse, (&x, &y, w)),
                fwd ==> forall|i: int|
                    0 <= i < cell_index(resi, b as int, 0, 0) ==> is_palette_color(
                        palette@,
                        fallback,
                        #[trigger] values@[i],
                    ),
            decreases res - b,
        {
            let mut g: usize = 0;
            while g < res
                invariant
                    b < res,
                    g <= res,
                    resi == res,
                    values@.len() == n,
                    n == cube(resi),
                    n <= usize::MAX,
                    fwd == all_forward(kernel@),
                    det == (key_deterministic(key_of) && error_deterministic(error) && diffuse_deterministic(diffuse)),
                    m.res == resi && m.palette == palette@ && m.kernel == kernel@ && m.limit == limit && m.fallback == fallback,
                    resi > 0 ==> has_ids(palette@),
                    m.key == key_function(key_of) && m.error == error_function(error) && m.diffuse == diffuse_function(diffuse),
                    det ==> values@ == quantize_prefix(m, init, cell_index(resi, b as int, g as int, 0) as nat),
                    forall|x: T, y: T| call_requires(key_of, (&x, &y)),
                    forall|x: T, y: T| call_requires(error, (&x, &y)),
                    forall|x: T, y: T, w: u32| call_requires(diffuse, (&x, &y, w)),
                    fwd ==> forall|i: int|
                        0 <= i < cell_index(resi, b as int, g as int, 0) ==> is_palette_color(
                            palette@,
                            fallback,
                            #[trigger] values@[i],
                        ),
                decreases res - g,
            {
                let mut r: usize = 0;
                while r < res
                    invariant
                        b < res,
                        g < res,
                        r <= res,
                        resi == res,
                        values@.len() == n,
                        n == cube(resi),
                        n <= usize::MAX,
                        fwd == all_forward(kernel@),
                        det == (key_deterministic(key_of) && error_deterministic(error) && diffuse_deterministic(diffuse)),
                        m.res == resi && m.palette == palette@ && m.kernel == kernel@ && m.limit == limit && m.fallback == fallback,
                        resi > 0 ==> has_ids(palette@),
                        m.key == key_function(key_of) && m.error == error_function(error) && m.diffuse == diffuse_function(diffuse),
                        det ==> values@ == quantize_prefix(m, init, cell_index(resi, b as int, g as int, r as int) as nat),
                        forall|x: T, y: T| call_requires(key_of, (&x, &y)),
                        forall|x: T, y: T| call_requires(error, (&x, &y)),
                        forall|x: T, y: T, w: u32| call_requires(diffuse, (&x, &y, w)),
                        fwd ==> forall|i: int|
                            0 <= i < cell_index(resi, b as int, g as int, r as int) ==> is_palette_color(
                                palette@,
                                fallback,
                                #[trigger] values@[i],
                            ),
                    decreases res - r,
                {
                    let i = flat_index(res, b, g, r);
                    let ghost before = values@;
                    let color = values[i];
                    let closest = Self::discretize_color(&palette, &color, &key_of, limit, fallback);
                    let difference = error(&color, &closest);
                    proof {
                        if det {
                            assert(call_ensures(error, (&color, &closest), difference));
                            assert(call_ensures(error, (&color, &closest), (m.error)(color, closest)));
                        }
                    }
                    values.set(i, closest);
                    let ghost after_set = values@;
                    let klen = kernel.len();
                    let mut j: usize = 0;
                    while j < klen
                        invariant
                            b < res,
                            g < res,
                            r < res,
                            resi == res,
                            i == cell_index(resi, b as int, g as int, r as int),
                            klen == kernel@.len(),
                            j <= klen,
                            values@.len() == n,
                            n == cube(resi),
                            n <= usize::MAX,
                            fwd == all_forward(kernel@),
                            det == (key_deterministic(key_of) && error_deterministic(error) && diffuse_deterministic(diffuse)),
                            m.res == resi && m.kernel == kernel@,
                            m.diffuse == diffuse_function(diffuse),
                            forall|x: T, y: T, w: u32| call_requires(diffuse, (&x, &y, w)),
                            fwd ==> forall|k: int|
                                0 <= k <= i ==> is_palette_color(
                                    palette@,
                                    fallback,
                                    #[trigger] values@[k],
                                ),
                            det ==> spread_error(m, values@, b as int, g as int, r as int, difference, j as int)
                                == spread_error(m, after_set, b as int, g as int, r as int, difference, 0),
                        decreases klen - j,
                    {
                        let e = kernel[j];
                        match kernel_target(&e, res, r, g, b) {
                            Some((x, y, z)) => {
                                let t = flat_index(res, z, y, x);
                                proof {
                                    if fwd {
                                        assert(is_forward(kernel@[j as int]));
                                        lemma_cell_index_follows_scan(resi, b as int, g as int, r as int, z as int, y as int, x as int);
                                    }
                                }
                                let ghost prev = values@;
                                let v = diffuse(&values[t], &difference, e.scale);
                                values.set(t, v);
                                proof {
                                    if det {
                                        assert(call_ensures(diffuse, (&prev[t as int], &difference, e.scale), v));
                                        assert(call_ensures(diffuse, (&prev[t as int], &difference, e.scale), (m.diffuse)(prev[t as int], difference, e.scale)));
                                        assert(spread_error(m, prev, b as int, g as int, r as int, difference, j as int)
                                            == spread_error(m, values@, b as int, g as int, r as int, difference, j + 1));
                                    }
                                }
                            },
                            None => {
                                proof {
                                    if det {
                                        assert(spread_error(m, values@, b as int, g as int, r as int, difference, j as int)
                                            == spread_error(m, values@, b as int, g as int, r as int, difference, j + 1));
                                    }
                                }
                            },
                        }
                        j = j + 1;
                    }
                    proof {
                        if det {
                            crate::lattice::lemma_cell_index_digits(resi, b as int, g as int, r as int);
                            assert(before[i as int] == color);
                            assert(values@ == crate::diffusion::quantize_cell(m, before, i as int));
                            assert(quantize_prefix(m, init, (i + 1) as nat) == crate::diffusion::quantize_cell(m, quantize_prefix(m, init, i as nat), i as int));
                        }
                    }
                    r = r + 1;
                }
                proof {
                    lemma_cell_index_next_row(resi, b as int, g as int);
                }
                g = g + 1;
            }
            proof {
                lemma_cell_index_next_slice(resi, b as int);
            }
            b = b + 1;
        }
        proof {
            lemma_cell_index_slice_start(resi, resi);
        }
        LookupTable { name, values, resolution, palette, kernel }
    }

    /// The cells in the layout [blue][green][red].
    pub fn to_nested(&self) -> (nested: Vec<Vec<Vec<T>>>)
        requires
            self.wf(),
        ensures
            nests(nested@, self@.values, self@.resolution as int),
    {
        let res = self.resolution;
        let ghost resi = res as int;
        let total: usize = self.values.len();
        let mut nested: Vec<Vec<Vec<T>>> = Vec::new();
        let mut b: usize = 0;
        while b < res
            invariant
                b <= res,
                resi == res,
                self.wf(),
                self@.resolution == res,
                total == self@.values.len(),
                nested@.len() == b,
                forall|b2: int| 0 <= b2 < b ==> (#[trigger] nested@[b2])@.len() == res,
                forall|b2: int, g2: int| 0 <= b2 < b && 0 <= g2 < res ==> (#[trigger] nested@[b2]@[g2])@.len() == res,
                forall|b2: int, g2: int, r2: int|
                    #![trigger nested@[b2]@[g2]@[r2]]
                    in_lattice(resi, b2, g2, r2) && b2 < b ==> nested@[b2]@[g2]@[r2] == self@.values[cell_index(resi, b2, g2, r2)],
            decreases res - b,
        {
            let mut slice: Vec<Vec<T>> = Vec::new();
            let mut g: usize = 0;
            while g < res
                invariant
                    b < res,
                    g <= res,
                    resi == res,
                    self.wf(),
                    self@.resolution == res,
                    total == self@.values.len(),
                    slice@.len() == g,
                    forall|g2: int| 0 <= g2 < g ==> (#[trigger] slice@[g2])@.len() == res,
                    forall|g2: int, r2: int|
                        #![trigger slice@[g2]@[r2]]
                        0 <= g2 < g && 0 <= r2 < res ==> slice@[g2]@[r2] == self@.values[cell_index(resi, b as int, g2, r2)],
                decreases res - g,
            {
                let mut row: Vec<T> = Vec::new();
                let mut r: usize = 0;
                while r < res
                    invariant
                        b < res,
                        g < res,
                        r <= res,
                        resi == res,
                        self.wf(),
                        self@.resolution == res,
                        total == self@.values.len(),
                        row@.len() == r,
                        forall|r2: int| 0 <= r2 < r ==> #[trigger] row@[r2] == self@.values[cell_index(resi, b as int, g as int, r2)],
                    decreases res - r,
                {
                    let i = flat_index(res, b, g, r);
                    row.push(self.values[i]);
                    r = r + 1;
                }
                slice.push(row);
                g = g + 1;
            }
            nested.push(slice);
            b = b + 1;
        }
        nested
    }

    /// A table whose cells are read from the layout [blue][green][red].
    ///
    /// `None` where the lattice does not fit in memory or the layout lacks an
    /// entry for some cell; entries beyond the lattice are not read.
    pub fn from_nested(
        name: String,
        resolution: usize,
        nested: &Vec<Vec<Vec<T>>>,
        palette: HashMap<u32, T>,
        kernel: Vec<KernelEntry>,
    ) -> (lut: Option<Self>)
        ensures
            lut is Some <==> cube(resolution as int) <= usize::MAX && covers(nested@, resolution as int),
            lut matches Some(t) ==> {
                &&& t.wf()
                &&& t@ == LookupTableModel {
                    name: name@,
                    resolution: resolution as nat,
                    values: flatten(nested@, resolution as int),
                    palette: palette@,
                    kernel: kernel@,
                }
            },
    {
        let res = resolution;
        let ghost resi = res as int;
        let square = match res.checked_mul(res) {
            Some(s) => s,
            None => {
                assert(cube(resi) > usize::MAX) by (nonlinear_arith)
                    requires
                        resi * resi > usize::MAX,
                        resi >= 0,
                ;
                return None;
            },
        };
        let n = match square.checked_mul(res) {
            Some(c) => c,
            None => return None,
        };
        if !covers_lattice(nested, res) {
            return None;
        }
        let mut values: Vec<T> = Vec::new();
        proof {
            lemma_cell_index_slice_start(resi, 0);
        }
        let mut b: usize = 0;
        while b < res
            invariant
                b <= res,
                resi == res,
                n == cube(resi),
                covers(nested@, resi),
                values@.len() == cell_index(resi, b as int, 0, 0),
                forall|k: int| 0 <= k < values@.len() ==> #[trigger] values@[k] == flatten(nested@, resi)[k],
            decreases res - b,
        {
            let mut g: usize = 0;
            while g < res
                invariant
                    b < res,
                    g <= res,
                    resi == res,
                    n == cube(resi),
                    covers(nested@, resi),
                    values@.len() == cell_index(resi, b as int, g as int, 0),
                    forall|k: int| 0 <= k < values@.len() ==> #[trigger] values@[k] == flatten(nested@, resi)[k],
                decreases res - g,
            {
                let mut r: usize = 0;
                while r < res
                    invariant
                        b < res,
                        g < res,
                        r <= res,
                        resi == res,
                        n == cube(resi),
                        covers(nested@, resi),
                        values@.len() == cell_index(resi, b as int, g as int, r as int),
                        forall|k: int| 0 <= k < values@.len() ==> #[trigger] values@[k] == flatten(nested@, resi)[k],
                    decreases res - r,
                {
                    proof {
                        crate::lattice::lemma_cell_index_digits(resi, b as int, g as int, r as int);
                        lemma_cell_index_bounds(resi, b as int, g as int, r as int);
                        assert(nested@[b as int]@.len() >= res);
                        assert(nested@[b as int]@[g as int]@.len() >= res);
                    }
                    let v = nested[b][g][r];
                    values.push(v);
                    r = r + 1;
                }
                proof {
                    lemma_cell_index_next_row(resi, b as int, g as int);
                }
                g = g + 1;
            }
            proof {
                lemma_cell_index_next_slice(resi, b as int);
            }
            b = b + 1;
        }
        proof {
            lemma_cell_index_slice_start(resi, resi);
            assert(values@ =~= flatten(nested@, resi));
        }
        Some(LookupTable { name, values, resolution, palette, kernel })
    }

    /// The name of the table.
    pub fn name(&self) -> (s: &String)
        ensures
            s@ == self@.name,
    {
        &self.name
    }

    /// The number of steps along each channel.
    pub fn resolution(&self) -> (res: usize)
        ensures
            res == self@.resolution,
    {
        self.resolution
    }

    /// The cells, blue-major.
    pub fn values(&self) -> (v: &Vec<T>)
        ensures
            v@ == self@.values,
    {
        &self.values
    }

    /// The palette, by colour id.
    pub fn palette(&self) -> (p: &HashMap<u32, T>)
        ensures
            p@ == self@.palette,
    {
        &self.palette
    }

    /// The diffusion kernel.
    pub fn kernel(&self) -> (k: &Vec<KernelEntry>)
        ensures
            k@ == self@.kernel,
    {
        &self.kernel
    }

    /// The colour of the cell that a colour falls into, given the colour's
    /// steps along red, green and blue (each channel scaled by the resolution
    /// and rounded). Steps past the last one are taken as the last one.
    pub fn lookup(&self, red: usize, green: usize, blue: usize) -> (c: T)
        requires
            self.wf(),
            self@.resolution > 0,
        ensures
            c == self@.values[cell_index(
                self@.resolution as int,
                clamp_step(blue as int, self@.resolution as int),
                clamp_step(green as int, self@.resolution as int),
                clamp_step(red as int, self@.resolution as int),
            )],
            c == self@.values[cell_index(
                self@.resolution as int,
                if blue < self@.resolution { blue as int } else { self@.resolution - 1 },
                if green < self@.resolution { green as int } else { self@.resolution - 1 },
                if red < self@.resolution { red as int } else { self@.resolution - 1 },
            )],
    {
        let n = self.values.len();
        let top = self.resolution - 1;
        let mut b = blue;
        if b > top {
            b = top;
        }
        let mut g = green;
        if g > top {
            g = top;
        }
        let mut r = red;
        if r > top {
            r = top;
        }
        let i = flat_index(self.resolution, b, g, r);
        self.values[i]
    }
}

} // verus!
