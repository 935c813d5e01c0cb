//! The diffusion kernel: where the quantization error of a cell goes.

use vstd::prelude::*;
use crate::lattice::in_lattice;

verus! {

/// One weight of the diffusion kernel: the relative position of the cell
/// that receives part of the error, counted in lattice steps along red (x),
/// green (y) and blue (z), and the number of parts of the error it receives.
#[derive(Clone, Copy, Debug, PartialEq, Eq)]
pub struct KernelEntry {
    /// Number of steps to the target cell along red.
    pub x_offset: i32,
    /// Number of steps to the target cell along green.
    pub y_offset: i32,
    /// Number of steps to the target cell along blue.
    pub z_offset: i32,
    /// Parts of the error that the target cell receives.
    pub scale: u32,
}

impl KernelEntry {
    pub fn new(x: i32, y: i32, z: i32, scale: u32) -> (e: KernelEntry)
        ensures
            e == mae_entry(x, y, z, scale),
    {
        KernelEntry { x_offset: x, y_offset: y, z_offset: z, scale: scale }
    }
}

/// Into how many parts the error of a cell is divided before it is diffused.
pub const ERROR_PARTS: u32 = 108;

pub open spec fn mae_entry(x: i32, y: i32, z: i32, scale: u32) -> KernelEntry {
    KernelEntry { x_offset: x, y_offset: y, z_offset: z, scale: scale }
}

/// Number of weights of the minimized-average-error kernel.
pub open spec fn mae_len() -> int {
    34
}

/// The minimized-average-error weights, extended to three dimensions:
/// the two-dimensional pattern on the current blue slice, a wider one on
/// the next slice and a narrower one on the slice after it.
pub open spec fn mae_table(i: int) -> KernelEntry {
    if i == 0 {
        mae_entry(1, 0, 0, 7)
    } else if i == 1 {
        mae_entry(2, 0, 0, 5)
    } else if i == 2 {
        mae_entry(-2i32, 1, 0, 3)
    } else if i == 3 {
        mae_entry(-1i32, 1, 0, 5)
    } else if i == 4 {
        mae_entry(0, 1, 0, 7)
    } else if i == 5 {
        mae_entry(1, 1, 0, 5)
    } else if i == 6 {
        mae_entry(2, 1, 0, 3)
    } else if i == 7 {
        mae_entry(-2i32, 2, 0, 1)
    } else if i == 8 {
        mae_entry(-1i32, 2, 0, 3)
    } else if i == 9 {
        mae_entry(0, 2, 0, 5)
    } else if i == 10 {
        mae_entry(1, 2, 0, 3)
    } else if i == 11 {
        mae_entry(2, 2, 0, 1)
    } else if i == 12 {
        mae_entry(-2i32, 0, 1, 3)
    } else if i == 13 {
        mae_entry(-1i32, 0, 1, 5)
    } else if i == 14 {
        mae_entry(0, 0, 1, 7)
    } else if i == 15 {
        mae_entry(1, 0, 1, 5)
    } else if i == 16 {
        mae_entry(2, 0, 1, 3)
    } else if i == 17 {
        mae_entry(-2i32, 1, 1, 1)
    } else if i == 18 {
        mae_entry(-1i32, 1, 1, 3)
    } else if i == 19 {
        mae_entry(0, 1, 1, 5)
    } else if i == 20 {
        mae_entry(1, 1, 1, 3)
    } else if i == 21 {
        mae_entry(2, 1, 1, 1)
    } else if i == 22 {
        mae_entry(-1i32, 2, 1, 1)
    } else if i == 23 {
        mae_entry(0, 2, 1, 3)
    } else if i == 24 {
        mae_entry(1, 2, 1, 1)
    } else if i == 25 {
        mae_entry(-2i32, 0, 2, 1)
    } else if i == 26 {
        mae_entry(-1i32, 0, 2, 3)
    } else if i == 27 {
        mae_entry(0, 0, 2, 5)
    } else if i == 28 {
        mae_entry(1, 0, 2, 3)
    } else if i == 29 {
        mae_entry(2, 0, 2, 1)
    } else if i == 30 {
        mae_entry(-1i32, 1, 2, 1)
    } else if i == 31 {
        mae_entry(0, 1, 2, 3)
    } else if i == 32 {
        mae_entry(1, 1, 2, 1)
    } else if i == 33 {
        mae_entry(0, 2, 2, 1)
    } else {
        mae_entry(0, 0, 0, 0)
    }
}

/// The minimized-average-error kernel, in the order in which it is applied.
pub open spec fn mae_kernel() -> Seq<KernelEntry> {
    Seq::new(mae_len() as nat, |i: int| mae_table(i))
}

/// Sum of the weights of the first `n` entries of a kernel.
pub open spec fn weight_sum(k: Seq<KernelEntry>, n: int) -> int
    decreases n,
{
    if n <= 0 {
        0
    } else {
        weight_sum(k, n - 1) + k[n - 1].scale
    }
}

/// Sum of all weights of a kernel.
pub open spec fn total_weight(k: Seq<KernelEntry>) -> int {
    weight_sum(k, k.len() as int)
}

/// An entry points forward: its target is visited after the cell itself by
/// the blue, green, red scan.
pub open spec fn is_forward(e: KernelEntry) -> bool {
    ||| e.z_offset > 0
    ||| e.z_offset == 0 && e.y_offset > 0
    ||| e.z_offset == 0 && e.y_offset == 0 && e.x_offset > 0
}

/// Every entry of the kernel points forward.
pub open spec fn all_forward(k: Seq<KernelEntry>) -> bool {
    forall|i: int| 0 <= i < k.len() ==> is_forward(#[trigger] k[i])
}

fn mae_entry_at(i: usize) -> (e: KernelEntry)
    requires
        i < 34,
    ensures
        e == mae_table(i as int),
{
    if i == 0 {
        KernelEntry::new(1, 0, 0, 7)
    } else if i == 1 {
        KernelEntry::new(2, 0, 0, 5)
    } else if i == 2 {
        KernelEntry::new(-2, 1, 0, 3)
    } else if i == 3 {
        KernelEntry::new(-1, 1, 0, 5)
    } else if i == 4 {
        KernelEntry::new(0, 1, 0, 7)
    } else if i == 5 {
        KernelEntry::new(1, 1, 0, 5)
    } else if i == 6 {
        KernelEntry::new(2, 1, 0, 3)
    } else if i == 7 {
        KernelEntry::new(-2, 2, 0, 1)
    } else if i == 8 {
        KernelEntry::new(-1, 2, 0, 3)
    } else if i == 9 {
        KernelEntry::new(0, 2, 0, 5)
    } else if i == 10 {
        KernelEntry::new(1, 2, 0, 3)
    } else if i == 11 {
        KernelEntry::new(2, 2, 0, 1)
    } else if i == 12 {
        KernelEntry::new(-2, 0, 1, 3)
    } else if i == 13 {
        KernelEntry::new(-1, 0, 1, 5)
    } else if i == 14 {
        KernelEntry::new(0, 0, 1, 7)
    } else if i == 15 {
        KernelEntry::new(1, 0, 1, 5)
    } else if i == 16 {
        KernelEntry::new(2, 0, 1, 3)
    } else if i == 17 {
        KernelEntry::new(-2, 1, 1, 1)
    } else if i == 18 {
        KernelEntry::new(-1, 1, 1, 3)
    } else if i == 19 {
        KernelEntry::new(0, 1, 1, 5)
    } else if i == 20 {
        KernelEntry::new(1, 1, 1, 3)
    } else if i == 21 {
        KernelEntry::new(2, 1, 1, 1)
    } else if i == 22 {
        KernelEntry::new(-1, 2, 1, 1)
    } else if i == 23 {
        KernelEntry::new(0, 2, 1, 3)
    } else if i == 24 {
        KernelEntry::new(1, 2, 1, 1)
    } else if i == 25 {
        KernelEntry::new(-2, 0, 2, 1)
    } else if i == 26 {
        KernelEntry::new(-1, 0, 2, 3)
    } else if i == 27 {
        KernelEntry::new(0, 0, 2, 5)
    } else if i == 28 {
        KernelEntry::new(1, 0, 2, 3)
    } else if i == 29 {
        KernelEntry::new(2, 0, 2, 1)
    } else if i == 30 {
        KernelEntry::new(-1, 1, 2, 1)
    } else if i == 31 {
        KernelEntry::new(0, 1, 2, 3)
    } else if i == 32 {
        KernelEntry::new(1, 1, 2, 1)
    } else if i == 33 {
        KernelEntry::new(0, 2, 2, 1)
    } else {
        KernelEntry::new(0, 0, 0, 0)
    }
}

/// Builds the minimized-average-error kernel.
pub fn minimized_average_error_kernel() -> (k: Vec<KernelEntry>)
    ensures
        k@ == mae_kernel(),
{
    let mut k: Vec<KernelEntry> = Vec::new();
    let mut i: usize = 0;
    while i < 34
        invariant
            i <= 34,
            k@ =~= Seq::new(i as nat, |j: int| mae_table(j)),
        decreases 34 - i,
    {
        let e = mae_entry_at(i);
        k.push(e);
        i = i + 1;
    }
    k
}

/// The kernel divides the error of a cell into exactly `ERROR_PARTS` parts:
/// its weights add up to the divisor that scales the error.
pub proof fn lemma_mae_kernel_splits_error()
    ensures
        total_weight(mae_kernel()) == ERROR_PARTS,
{
    reveal_with_fuel(weight_sum, 36);
}

/// Every weight of the kernel goes to a cell that the scan has not reached
/// yet, so a cell is never changed after it has been quantized.
pub proof fn lemma_mae_kernel_is_forward()
    ensures
        all_forward(mae_kernel()),
{
    assert forall|i: int| 0 <= i < mae_kernel().len() implies is_forward(
        #[trigger] mae_kernel()[i],
    ) by {
        assert(mae_kernel()[i] == mae_table(i));
    }
}

/// No two entries of the kernel have the same offsets.
pub open spec fn offsets_distinct(k: Seq<KernelEntry>) -> bool {
    forall|i: int, j: int|
        #![trigger k[i], k[j]]
        0 <= i < k.len() && 0 <= j < k.len() && i != j ==> {
            ||| k[i].x_offset != k[j].x_offset
            ||| k[i].y_offset != k[j].y_offset
            ||| k[i].z_offset != k[j].z_offset
        }
}

/// The number of steps from a cell to the target of an entry, counted along
/// each channel separately.
pub open spec fn step_distance(e: KernelEntry) -> int {
    abs_int(e.x_offset as int) + abs_int(e.y_offset as int) + abs_int(e.z_offset as int)
}

pub open spec fn abs_int(v: int) -> int {
    if v < 0 {
        -v
    } else {
        v
    }
}

/// The shape of the minimized-average-error kernel: every entry reaches at
/// most two steps along each channel and at most four steps in all, never
/// back along green or blue, and its weight falls by two with each step:
/// `9 - 2 * distance` parts (7 parts for a neighbour, 1 part four steps away).
/// The weights therefore depend only on the distance, and are the same for
/// an offset and its mirror image along red.
pub proof fn lemma_mae_kernel_weights_by_distance()
    ensures
        mae_kernel().len() == 34,
        forall|i: int|
            0 <= i < mae_kernel().len() ==> {
                let e = #[trigger] mae_kernel()[i];
                &&& -2 <= e.x_offset <= 2
                &&& 0 <= e.y_offset <= 2
                &&& 0 <= e.z_offset <= 2
                &&& 1 <= step_distance(e) <= 4
                &&& e.scale == 9 - 2 * step_distance(e)
            },
{
    assert forall|i: int| 0 <= i < mae_kernel().len() implies {
        let e = #[trigger] mae_kernel()[i];
        &&& -2 <= e.x_offset <= 2
        &&& 0 <= e.y_offset <= 2
        &&& 0 <= e.z_offset <= 2
        &&& 1 <= step_distance(e) <= 4
        &&& e.scale == 9 - 2 * step_distance(e)
    } by {
        assert(mae_kernel()[i] == mae_table(i));
    }
}

/// No two entries of the minimized-average-error kernel send error to the
/// same cell.
pub proof fn lemma_mae_kernel_offsets_distinct()
    ensures
        offsets_distinct(mae_kernel()),
{
    assert forall|i: int, j: int|
        0 <= i < mae_kernel().len() && 0 <= j < mae_kernel().len() && i != j implies {
            ||| (#[trigger] mae_kernel()[i]).x_offset != (#[trigger] mae_kernel()[j]).x_offset
            ||| mae_kernel()[i].y_offset != mae_kernel()[j].y_offset
            ||| mae_kernel()[i].z_offset != mae_kernel()[j].z_offset
        } by {
        assert(mae_kernel()[i] == mae_table(i));
        assert(mae_kernel()[j] == mae_table(j));
    }
}

/// The cell that an entry sends error to from cell (blue, green, red),
/// as (blue, green, red).
pub open spec fn target_of(e: KernelEntry, b: int, g: int, r: int) -> (int, int, int) {
    (b + e.z_offset, g + e.y_offset, r + e.x_offset)
}

/// Whether the target of an entry lies inside the lattice.
pub open spec fn reaches(e: KernelEntry, res: int, b: int, g: int, r: int) -> bool {
    let t = target_of(e, b, g, r);
    in_lattice(res, t.0, t.1, t.2)
}

/// The target of an entry as returned by `kernel_target`: its red, green
/// and blue steps.
pub open spec fn target_steps(e: KernelEntry, b: int, g: int, r: int) -> (usize, usize, usize) {
    let t = target_of(e, b, g, r);
    (t.2 as usize, t.1 as usize, t.0 as usize)
}

/// The cell that entry `e` sends error to from cell (blue, green, red), as
/// (red, green, blue) steps, or `None` where that cell lies outside the
/// lattice: such an entry is skipped, and the entries after it still apply.
pub fn kernel_target(e: &KernelEntry, resolution: usize, red: usize, green: usize, blue: usize) -> (t: Option<
    (usize, usize, usize),
>)
    ensures
        t is Some <==> reaches(*e, resolution as int, blue as int, green as int, red as int),
        t matches Some(t) ==> t == target_steps(*e, blue as int, green as int, red as int),
{
    let res = resolution as i128;
    let x = red as i128 + e.x_offset as i128;
    let y = green as i128 + e.y_offset as i128;
    let z = blue as i128 + e.z_offset as i128;
    if x < 0 || x > res - 1 {
        return None;
    }
    if y < 0 || y > res - 1 {
        return None;
    }
    if z < 0 || z > res - 1 {
        return None;
    }
    Some((x as usize, y as usize, z as usize))
}

} // verus!
