//! Converting an image with a lookup table.

use vstd::prelude::*;
use crate::lattice::cell_index;
use crate::lookup::{LookupTable, LookupTableModel, clamp_step};

verus! {

/// The colour of the table cell that colour steps (red, green, blue) fall into.
pub open spec fn table_color<T>(lut: LookupTableModel<T>, steps: (usize, usize, usize)) -> T {
    let res = lut.resolution as int;
    lut.values[cell_index(
        res,
        clamp_step(steps.2 as int, res),
        clamp_step(steps.1 as int, res),
        clamp_step(steps.0 as int, res),
    )]
}

/// The table colour at some steps is the cell whose steps are the given
/// ones where they lie inside the lattice, and the last step along each
/// channel where they lie past it.
pub proof fn lemma_table_color_clamps<T>(lut: LookupTableModel<T>, steps: (usize, usize, usize))
    requires
        lut.resolution > 0,
    ensures
        table_color(lut, steps) == lut.values[cell_index(
            lut.resolution as int,
            if steps.2 < lut.resolution { steps.2 as int } else { lut.resolution - 1 },
            if steps.1 < lut.resolution { steps.1 as int } else { lut.resolution - 1 },
            if steps.0 < lut.resolution { steps.0 as int } else { lut.resolution - 1 },
        )],
{
}

/// `out` has the same rows, of the same lengths, as `image`.
pub open spec fn same_shape<T>(out: Seq<Vec<T>>, image: Seq<Vec<T>>) -> bool {
    &&& out.len() == image.len()
    &&& forall|x: int| 0 <= x < image.len() ==> (#[trigger] out[x])@.len() == image[x]@.len()
}

/// No row of the image holds a pixel.
pub open spec fn no_pixels<P>(image: Seq<Vec<P>>) -> bool {
    forall|x: int| 0 <= x < image.len() ==> (#[trigger] image[x])@.len() == 0
}

/// `steps_of` gives one set of steps for each pixel and position.
pub open spec fn steps_deterministic<P, S: Fn(usize, usize, &P) -> (usize, usize, usize)>(steps_of: S) -> bool {
    forall|x: usize, y: usize, p: P, s1: (usize, usize, usize), s2: (usize, usize, usize)|
        #![trigger call_ensures(steps_of, (x, y, &p), s1), call_ensures(steps_of, (x, y, &p), s2)]
        call_ensures(steps_of, (x, y, &p), s1) && call_ensures(steps_of, (x, y, &p), s2) ==> s1 == s2
}

/// `finish` gives one pixel for each pixel and table colour.
pub open spec fn finish_deterministic<P, T, F: Fn(&P, T) -> P>(finish: F) -> bool {
    forall|p: P, c: T, o1: P, o2: P|
        #![trigger call_ensures(finish, (&p, c), o1), call_ensures(finish, (&p, c), o2)]
        call_ensures(finish, (&p, c), o1) && call_ensures(finish, (&p, c), o2) ==> o1 == o2
}

/// The steps that `steps_of` gives for a pixel at a position.
pub open spec fn steps_function<P, S: Fn(usize, usize, &P) -> (usize, usize, usize)>(steps_of: S) -> spec_fn(usize, usize, P) -> (usize, usize, usize) {
    |x: usize, y: usize, p: P| choose|s: (usize, usize, usize)| call_ensures(steps_of, (x, y, &p), s)
}

/// The pixel that `finish` gives for a pixel and a table colour.
pub open spec fn finish_function<P, T, F: Fn(&P, T) -> P>(finish: F) -> spec_fn(P, T) -> P {
    |p: P, c: T| choose|o: P| call_ensures(finish, (&p, c), o)
}

/// Pixel `p` at (x, y) converted: `finish` applied to the pixel and to the
/// table cell at its steps, each step taken as it is inside the lattice and
/// as the last step past it.
pub open spec fn clamped_conversion<P, T, S, F>(
    steps_of: S,
    finish: F,
    lut: LookupTableModel<T>,
    x: usize,
    y: usize,
    p: P,
) -> P where S: Fn(usize, usize, &P) -> (usize, usize, usize), F: Fn(&P, T) -> P {
    let s = steps_function(steps_of)(x, y, p);
    let res = lut.resolution as int;
    finish_function(finish)(
        p,
        lut.values[cell_index(
            res,
            if s.2 < res { s.2 as int } else { res - 1 },
            if s.1 < res { s.1 as int } else { res - 1 },
            if s.0 < res { s.0 as int } else { res - 1 },
        )],
    )
}

/// Where the step and finishing rules give one result for each input, a
/// converted pixel is `finish` of the pixel and the cell at its steps,
/// steps past the last one taken as the last one.
pub proof fn lemma_conversion_is_clamped_lookup<P, T, S, F>(
    steps_of: S,
    finish: F,
    lut: LookupTableModel<T>,
    x: usize,
    y: usize,
    p: P,
    out: P,
) where S: Fn(usize, usize, &P) -> (usize, usize, usize), F: Fn(&P, T) -> P
    requires
        steps_deterministic(steps_of),
        finish_deterministic(finish),
        lut.resolution > 0,
        converted_from(steps_of, finish, lut, x, y, p, out),
    ensures
        out == clamped_conversion(steps_of, finish, lut, x, y, p),
{
    let s = choose|s: (usize, usize, usize)|
        call_ensures(steps_of, (x, y, &p), s) && call_ensures(finish, (&p, table_color(lut, s)), out);
    let s2 = steps_function(steps_of)(x, y, p);
    assert(call_ensures(steps_of, (x, y, &p), s2));
    assert(s == s2);
    lemma_table_color_clamps(lut, s);
    let o2 = finish_function(finish)(p, table_color(lut, s));
    assert(call_ensures(finish, (&p, table_color(lut, s)), o2));
}

/// Converting one pixel gives one result: two conversions of the same pixel
/// at the same position with the same table agree, where the step and
/// finishing rules give one result for each input.
pub proof fn lemma_conversion_repeats<P, T, S, F>(
    steps_of: S,
    finish: F,
    lut: LookupTableModel<T>,
    x: usize,
    y: usize,
    p: P,
    o1: P,
    o2: P,
) where S: Fn(usize, usize, &P) -> (usize, usize, usize), F: Fn(&P, T) -> P
    requires
        steps_deterministic(steps_of),
        finish_deterministic(finish),
        converted_from(steps_of, finish, lut, x, y, p, o1),
        converted_from(steps_of, finish, lut, x, y, p, o2),
    ensures
        o1 == o2,
{
    let s1 = choose|s: (usize, usize, usize)|
        call_ensures(steps_of, (x, y, &p), s) && call_ensures(finish, (&p, table_color(lut, s)), o1);
    let s2 = choose|s: (usize, usize, usize)|
        call_ensures(steps_of, (x, y, &p), s) && call_ensures(finish, (&p, table_color(lut, s)), o2);
    assert(s1 == s2);
}

/// An image to convert: its pixels row by row, the table that converts it,
/// and the converted pixels.
pub struct ConvImage<'a, P, T> {
    /// Name taken from the file name; the converted image is saved under it.
    name: String,
    image: Vec<Vec<P>>,
    lut: &'a LookupTable<T>,
    converted_image: Vec<Vec<P>>,
}

impl<'a, P, T> ConvImage<'a, P, T> {
    pub closed spec fn spec_name(&self) -> Seq<char> {
        self.name@
    }

    pub closed spec fn spec_image(&self) -> Seq<Vec<P>> {
        self.image@
    }

    pub closed spec fn spec_lut(&self) -> LookupTableModel<T> {
        self.lut@
    }

    pub closed spec fn spec_converted(&self) -> Seq<Vec<P>> {
        self.converted_image@
    }

    pub closed spec fn lut_wf(&self) -> bool {
        self.lut.wf()
    }
}

/// A copy of the shape of `image` with every pixel set to `blank`.
fn blank_like<T: Copy>(image: &Vec<Vec<T>>, blank: T) -> (out: Vec<Vec<T>>)
    ensures
        same_shape(out@, image@),
        forall|x: int, y: int|
            0 <= x < image@.len() && 0 <= y < image@[x]@.len() ==> #[trigger] out@[x]@[y] == blank,
{
    let mut out: Vec<Vec<T>> = Vec::new();
    let rows = image.len();
    let mut x: usize = 0;
    while x < rows
        invariant
            rows == image@.len(),
            x <= rows,
            out@.len() == x,
            forall|x2: int| 0 <= x2 < x ==> (#[trigger] out@[x2])@.len() == image@[x2]@.len(),
            forall|x2: int, y2: int|
                0 <= x2 < x && 0 <= y2 < image@[x2]@.len() ==> #[trigger] out@[x2]@[y2] == blank,
        decreases rows - x,
    {
        let cols = image[x].len();
        let mut row: Vec<T> = Vec::new();
        let mut y: usize = 0;
        while y < cols
            invariant
                x < rows,
                rows == image@.len(),
                cols == image@[x as int]@.len(),
                y <= cols,
                row@.len() == y,
                forall|y2: int| 0 <= y2 < y ==> #[trigger] row@[y2] == blank,
            decreases cols - y,
        {
            row.push(blank);
            y = y + 1;
        }
        out.push(row);
        x = x + 1;
    }
    out
}

/// `out` is a conversion of pixel `p` at (x, y): for some steps `s` that
/// `steps_of` gives for the pixel, `out` is what `finish` gives for the pixel
/// and the colour of the table cell at `s`.
pub open spec fn converted_from<P, T, S, F>(
    steps_of: S,
    finish: F,
    lut: LookupTableModel<T>,
    x: usize,
    y: usize,
    p: P,
    out: P,
) -> bool where S: Fn(usize, usize, &P) -> (usize, usize, usize), F: Fn(&P, T) -> P {
    exists|s: (usize, usize, usize)|
        #![trigger call_ensures(steps_of, (x, y, &p), s)]
        call_ensures(steps_of, (x, y, &p), s) && call_ensures(finish, (&p, table_color(lut, s)), out)
}

impl<'a, P: Copy, T: Copy> ConvImage<'a, P, T> {
    /// An image to convert with `lut`. Its converted pixels start out as
    /// `blank`, in the shape of the image.
    pub fn new(name: String, image: Vec<Vec<P>>, lut: &'a LookupTable<T>, blank: P) -> (c: Self)
        ensures
            c.spec_name() == name@,
            c.spec_image() == image@,
            c.spec_lut() == lut@,
            c.lut_wf() == lut.wf(),
            same_shape(c.spec_converted(), image@),
            forall|x: int, y: int|
                0 <= x < image@.len() && 0 <= y < image@[x]@.len() ==> #[trigger] c.spec_converted()[x]@[y] == blank,
    {
        let converted_image = blank_like(&image, blank);
        ConvImage { name, image, lut, converted_image }
    }

    /// Converts every pixel with the table.
    ///
    /// Pixel y of row x is looked up at the steps `steps_of(x, y, pixel)`
    /// (where noise may be added), and the converted pixel is
    /// `finish(pixel, cell colour)` (which keeps the pixel's alpha).
    pub fn convert<S, F>(self, steps_of: S, finish: F) -> (c: Self) where
        S: Fn(usize, usize, &P) -> (usize, usize, usize),
        F: Fn(&P, T) -> P,

        requires
            self.lut_wf(),
            self.spec_lut().resolution > 0 || no_pixels(self.spec_image()),
            forall|x: usize, y: usize, p: P| call_requires(steps_of, (x, y, &p)),
            forall|p: P, q: T| call_requires(finish, (&p, q)),
        ensures
            c.spec_name() == self.spec_name(),
            c.spec_image() == self.spec_image(),
            c.spec_lut() == self.spec_lut(),
            c.lut_wf(),
            same_shape(c.spec_converted(), self.spec_image()),
            forall|x: usize, y: usize|
                x < self.spec_image().len() && y < self.spec_image()[x as int]@.len() ==> converted_from(
                    steps_of,
                    finish,
                    self.spec_lut(),
                    x,
                    y,
                    self.spec_image()[x as int]@[y as int],
                    #[trigger] c.spec_converted()[x as int]@[y as int],
                ),
            steps_deterministic(steps_of) && finish_deterministic(finish) ==> forall|x: usize, y: usize|
                x < self.spec_image().len() && y < self.spec_image()[x as int]@.len() ==> (#[trigger] c.spec_converted()[x as int]@[y as int])
                    == clamped_conversion(steps_of, finish, self.spec_lut(), x, y, self.spec_image()[x as int]@[y as int]),
    {
        let ghost old_image = self.spec_image();
        let ghost old_lut = self.spec_lut();
        let ConvImage { name, image, lut, converted_image: _ } = self;
        let mut out: Vec<Vec<P>> = Vec::new();
        let rows = image.len();
        let mut x: usize = 0;
        while x < rows
            invariant
                rows == image@.len(),
                x <= rows,
                lut.wf(),
                lut@.resolution > 0 || no_pixels(image@),
                forall|x: usize, y: usize, p: P| call_requires(steps_of, (x, y, &p)),
                forall|p: P, q: T| call_requires(finish, (&p, q)),
                out@.len() == x,
                forall|x2: int| 0 <= x2 < x ==> (#[trigger] out@[x2])@.len() == image@[x2]@.len(),
                forall|x2: usize, y2: usize|
                    x2 < x && y2 < image@[x2 as int]@.len() ==> converted_from(
                        steps_of,
                        finish,
                        lut@,
                        x2,
                        y2,
                        image@[x2 as int]@[y2 as int],
                        #[trigger] out@[x2 as int]@[y2 as int],
                    ),
            decreases rows - x,
        {
            let cols = image[x].len();
            let mut row: Vec<P> = Vec::new();
            let mut y: usize = 0;
            while y < cols
                invariant
                    x < rows,
                    rows == image@.len(),
                    cols == image@[x as int]@.len(),
                    y <= cols,
                    lut.wf(),
                    lut@.resolution > 0 || no_pixels(image@),
                    forall|x: usize, y: usize, p: P| call_requires(steps_of, (x, y, &p)),
                    forall|p: P, q: T| call_requires(finish, (&p, q)),
                    row@.len() == y,
                    forall|y2: usize|
                        y2 < y ==> converted_from(
                            steps_of,
                            finish,
                            lut@,
                            x,
                            y2,
                            image@[x as int]@[y2 as int],
                            #[trigger] row@[y2 as int],
                        ),
                decreases cols - y,
            {
                proof {
                    assert(image@[x as int]@.len() > 0);
                }
                let pixel = image[x][y];
                let steps = steps_of(x, y, &pixel);
                let color = lut.lookup(steps.0, steps.1, steps.2);
                let converted = finish(&pixel, color);
                proof {
                    assert(color == table_color(lut@, steps));
                    assert(converted_from(steps_of, finish, lut@, x, y, pixel, converted));
                }
                row.push(converted);
                y = y + 1;
            }
            out.push(row);
            x = x + 1;
        }
        proof {
            if steps_deterministic(steps_of) && finish_deterministic(finish) {
                assert forall|x: usize, y: usize|
                    x < old_image.len() && y < old_image[x as int]@.len() implies (#[trigger] out@[x as int]@[y as int])
                        == clamped_conversion(steps_of, finish, old_lut, x, y, old_image[x as int]@[y as int]) by {
                    assert(old_image[x as int]@.len() > 0);
                    lemma_conversion_is_clamped_lookup(steps_of, finish, old_lut, x, y, old_image[x as int]@[y as int], out@[x as int]@[y as int]);
                }
            }
        }
        ConvImage { name, image, lut, converted_image: out }
    }

    /// The name the converted image is saved under.
    pub fn name(&self) -> (s: &String)
        ensures
            s@ == self.spec_name(),
    {
        &self.name
    }

    /// The pixels of the image, row by row.
    pub fn image(&self) -> (i: &Vec<Vec<P>>)
        ensures
            i@ == self.spec_image(),
    {
        &self.image
    }

    /// The converted pixels, row by row.
    pub fn converted_image(&self) -> (i: &Vec<Vec<P>>)
        ensures
            i@ == self.spec_converted(),
    {
        &self.converted_image
    }
}

} // verus!
