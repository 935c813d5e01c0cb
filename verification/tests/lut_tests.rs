use ldconvert::convimage::ConvImage;
use ldconvert::kernel::minimized_average_error_kernel;
use ldconvert::lookup::LookupTable;
use std::collections::HashMap;

fn pal(colors: &[i64]) -> HashMap<u32, i64> {
    colors.iter().enumerate().map(|(i, c)| (i as u32, *c)).collect()
}

fn steps_value(r: usize, g: usize, b: usize, _res: usize) -> i64 {
    (r + 10 * g + 100 * b) as i64
}

fn populated(res: usize) -> LookupTable<i64> {
    LookupTable::new("pal".to_string(), res, pal(&[0, 0, 100]), 0).populate(steps_value)
}

#[test]
fn new_fills_every_cell() {
    let lut = LookupTable::new("pal".to_string(), 3, pal(&[1i64, 2]), 7);
    assert_eq!(lut.values().len(), 27);
    assert!(lut.values().iter().all(|v| *v == 7));
    assert_eq!(lut.resolution(), 3);
    assert_eq!(lut.name(), "pal");
    assert_eq!(lut.palette(), &pal(&[1, 2]));
    assert_eq!(lut.kernel(), &minimized_average_error_kernel());
}

#[test]
fn new_with_zero_resolution_is_empty() {
    let lut = LookupTable::new("p".to_string(), 0, pal(&[1i64]), 0);
    assert!(lut.values().is_empty());
}

#[test]
fn populate_is_blue_major() {
    let lut = populated(2);
    assert_eq!(lut.values(), &vec![0, 1, 10, 11, 100, 101, 110, 111]);
}

#[test]
fn lookup_reads_cell_and_clamps() {
    let lut = populated(2);
    assert_eq!(lut.lookup(1, 0, 0), 1);
    assert_eq!(lut.lookup(0, 1, 1), 110);
    assert_eq!(lut.lookup(5, 5, 5), 111);
    assert_eq!(lut.lookup(2, 0, 0), 1);
}

fn quantize(lut: LookupTable<i64>, limit: u32) -> LookupTable<i64> {
    lut.discretize(
        |c: &i64, p: &i64| (c - p).unsigned_abs() as u32,
        limit,
        -1,
        |c: &i64, q: &i64| c - q,
        |t: &i64, e: &i64, w: u32| t + e * w as i64,
    )
}

#[test]
fn discretize_diffuses_error_forward() {
    let lut = quantize(populated(2), u32::MAX);
    assert_eq!(lut.values(), &vec![0, 0, 0, 100, 100, 100, 100, 100]);
    assert_eq!(lut.resolution(), 2);
    assert_eq!(lut.palette(), &pal(&[0, 0, 100]));
}

#[test]
fn discretize_diffuses_past_an_entry_outside() {
    // The error of the first cell reaches the next row and the next slice
    // although the entry two red steps ahead lies outside the lattice.
    let lut = LookupTable::new("p".to_string(), 2, pal(&[0i64, 0, 100]), 40);
    let lut = quantize(lut, u32::MAX);
    assert_eq!(lut.values(), &vec![0, 100, 100, 100, 100, 100, 100, 100]);
}

#[test]
fn discretize_single_cell() {
    let lut = LookupTable::new("p".to_string(), 1, pal(&[5i64, 60, 40]), 52);
    let lut = quantize(lut, u32::MAX);
    assert_eq!(lut.values(), &vec![60]);
}

#[test]
fn discretize_skips_palette_entry_zero() {
    let lut = LookupTable::new("p".to_string(), 1, pal(&[52i64, 60]), 52);
    let lut = quantize(lut, u32::MAX);
    assert_eq!(lut.values(), &vec![60]);
}

#[test]
fn discretize_falls_back_beyond_limit() {
    let lut = quantize(populated(2), 0);
    assert!(lut.values().iter().all(|v| *v == -1));
    let lut = LookupTable::new("p".to_string(), 2, pal(&[0i64]), 3);
    let lut = quantize(lut, u32::MAX);
    assert!(lut.values().iter().all(|v| *v == -1));
}

#[test]
fn discretize_reads_palette_by_id() {
    let mut palette = HashMap::new();
    palette.insert(2u32, 60i64);
    palette.insert(0u32, 52);
    palette.insert(1u32, 40);
    let lut = LookupTable::new("p".to_string(), 1, palette, 57);
    let lut = quantize(lut, u32::MAX);
    assert_eq!(lut.values(), &vec![60]);
}

#[test]
fn discretize_keeps_palette_table() {
    let lut = LookupTable::new("p".to_string(), 2, pal(&[0i64, 0, 100]), 40);
    let once = quantize(lut, u32::MAX);
    let values = once.values().clone();
    let twice = quantize(once, u32::MAX);
    assert_eq!(twice.values(), &values);
}

#[test]
fn nested_round_trip() {
    let lut = populated(2);
    let nested = lut.to_nested();
    assert_eq!(nested, vec![vec![vec![0, 1], vec![10, 11]], vec![vec![100, 101], vec![110, 111]]]);
    let back = LookupTable::from_nested(
        lut.name().clone(),
        2,
        &nested,
        lut.palette().clone(),
        lut.kernel().clone(),
    )
    .unwrap();
    assert_eq!(back.values(), lut.values());
    assert_eq!(back.kernel(), lut.kernel());
}

#[test]
fn from_nested_rejects_missing_cells() {
    let nested = vec![vec![vec![0i64, 1], vec![10]], vec![vec![100, 101], vec![110, 111]]];
    let k = minimized_average_error_kernel();
    assert!(LookupTable::from_nested("p".to_string(), 2, &nested, pal(&[0]), k.clone()).is_none());
    assert!(LookupTable::from_nested("p".to_string(), 3, &nested, pal(&[0]), k).is_none());
}

#[test]
fn from_nested_ignores_extra_entries() {
    let nested = vec![vec![vec![0i64, 1, 2], vec![10, 11]], vec![vec![100, 101], vec![110, 111]], vec![]];
    let k = minimized_average_error_kernel();
    let lut = LookupTable::from_nested("p".to_string(), 2, &nested, pal(&[0]), k).unwrap();
    assert_eq!(lut.values(), &vec![0, 1, 10, 11, 100, 101, 110, 111]);
}

#[test]
fn from_nested_rejects_overflowing_resolution() {
    let nested: Vec<Vec<Vec<i64>>> = vec![];
    assert!(LookupTable::from_nested("p".to_string(), usize::MAX, &nested, HashMap::new(), vec![]).is_none());
}

#[test]
fn conv_image_converts_every_pixel() {
    let lut = populated(2);
    let image: Vec<Vec<i64>> = vec![vec![0, 111, 5], vec![101]];
    let conv = ConvImage::new("img".to_string(), image.clone(), &lut, 0);
    assert_eq!(conv.converted_image(), &vec![vec![0, 0, 0], vec![0]]);
    let steps = |_x: usize, _y: usize, p: &i64| ((p % 10) as usize, ((p / 10) % 10) as usize, (p / 100) as usize);
    let finish = |p: &i64, c: i64| c * 1000 + p;
    let conv = conv.convert(steps, finish);
    assert_eq!(conv.converted_image(), &vec![vec![0, 111111, 1005], vec![101101]]);
    let again = ConvImage::new("img".to_string(), image.clone(), &lut, 0).convert(steps, finish);
    assert_eq!(again.converted_image(), conv.converted_image());
    assert_eq!(conv.image(), &image);
    assert_eq!(conv.name(), "img");
}

#[test]
fn conv_image_without_pixels_needs_no_steps() {
    let lut = LookupTable::new("p".to_string(), 0, pal(&[0i64]), 0);
    let image: Vec<Vec<i64>> = vec![vec![], vec![]];
    let conv = ConvImage::new("img".to_string(), image, &lut, 0).convert(
        |_x: usize, _y: usize, _p: &i64| (0usize, 0usize, 0usize),
        |_p: &i64, c: i64| c,
    );
    assert_eq!(conv.converted_image(), &vec![Vec::<i64>::new(), vec![]]);
}
