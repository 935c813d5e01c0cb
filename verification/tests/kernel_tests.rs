use ldconvert::kernel::{kernel_target, minimized_average_error_kernel, KernelEntry, ERROR_PARTS};
use ldconvert::quantize::nearest_index;

#[test]
fn mae_kernel_has_34_entries_in_order() {
    let k = minimized_average_error_kernel();
    assert_eq!(k.len(), 34);
    assert_eq!(k[0], KernelEntry { x_offset: 1, y_offset: 0, z_offset: 0, scale: 7 });
    assert_eq!(k[1], KernelEntry { x_offset: 2, y_offset: 0, z_offset: 0, scale: 5 });
    assert_eq!(k[14], KernelEntry { x_offset: 0, y_offset: 0, z_offset: 1, scale: 7 });
    assert_eq!(k[33], KernelEntry { x_offset: 0, y_offset: 2, z_offset: 2, scale: 1 });
}

#[test]
fn mae_kernel_weights_sum_to_error_parts() {
    let k = minimized_average_error_kernel();
    let total: u32 = k.iter().map(|e| e.scale).sum();
    assert_eq!(total, 108);
    assert_eq!(total, ERROR_PARTS);
}

#[test]
fn mae_kernel_points_forward() {
    for e in minimized_average_error_kernel() {
        let forward = e.z_offset > 0
            || (e.z_offset == 0 && e.y_offset > 0)
            || (e.z_offset == 0 && e.y_offset == 0 && e.x_offset > 0);
        assert!(forward, "{:?}", e);
    }
}

fn reaching_targets(k: &Vec<KernelEntry>, res: usize, r: usize, g: usize, b: usize) -> Vec<(usize, usize, usize, u32)> {
    let mut out = Vec::new();
    for e in k {
        if let Some((x, y, z)) = kernel_target(e, res, r, g, b) {
            out.push((x, y, z, e.scale));
        }
    }
    out
}

#[test]
fn targets_skip_only_entries_outside() {
    let k = minimized_average_error_kernel();
    // From the corner of a two-step lattice, entries 1, 2, 3 leave the
    // lattice but entries 4 (next row) and 14 (next slice) still apply.
    let t = reaching_targets(&k, 2, 0, 0, 0);
    assert_eq!(
        t,
        vec![(1, 0, 0, 7), (0, 1, 0, 7), (1, 1, 0, 5), (0, 0, 1, 7), (1, 0, 1, 5), (0, 1, 1, 5), (1, 1, 1, 3)]
    );
}

#[test]
fn target_outside_is_none() {
    let k = minimized_average_error_kernel();
    assert_eq!(kernel_target(&k[0], 4, 3, 0, 0), None);
    assert_eq!(kernel_target(&k[2], 4, 1, 0, 0), None);
    assert_eq!(kernel_target(&k[4], 4, 3, 3, 0), None);
    assert_eq!(kernel_target(&k[33], 4, 0, 2, 2), None);
    assert_eq!(kernel_target(&k[0], 1, 0, 0, 0), None);
}

#[test]
fn target_inside_is_offset_cell() {
    let k = minimized_average_error_kernel();
    assert_eq!(kernel_target(&k[0], 4, 2, 0, 0), Some((3, 0, 0)));
    assert_eq!(kernel_target(&k[2], 4, 2, 1, 3), Some((0, 2, 3)));
    assert_eq!(kernel_target(&k[33], 4, 1, 1, 1), Some((1, 3, 3)));
}

#[test]
fn last_red_column_still_reaches_next_rows() {
    let k = minimized_average_error_kernel();
    // From the last red step only the entries that do not step along red
    // forward apply: 20 of the 34.
    assert_eq!(reaching_targets(&k, 4, 3, 0, 0).len(), 20);
    assert!(reaching_targets(&k, 1, 0, 0, 0).is_empty());
}

#[test]
fn targets_all_inside() {
    let k = minimized_average_error_kernel();
    let t = reaching_targets(&k, 8, 2, 2, 2);
    assert_eq!(t.len(), 34);
    assert_eq!(t[0], (3, 2, 2, 7));
    assert_eq!(t[2], (0, 3, 2, 3));
    assert_eq!(t[33], (2, 4, 4, 1));
}

#[test]
fn targets_with_custom_kernel() {
    let k = vec![
        KernelEntry { x_offset: 0, y_offset: 0, z_offset: 1, scale: 2 },
        KernelEntry { x_offset: 0, y_offset: 0, z_offset: 5, scale: 3 },
        KernelEntry { x_offset: 1, y_offset: 0, z_offset: 0, scale: 4 },
    ];
    assert_eq!(reaching_targets(&k, 3, 0, 0, 0), vec![(0, 0, 1, 2), (1, 0, 0, 4)]);
}

#[test]
fn nearest_picks_smallest_key_skipping_entry_zero() {
    assert_eq!(nearest_index(&vec![0, 5, 3, 3, 9], 10), Some(2));
    assert_eq!(nearest_index(&vec![0, 5, 4, 3, 9], 10), Some(3));
}

#[test]
fn nearest_none_when_all_keys_reach_limit() {
    assert_eq!(nearest_index(&vec![1, 20, 30], 10), None);
    assert_eq!(nearest_index(&vec![1, 10], 10), None);
    assert_eq!(nearest_index(&vec![], 10), None);
    assert_eq!(nearest_index(&vec![0], 10), None);
}
