use lunar_ecs::rendering::batching::{material_switches, plan_batches, same_pairs, MeshMaterial};

fn calls(ids: &[(u128, u128)]) -> Vec<MeshMaterial> {
    ids.iter().map(|&(mesh, material)| MeshMaterial::new(mesh, material)).collect()
}
use lunar_ecs::rendering::screenshot::{
    screenshot_file_name, screenshot_png, strip_row_padding, CaptureLayout, CaptureTime, PngCompression,
};

#[test]
fn batches_are_sorted_by_mesh_then_material() {
    let pairs = vec![(2, 5), (1, 7), (2, 5), (1, 3), (2, 1)];
    let b = plan_batches(&pairs);
    assert_eq!(b.mesh_materials, calls(&[(1, 3), (1, 7), (2, 1), (2, 5)]));
    assert_eq!(b.num_instances, vec![1, 1, 1, 2]);
    assert_eq!(b.members, vec![vec![3], vec![1], vec![4], vec![0, 2]]);
}

#[test]
fn unset_ids_are_not_drawn() {
    let pairs = vec![(0, 5), (3, 0), (3, 4), (0, 0)];
    let b = plan_batches(&pairs);
    assert_eq!(b.mesh_materials, calls(&[(3, 4)]));
    assert_eq!(b.num_instances, vec![1]);
    assert_eq!(b.members, vec![vec![2]]);
    assert!(plan_batches(&Vec::new()).mesh_materials.is_empty());
}

#[test]
fn cache_reuse_needs_identical_pairs() {
    assert!(same_pairs(&vec![(1, 2), (3, 4)], &vec![(1, 2), (3, 4)]));
    assert!(!same_pairs(&vec![(1, 2), (3, 4)], &vec![(1, 2), (3, 5)]));
    assert!(!same_pairs(&vec![(1, 2)], &vec![(1, 2), (3, 4)]));
}

#[test]
fn materials_are_bound_when_they_change() {
    assert_eq!(material_switches(&calls(&[(1, 3), (2, 3), (2, 5), (4, 0)])), vec![true, false, true, true]);
}

#[test]
fn mesh_material_new_keeps_ids() {
    let m = MeshMaterial::new(7, 9);
    assert_eq!(m.mesh_id, 7);
    assert_eq!(m.material_id, 9);
}

#[test]
fn capture_layout_padding_and_size() {
    let mut layout = CaptureLayout::new();
    assert!(layout.update(100, 10, 4));
    assert_eq!(layout.padding, 256 - 400 % 256);
    assert_eq!(layout.size, (400 + 112) * 10);
    assert_eq!(layout.bytes_per_row(), 512);
    assert!(!layout.update(100, 10, 4));
    assert!(!layout.update(64, 10, 4));
    assert_eq!(layout.resolution, (64, 10));
    assert_eq!(layout.padding, 256);
    assert_eq!(layout.size, 512 * 10);
    assert!(layout.update(64, 11, 4));
    assert_eq!(layout.size, 512 * 11);
}

#[test]
fn row_padding_is_stripped() {
    let data = vec![1u8, 2, 0, 0, 3, 4, 0, 0, 5, 6, 0];
    assert_eq!(strip_row_padding(&data, 2, 4), vec![1, 2, 3, 4, 5, 6]);
    assert_eq!(strip_row_padding(&vec![], 2, 4), Vec::<u8>::new());
}

#[test]
fn screenshot_names_carry_the_padded_time() {
    let t = CaptureTime { year: 2024, month: 3, day: 5, hour: 7, minute: 8, second: 9 };
    assert_eq!(screenshot_file_name("lunar-engine", Some(t)), "lunar-engine-2024-03-05-07-08-09.png");
    let t = CaptureTime { year: 987, month: 12, day: 31, hour: 23, minute: 59, second: 0 };
    assert_eq!(screenshot_file_name("shot", Some(t)), "shot-0987-12-31-23-59-00.png");
    let t = CaptureTime { year: 12345, month: 100, day: 0, hour: 10, minute: 0, second: 59 };
    assert_eq!(screenshot_file_name("", Some(t)), "-12345-100-00-10-00-59.png");
}

#[test]
fn screenshot_names_without_time() {
    assert_eq!(screenshot_file_name("lunar-engine", None), "lunar-engine.png");
}

#[test]
fn screenshot_png_strips_padding_and_encodes() {
    let mut layout = CaptureLayout::new();
    assert!(layout.update(2, 3, 4));
    let stride = layout.bytes_per_row() as usize;
    let mut padded = vec![0xeeu8; layout.size as usize];
    let mut pixels = Vec::new();
    for y in 0..3usize {
        for x in 0..8usize {
            let v = (y * 8 + x) as u8;
            padded[y * stride + x] = v;
            pixels.push(v);
        }
    }
    let png = screenshot_png(&padded, &layout, PngCompression::Best);
    assert_eq!(&png[0..8], &[0x89, 0x50, 0x4e, 0x47, 0x0d, 0x0a, 0x1a, 0x0a]);
    assert_eq!(&png[8..16], &[0, 0, 0, 13, 0x49, 0x48, 0x44, 0x52]);
    assert_eq!(&png[16..24], &[0, 0, 0, 2, 0, 0, 0, 3]);
    assert_eq!(&png[24..29], &[8, 6, 0, 0, 0]);
    let decoded = lunar_png::decode_png(&mut png.into_iter()).unwrap();
    assert_eq!((decoded.width, decoded.height), (2, 3));
    assert_eq!(decoded.data, pixels);
}

#[test]
fn copied_rows_start_on_256_byte_boundaries() {
    for width in [1u32, 63, 64, 65, 100, 1920] {
        let mut layout = CaptureLayout::new();
        layout.update(width, 3, 4);
        assert_eq!(layout.bytes_per_row() % 256, 0);
        assert!(layout.padding > 0 && layout.padding <= 256);
        let padded = vec![7u8; layout.size as usize];
        let stripped = strip_row_padding(&padded, (width * 4) as usize, layout.bytes_per_row() as usize);
        assert_eq!(stripped.len(), (width * 4 * 3) as usize);
    }
}
