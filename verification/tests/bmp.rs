use lunar_ecs::bmp::{parse, BmpError};
use lunar_ecs::structures::Pixel;

fn le32(v: u32) -> [u8; 4] {
    v.to_le_bytes()
}

/// A bitmap with the given pixels, stored blue, green, red, alpha.
fn bitmap(width: u32, height: u32, pixels: &[[u8; 4]]) -> Vec<u8> {
    let size = 54 + 4 * pixels.len() as u32;
    let mut d = Vec::new();
    d.extend_from_slice(b"BM");
    d.extend_from_slice(&le32(size));
    d.extend_from_slice(&le32(0));
    d.extend_from_slice(&le32(54));
    d.extend_from_slice(&le32(40));
    d.extend_from_slice(&le32(width));
    d.extend_from_slice(&le32(height));
    d.extend_from_slice(&1u16.to_le_bytes());
    d.extend_from_slice(&32u16.to_le_bytes());
    d.extend_from_slice(&le32(0));
    d.extend_from_slice(&le32(4 * pixels.len() as u32));
    d.extend_from_slice(&le32(2835));
    d.extend_from_slice(&le32(2835));
    d.extend_from_slice(&le32(0));
    d.extend_from_slice(&le32(0));
    for p in pixels {
        d.extend_from_slice(p);
    }
    d
}

#[test]
fn test_image_loading() {
    let data = bitmap(2, 1, &[[1, 2, 3, 4], [5, 6, 7, 8]]);
    let img = parse(&data).unwrap();
    assert_eq!(img.width, 2);
    assert_eq!(img.height, 1);
    assert_eq!(img.data, vec![Pixel { r: 3, g: 2, b: 1, a: 4 }, Pixel { r: 7, g: 6, b: 5, a: 8 }]);
}

#[test]
fn too_short_is_refused() {
    let data = vec![0u8; 54];
    assert_eq!(parse(&data).err(), Some(BmpError::HeaderTooSmall));
}

#[test]
fn wrong_signature_is_refused() {
    let mut data = bitmap(1, 1, &[[0, 0, 0, 0]]);
    data[0] = b'X';
    assert_eq!(parse(&data).err(), Some(BmpError::WrongSignature));
}

#[test]
fn wrong_size_is_refused() {
    let mut data = bitmap(1, 1, &[[0, 0, 0, 0]]);
    data[2] = 99;
    assert_eq!(parse(&data).err(), Some(BmpError::InvalidSize));
}

#[test]
fn color_planes_must_be_one() {
    let mut data = bitmap(1, 1, &[[0, 0, 0, 0]]);
    data[26] = 2;
    assert_eq!(parse(&data).err(), Some(BmpError::WrongColorPlanes));
}

#[test]
fn only_32_bits_per_pixel_are_accepted() {
    let mut data = bitmap(1, 1, &[[0, 0, 0, 0]]);
    data[28] = 0xDF;
    data[29] = 0xFF;
    assert_eq!(parse(&data).err(), Some(BmpError::UnsupportedBitsPerPixel));
    let mut data = bitmap(1, 1, &[[9, 8, 7, 6]]);
    data[28] = 24;
    assert_eq!(parse(&data).err(), Some(BmpError::UnsupportedBitsPerPixel));
    let data = bitmap(1, 1, &[[9, 8, 7, 6]]);
    assert_eq!(parse(&data).unwrap().data, vec![Pixel { r: 7, g: 8, b: 9, a: 6 }]);
}

#[test]
fn error_messages() {
    assert_eq!(BmpError::HeaderTooSmall.message(), "Invalid data, header too small");
    assert_eq!(BmpError::UnsupportedBitsPerPixel.message(), "Unsported bits per pixel");
}
