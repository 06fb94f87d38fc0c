use softraster::frame::{pixels_to_bytes, random_color};
use softraster::RGBA;

#[test]
fn byte_layout_is_rgba_row_major() {
    let pixels = vec![
        RGBA { r: 1, g: 2, b: 3, a: 4 },
        RGBA { r: 5, g: 6, b: 7, a: 8 },
        RGBA { r: 9, g: 10, b: 11, a: 12 },
    ];
    let bytes = pixels_to_bytes(&pixels);
    assert_eq!(bytes.len(), 12);
    assert_eq!(bytes, vec![1, 2, 3, 4, 5, 6, 7, 8, 9, 10, 11, 12]);
}

#[test]
fn byte_offset_formula() {
    // For a 4x2 frame, pixel (x, y) starts at byte (y * width + x) * 4.
    let width = 4usize;
    let height = 2usize;
    let mut pixels = Vec::new();
    for i in 0..width * height {
        pixels.push(RGBA { r: i as u8, g: 0, b: 0, a: 255 });
    }
    let bytes = pixels_to_bytes(&pixels);
    assert_eq!(bytes.len(), width * height * 4);
    for y in 0..height {
        for x in 0..width {
            let off = (y * width + x) * 4;
            assert_eq!(bytes[off] as usize, y * width + x);
            assert_eq!(bytes[off + 3], 255);
        }
    }
}

#[test]
fn random_color_is_opaque() {
    for _ in 0..16 {
        let c = random_color();
        assert_eq!(c.a, 255);
    }
}
