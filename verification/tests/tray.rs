use ogma_core::tray::{draw_dot, DOT_RGBA};

fn buf(w: u32, h: u32) -> Vec<u8> {
    vec![0u8; (w * h * 4) as usize]
}

#[test]
fn draw_dot_stays_in_bounds_on_degenerate_sizes() {
    // 1x1 is the transparent-pixel fallback icon; the rest probe the
    // clamp math around a radius larger than the buffer.
    for (w, h) in [(1, 1), (2, 2), (1, 3), (3, 1), (4, 4)] {
        let mut b = buf(w, h);
        draw_dot(&mut b, w, h); // must not panic
    }
}

#[test]
fn draw_dot_paints_bottom_right_and_leaves_top_left() {
    let (w, h) = (32u32, 32u32);
    let mut b = buf(w, h);
    draw_dot(&mut b, w, h);
    // Dot center (as computed by draw_dot) is red.
    let r = (32i32 * 3 / 10).max(2);
    let (cx, cy) = (32 - r - 1, 32 - r - 1);
    let center = ((cy * 32 + cx) * 4) as usize;
    assert_eq!(&b[center..center + 4], &DOT_RGBA);
    // Rightmost pixel of the disc (cx + r, cy) is painted…
    let edge = ((cy * 32 + cx + r) * 4) as usize;
    assert_eq!(&b[edge..edge + 4], &DOT_RGBA);
    // …and the disc never spills past the buffer edge (cx + r ≤ 31).
    assert!(cx + r <= 31);
    // Top-left stays untouched.
    assert_eq!(&b[0..4], &[0, 0, 0, 0]);
}

#[test]
fn draw_dot_leaves_extra_bytes_alone() {
    let mut b = vec![7u8; 4 * 4 * 4 + 3];
    draw_dot(&mut b, 4, 4);
    assert_eq!(&b[64..67], &[7, 7, 7]);
    // 4x4: radius 2, centre (1, 1): the corner pixel (0, 0) is on the disc.
    assert_eq!(&b[0..4], &DOT_RGBA);
}

#[test]
fn draw_dot_on_an_empty_image_paints_nothing() {
    let mut empty: Vec<u8> = Vec::new();
    draw_dot(&mut empty, 0, u32::MAX);
    draw_dot(&mut empty, u32::MAX, 0);
    draw_dot(&mut empty, 0, 0);
    assert!(empty.is_empty());
    let mut spare = vec![7u8; 8];
    draw_dot(&mut spare, 0, 5);
    assert_eq!(spare, vec![7u8; 8]);
}
