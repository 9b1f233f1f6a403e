//! The tray icon's recording indicator: a red disc painted into the
//! bottom-right corner of the app icon's RGBA pixels.

use vstd::prelude::*;

verus! {

/// The disc's colour.
pub const DOT_RGBA: [u8; 4] = [0xE5, 0x3E, 0x3E, 0xFF];

/// Byte `c` of the disc's colour.
pub open spec fn dot_byte(c: int) -> u8 {
    if c == 0 {
        0xE5
    } else if c == 1 {
        0x3E
    } else if c == 2 {
        0x3E
    } else {
        0xFF
    }
}

/// The disc's radius: three tenths of the shorter side, at least 2.
pub open spec fn dot_radius(w: int, h: int) -> int {
    let m = if w < h {
        w
    } else {
        h
    };
    let r = m * 3 / 10;
    if r < 2 {
        2
    } else {
        r
    }
}

/// Whether pixel `(x, y)` lies on the disc centred one radius (plus one
/// pixel) in from the bottom-right corner.
pub open spec fn in_dot(w: int, h: int, x: int, y: int) -> bool {
    let r = dot_radius(w, h);
    let dx = x - (w - r - 1);
    let dy = y - (h - r - 1);
    dx * dx + dy * dy <= r * r
}

/// Byte `c` of pixel `(x, y)` in a row-major RGBA buffer `w` pixels wide.
pub open spec fn byte_at(s: Seq<u8>, w: int, x: int, y: int, c: int) -> u8 {
    s[(y * w + x) * 4 + c]
}

/// The buffer after painting: every pixel on the disc takes the disc's
/// colour, every other byte is kept.
pub open spec fn painted(old: Seq<u8>, new: Seq<u8>, w: int, h: int) -> bool {
    &&& new.len() == old.len()
    &&& forall|x: int, y: int, c: int|
        0 <= x < w && 0 <= y < h && 0 <= c < 4 ==> #[trigger] byte_at(new, w, x, y, c) == if in_dot(
            w,
            h,
            x,
            y,
        ) {
            dot_byte(c)
        } else {
            byte_at(old, w, x, y, c)
        }
    &&& forall|i: int| w * h * 4 <= i < old.len() ==> new[i] == old[i]
}

proof fn lemma_pixel_bounds(w: int, h: int, x: int, y: int, c: int)
    requires
        0 <= x < w,
        0 <= y < h,
        0 <= c < 4,
    ensures
        0 <= (y * w + x) * 4 + c < w * h * 4,
{
    assert(y * w + x < h * w) by (nonlinear_arith)
        requires
            0 <= x < w,
            0 <= y < h,
    ;
    assert(0 <= y * w) by (nonlinear_arith)
        requires
            0 <= y,
            0 <= w,
    ;
    assert(h * w == w * h) by (nonlinear_arith);
}

proof fn lemma_pixels_disjoint(w: int, x1: int, y1: int, c1: int, x2: int, y2: int, c2: int)
    requires
        0 <= x1 < w,
        0 <= x2 < w,
        0 <= y1,
        0 <= y2,
        0 <= c1 < 4,
        0 <= c2 < 4,
        (x1, y1) != (x2, y2),
    ensures
        (y1 * w + x1) * 4 + c1 != (y2 * w + x2) * 4 + c2,
{
    if y1 == y2 {
    } else if y1 < y2 {
        assert(y1 * w + x1 < y2 * w) by (nonlinear_arith)
            requires
                0 <= x1 < w,
                y1 < y2,
        ;
    } else {
        assert(y2 * w + x2 < y1 * w) by (nonlinear_arith)
            requires
                0 <= x2 < w,
                y2 < y1,
        ;
    }
}

/// Off the disc's bounding square a pixel is not on the disc.
proof fn lemma_outside_box(r: int, dx: int, dy: int)
    requires
        r >= 0,
        dx < -r || dx > r || dy < -r || dy > r,
    ensures
        dx * dx + dy * dy > r * r,
{
    if dx < -r || dx > r {
        assert(dx * dx > r * r) by (nonlinear_arith)
            requires
                r >= 0,
                dx < -r || dx > r,
        ;
        assert(dy * dy >= 0) by (nonlinear_arith);
    } else {
        assert(dy * dy > r * r) by (nonlinear_arith)
            requires
                r >= 0,
                dy < -r || dy > r,
        ;
        assert(dx * dx >= 0) by (nonlinear_arith);
    }
}

/// Paint the red disc into the bottom-right corner of a `w`×`h` RGBA buffer.
pub fn draw_dot(rgba: &mut Vec<u8>, w: u32, h: u32)
    requires
        w * h * 4 <= i32::MAX,
        w * h * 4 <= old(rgba)@.len(),
    ensures
        painted(old(rgba)@, final(rgba)@, w as int, h as int),
{
    if w == 0 || h == 0 {
        // An empty image has no pixel to paint.
        return;
    }
    assert(w <= i32::MAX && h <= i32::MAX) by (nonlinear_arith)
        requires
            w >= 1,
            h >= 1,
            w * h * 4 <= i32::MAX,
    ;
    let wi = w as i32;
    let hi = h as i32;
    let m = if wi < hi {
        wi
    } else {
        hi
    };
    assert(m * m <= w * h) by (nonlinear_arith)
        requires
            0 <= m <= w,
            m <= h,
    ;
    assert(m <= 23170) by (nonlinear_arith)
        requires
            m * m <= 0x2000_0000,
            m >= 0,
    ;
    let r0 = m * 3 / 10;
    let r = if r0 < 2 {
        2
    } else {
        r0
    };
    assert(r == dot_radius(w as int, h as int));
    let cx = wi - r - 1;
    let cy = hi - r - 1;
    let y0 = if cy - r > 0 {
        cy - r
    } else {
        0
    };
    let y1 = if cy + r + 1 < hi {
        cy + r + 1
    } else {
        hi
    };
    let x0 = if cx - r > 0 {
        cx - r
    } else {
        0
    };
    let x1 = if cx + r + 1 < wi {
        cx + r + 1
    } else {
        wi
    };
    let ghost old_s = rgba@;
    let ghost wn = w as int;
    let ghost hn = h as int;
    let mut y = y0;
    assert forall|px: int, py: int, c: int|
        0 <= px < wn && 0 <= py < hn && 0 <= c < 4 implies #[trigger] byte_at(
        rgba@,
        wn,
        px,
        py,
        c,
    ) == if py < y && in_dot(wn, hn, px, py) {
        dot_byte(c)
    } else {
        byte_at(old_s, wn, px, py, c)
    } by {
        if py < y && in_dot(wn, hn, px, py) {
            lemma_outside_box(r as int, px - cx, py - cy);
        }
    }
    while y < y1
        invariant
            0 <= y0 <= y,
            y1 <= hi,
            wi == wn,
            hi == hn,
            wn * hn * 4 <= i32::MAX,
            wn * hn * 4 <= old_s.len(),
            r == dot_radius(wn, hn),
            2 <= r <= 6951,
            cx == wn - r - 1,
            cy == hn - r - 1,
            y0 == (if cy - r > 0 {
                cy - r
            } else {
                0
            }),
            x0 == (if cx - r > 0 {
                cx - r
            } else {
                0
            }),
            x1 == (if cx + r + 1 < wi {
                cx + r + 1
            } else {
                wi as int
            }),
            y1 == (if cy + r + 1 < hi {
                cy + r + 1
            } else {
                hi as int
            }),
            rgba@.len() == old_s.len(),
            forall|i: int| wn * hn * 4 <= i < old_s.len() ==> rgba@[i] == old_s[i],
            forall|px: int, py: int, c: int|
                0 <= px < wn && 0 <= py < hn && 0 <= c < 4 ==> #[trigger] byte_at(
                    rgba@,
                    wn,
                    px,
                    py,
                    c,
                ) == if py < y && in_dot(wn, hn, px, py) {
                    dot_byte(c)
                } else {
                    byte_at(old_s, wn, px, py, c)
                },
        decreases y1 - y,
    {
        let mut x = x0;
        assert forall|px: int, py: int, c: int|
            0 <= px < wn && 0 <= py < hn && 0 <= c < 4 implies #[trigger] byte_at(
            rgba@,
            wn,
            px,
            py,
            c,
        ) == if (py < y || (py == y && px < x)) && in_dot(wn, hn, px, py) {
            dot_byte(c)
        } else {
            byte_at(old_s, wn, px, py, c)
        } by {
            if py == y && px < x && in_dot(wn, hn, px, py) {
                lemma_outside_box(r as int, px - cx, py - cy);
            }
        }
        while x < x1
            invariant
                0 <= y0 <= y < y1 <= hi,
                0 <= x0 <= x,
                x1 <= wi,
                wi == wn,
                hi == hn,
                wn * hn * 4 <= i32::MAX,
                wn * hn * 4 <= old_s.len(),
                r == dot_radius(wn, hn),
                2 <= r <= 6951,
                cx == wn - r - 1,
                cy == hn - r - 1,
                y0 == (if cy - r > 0 {
                    cy - r
                } else {
                    0
                }),
                x0 == (if cx - r > 0 {
                    cx - r
                } else {
                    0
                }),
                x1 == (if cx + r + 1 < wi {
                    cx + r + 1
                } else {
                    wi as int
                }),
                y1 == (if cy + r + 1 < hi {
                    cy + r + 1
                } else {
                    hi as int
                }),
                rgba@.len() == old_s.len(),
                forall|i: int| wn * hn * 4 <= i < old_s.len() ==> rgba@[i] == old_s[i],
                forall|px: int, py: int, c: int|
                    0 <= px < wn && 0 <= py < hn && 0 <= c < 4 ==> #[trigger] byte_at(
                        rgba@,
                        wn,
                        px,
                        py,
                        c,
                    ) == if (py < y || (py == y && px < x)) && in_dot(wn, hn, px, py) {
                        dot_byte(c)
                    } else {
                        byte_at(old_s, wn, px, py, c)
                    },
            decreases x1 - x,
        {
            let dx = x - cx;
            let dy = y - cy;
            assert(-r <= dx <= r && -r <= dy <= r);
            assert(0 <= dx * dx <= 6951 * 6951 && 0 <= dy * dy <= 6951 * 6951 && 0 <= r * r <= 6951
                * 6951)
                by (nonlinear_arith)
                requires
                    -r <= dx <= r,
                    -r <= dy <= r,
                    2 <= r <= 6951,
            ;
            let ghost before = rgba@;
            assert(in_dot(wn, hn, x as int, y as int) == (dx * dx + dy * dy <= r * r));
            if dx * dx + dy * dy <= r * r {
                proof {
                    lemma_pixel_bounds(wn, hn, x as int, y as int, 3);
                }
                let i = ((y * wi + x) * 4) as usize;
                rgba[i] = 0xE5;
                rgba[i + 1] = 0x3E;
                rgba[i + 2] = 0x3E;
                rgba[i + 3] = 0xFF;
                proof {
                    assert forall|px: int, py: int, c: int|
                        0 <= px < wn && 0 <= py < hn && 0 <= c < 4 implies #[trigger] byte_at(
                        rgba@,
                        wn,
                        px,
                        py,
                        c,
                    ) == if (py < y || (py == y && px < x + 1)) && in_dot(wn, hn, px, py) {
                        dot_byte(c)
                    } else {
                        byte_at(old_s, wn, px, py, c)
                    } by {
                        lemma_pixel_bounds(wn, hn, px, py, c);
                        if px == x && py == y {
                        } else {
                            lemma_pixels_disjoint(wn, px, py, c, x as int, y as int, 0);
                            lemma_pixels_disjoint(wn, px, py, c, x as int, y as int, 1);
                            lemma_pixels_disjoint(wn, px, py, c, x as int, y as int, 2);
                            lemma_pixels_disjoint(wn, px, py, c, x as int, y as int, 3);
                            assert(byte_at(rgba@, wn, px, py, c) == byte_at(before, wn, px, py, c));
                        }
                    }
                }
            }
            x = x + 1;
        }
        proof {
            assert forall|px: int, py: int, c: int|
                0 <= px < wn && 0 <= py < hn && 0 <= c < 4 implies #[trigger] byte_at(
                rgba@,
                wn,
                px,
                py,
                c,
            ) == if py < y + 1 && in_dot(wn, hn, px, py) {
                dot_byte(c)
            } else {
                byte_at(old_s, wn, px, py, c)
            } by {
                if py == y && px >= x && in_dot(wn, hn, px, py) {
                    lemma_outside_box(r as int, px - cx, py - cy);
                }
                if py == y && px < x0 && in_dot(wn, hn, px, py) {
                    lemma_outside_box(r as int, px - cx, py - cy);
                }
            }
        }
        y = y + 1;
    }
    proof {
        assert forall|px: int, py: int, c: int|
            0 <= px < wn && 0 <= py < hn && 0 <= c < 4 implies #[trigger] byte_at(
            rgba@,
            wn,
            px,
            py,
            c,
        ) == if in_dot(wn, hn, px, py) {
            dot_byte(c)
        } else {
            byte_at(old_s, wn, px, py, c)
        } by {
            if py >= y && in_dot(wn, hn, px, py) {
                lemma_outside_box(r as int, px - cx, py - cy);
            }
        }
    }
}

} // verus!
