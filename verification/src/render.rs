//! The renderer: a fixed-size RGBA8 frame buffer filled column by
//! column from DDA grid traversal, plus the flat drawing primitives the
//! HUD uses. The caller owns the buffer and passes it in by reference;
//! nothing here allocates a surface or mutates the world or the player.

use crate::fixed::{
    fx_div, fx_div_spec, fx_floor, fx_floor_spec, fx_mul, fx_mul_spec, fx_trunc, fx_trunc_spec,
    lemma_fx_div_abs, lemma_fx_mul_abs,
};
use crate::player::Player;
use crate::ui::{GameMode, UiState};
use crate::world::World;
use vstd::prelude::*;

verus! {

/// Frame buffer width in pixels.
pub const WIDTH: usize = 320;

/// Frame buffer height in pixels.
pub const HEIGHT: usize = 200;

/// Frame buffer size in bytes: four bytes per pixel.
pub const FRAME_BYTES: usize = 320 * 200 * 4;

/// Little-endian bytes of a packed color.
pub open spec fn px_byte0(c: u32) -> u8 {
    (c % 0x100) as u8
}

pub open spec fn px_byte1(c: u32) -> u8 {
    ((c / 0x100) % 0x100) as u8
}

pub open spec fn px_byte2(c: u32) -> u8 {
    ((c / 0x10000) % 0x100) as u8
}

pub open spec fn px_byte3(c: u32) -> u8 {
    (c / 0x1000000) as u8
}

/// The four bytes of pixel `(x, y)` hold the packed color.
pub open spec fn pixel_is(frame: Seq<u8>, x: int, y: int, c: u32) -> bool {
    &&& frame[(y * 320 + x) * 4] == px_byte0(c)
    &&& frame[(y * 320 + x) * 4 + 1] == px_byte1(c)
    &&& frame[(y * 320 + x) * 4 + 2] == px_byte2(c)
    &&& frame[(y * 320 + x) * 4 + 3] == px_byte3(c)
}

/// Pixel `(x, y)` holds the same bytes in both buffers.
pub open spec fn pixel_unchanged(frame: Seq<u8>, older: Seq<u8>, x: int, y: int) -> bool {
    &&& frame[(y * 320 + x) * 4] == older[(y * 320 + x) * 4]
    &&& frame[(y * 320 + x) * 4 + 1] == older[(y * 320 + x) * 4 + 1]
    &&& frame[(y * 320 + x) * 4 + 2] == older[(y * 320 + x) * 4 + 2]
    &&& frame[(y * 320 + x) * 4 + 3] == older[(y * 320 + x) * 4 + 3]
}

/// Writes one pixel; every other pixel keeps its bytes.
pub fn put_pixel(frame: &mut Vec<u8>, x: usize, y: usize, c: u32)
    requires
        old(frame)@.len() == FRAME_BYTES,
        x < WIDTH,
        y < HEIGHT,
    ensures
        final(frame)@.len() == FRAME_BYTES,
        pixel_is(final(frame)@, x as int, y as int, c),
        forall|xx: int, yy: int|
            0 <= xx < 320 && 0 <= yy < 200 && !(xx == x && yy == y) ==> pixel_unchanged(
                final(frame)@,
                old(frame)@,
                xx,
                yy,
            ),
{
    let i: usize = (y * 320 + x) * 4;
    frame.set(i, (c % 0x100) as u8);
    frame.set(i + 1, ((c / 0x100) % 0x100) as u8);
    frame.set(i + 2, ((c / 0x10000) % 0x100) as u8);
    frame.set(i + 3, (c / 0x1000000) as u8);
}

/// Fills the whole frame with one color.
pub fn clear_color(frame: &mut Vec<u8>, color: u32)
    requires
        old(frame)@.len() == FRAME_BYTES,
    ensures
        final(frame)@.len() == FRAME_BYTES,
        forall|xx: int, yy: int|
            0 <= xx < 320 && 0 <= yy < 200 ==> pixel_is(final(frame)@, xx, yy, color),
{
    let mut y: usize = 0;
    while y < HEIGHT
        invariant
            frame@.len() == FRAME_BYTES,
            y <= 200,
            forall|xx: int, yy: int| 0 <= xx < 320 && 0 <= yy < y ==> pixel_is(frame@, xx, yy, color),
        decreases 200 - y,
    {
        let mut x: usize = 0;
        while x < WIDTH
            invariant
                frame@.len() == FRAME_BYTES,
                x <= 320,
                y < 200,
                forall|xx: int, yy: int|
                    0 <= xx < 320 && 0 <= yy < y ==> pixel_is(frame@, xx, yy, color),
                forall|xx: int| 0 <= xx < x ==> pixel_is(frame@, xx, y as int, color),
            decreases 320 - x,
        {
            let ghost pre = frame@;
            put_pixel(frame, x, y, color);
            proof {
                assert forall|xx: int, yy: int|
                    0 <= xx < 320 && 0 <= yy < y implies pixel_is(frame@, xx, yy, color) by {
                    assert(pixel_unchanged(frame@, pre, xx, yy));
                    assert(pixel_is(pre, xx, yy, color));
                }
                assert forall|xx: int| 0 <= xx < x + 1 implies pixel_is(
                    frame@,
                    xx,
                    y as int,
                    color,
                ) by {
                    if xx < x {
                        assert(pixel_unchanged(frame@, pre, xx, y as int));
                        assert(pixel_is(pre, xx, y as int, color));
                    }
                }
            }
            x = x + 1;
        }
        y = y + 1;
    }
}

/// Clamps to `[lo, hi]` over the integers.
pub open spec fn clamp_spec(v: int, lo: int, hi: int) -> int {
    if v < lo {
        lo
    } else if v > hi {
        hi
    } else {
        v
    }
}

/// Fills the horizontal band of rows `clamp(y0)..clamp(y1)` with one
/// color; every row outside the band keeps its pixels.
pub fn draw_hsplit(frame: &mut Vec<u8>, y0: i64, y1: i64, color: u32)
    requires
        old(frame)@.len() == FRAME_BYTES,
    ensures
        final(frame)@.len() == FRAME_BYTES,
        forall|xx: int, yy: int|
            0 <= xx < 320 && clamp_spec(y0 as int, 0, 200) <= yy < clamp_spec(y1 as int, 0, 200)
                ==> pixel_is(final(frame)@, xx, yy, color),
        forall|xx: int, yy: int|
            0 <= xx < 320 && 0 <= yy < 200 && !(clamp_spec(y0 as int, 0, 200) <= yy < clamp_spec(
                y1 as int,
                0,
                200,
            )) ==> pixel_unchanged(final(frame)@, old(frame)@, xx, yy),
{
    let cy0: i64 = if y0 < 0 {
        0
    } else if y0 > 200 {
        200
    } else {
        y0
    };
    let cy1: i64 = if y1 < 0 {
        0
    } else if y1 > 200 {
        200
    } else {
        y1
    };
    let mut y: i64 = cy0;
    while y < cy1
        invariant
            frame@.len() == FRAME_BYTES,
            cy0 == clamp_spec(y0 as int, 0, 200),
            cy1 == clamp_spec(y1 as int, 0, 200),
            0 <= cy0 <= 200,
            0 <= cy1 <= 200,
            cy0 <= y,
            y <= 200,
            y <= cy1 || y == cy0,
            forall|xx: int, yy: int|
                0 <= xx < 320 && cy0 <= yy < y ==> pixel_is(frame@, xx, yy, color),
            forall|xx: int, yy: int|
                0 <= xx < 320 && 0 <= yy < 200 && !(cy0 <= yy < y) ==> pixel_unchanged(
                    frame@,
                    old(frame)@,
                    xx,
                    yy,
                ),
        decreases 200 - y,
    {
        let mut x: usize = 0;
        while x < WIDTH
            invariant
                frame@.len() == FRAME_BYTES,
                x <= 320,
                cy0 <= y < cy1 <= 200,
                0 <= cy0,
                forall|xx: int, yy: int|
                    0 <= xx < 320 && cy0 <= yy < y ==> pixel_is(frame@, xx, yy, color),
                forall|xx: int| 0 <= xx < x ==> pixel_is(frame@, xx, y as int, color),
                forall|xx: int, yy: int|
                    0 <= xx < 320 && 0 <= yy < 200 && !(cy0 <= yy < y) && !(yy == y && 0 <= xx < x)
                        ==> pixel_unchanged(frame@, old(frame)@, xx, yy),
            decreases 320 - x,
        {
            let ghost pre = frame@;
            put_pixel(frame, x, y as usize, color);
            proof {
                assert forall|xx: int, yy: int|
                    0 <= xx < 320 && cy0 <= yy < y implies pixel_is(frame@, xx, yy, color) by {
                    assert(pixel_unchanged(frame@, pre, xx, yy));
                    assert(pixel_is(pre, xx, yy, color));
                }
                assert forall|xx: int| 0 <= xx < x + 1 implies pixel_is(
                    frame@,
                    xx,
                    y as int,
                    color,
                ) by {
                    if xx < x {
                        assert(pixel_unchanged(frame@, pre, xx, y as int));
                        assert(pixel_is(pre, xx, y as int, color));
                    }
                }
                assert forall|xx: int, yy: int|
                    0 <= xx < 320 && 0 <= yy < 200 && !(cy0 <= yy < y) && !(yy == y && 0 <= xx < x
                        + 1) implies pixel_unchanged(frame@, old(frame)@, xx, yy) by {
                    assert(pixel_unchanged(frame@, pre, xx, yy));
                    assert(pixel_unchanged(pre, old(frame)@, xx, yy));
                }
            }
            x = x + 1;
        }
        y = y + 1;
    }
}

/// Fills the axis-aligned rectangle at `(x, y)` of size `w * h`,
/// clipped to the frame; everything outside keeps its pixels.
pub fn fill_rect(frame: &mut Vec<u8>, x: usize, y: usize, w: usize, h: usize, color: u32)
    requires
        old(frame)@.len() == FRAME_BYTES,
    ensures
        final(frame)@.len() == FRAME_BYTES,
        forall|xx: int, yy: int|
            x <= xx < x + w && xx < 320 && y <= yy < y + h && yy < 200 ==> pixel_is(
                final(frame)@,
                xx,
                yy,
                color,
            ),
        forall|xx: int, yy: int|
            0 <= xx < 320 && 0 <= yy < 200 && !(x <= xx < x + w && y <= yy < y + h)
                ==> pixel_unchanged(final(frame)@, old(frame)@, xx, yy),
{
    let hlim: usize = if y >= HEIGHT {
        0
    } else if h > HEIGHT - y {
        HEIGHT - y
    } else {
        h
    };
    let wlim: usize = if x >= WIDTH {
        0
    } else if w > WIDTH - x {
        WIDTH - x
    } else {
        w
    };
    let mut dy: usize = 0;
    while dy < hlim
        invariant
            frame@.len() == FRAME_BYTES,
            dy <= hlim,
            hlim == 0 || y + hlim <= 200,
            wlim == 0 || x + wlim <= 320,
            hlim <= h,
            wlim <= w,
            y + h <= 200 || y + hlim == 200 || hlim == 0,
            x + w <= 320 || x + wlim == 320 || wlim == 0,
            hlim == 0 ==> y >= 200 || h == 0,
            wlim == 0 ==> x >= 320 || w == 0,
            forall|xx: int, yy: int|
                x <= xx < x + wlim && y <= yy < y + dy ==> pixel_is(frame@, xx, yy, color),
            forall|xx: int, yy: int|
                0 <= xx < 320 && 0 <= yy < 200 && !(x <= xx < x + w && y <= yy < y + dy)
                    ==> pixel_unchanged(frame@, old(frame)@, xx, yy),
        decreases hlim - dy,
    {
        let yy: usize = y + dy;
        let mut dx: usize = 0;
        while dx < wlim
            invariant
                frame@.len() == FRAME_BYTES,
                dx <= wlim,
                yy == y + dy,
                dy < hlim,
                y + hlim <= 200,
                wlim == 0 || x + wlim <= 320,
                wlim <= w,
                forall|ax: int, ay: int|
                    x <= ax < x + wlim && y <= ay < y + dy ==> pixel_is(frame@, ax, ay, color),
                forall|ax: int| x <= ax < x + dx ==> pixel_is(frame@, ax, yy as int, color),
                forall|ax: int, ay: int|
                    0 <= ax < 320 && 0 <= ay < 200 && !(x <= ax < x + w && y <= ay < y + dy) && !(
                    ay == yy && x <= ax < x + dx) ==> pixel_unchanged(frame@, old(frame)@, ax, ay),
            decreases wlim - dx,
        {
            let xx: usize = x + dx;
            let ghost pre = frame@;
            put_pixel(frame, xx, yy, color);
            proof {
                assert forall|ax: int, ay: int|
                    x <= ax < x + wlim && y <= ay < y + dy implies pixel_is(
                    frame@,
                    ax,
                    ay,
                    color,
                ) by {
                    assert(pixel_unchanged(frame@, pre, ax, ay));
                    assert(pixel_is(pre, ax, ay, color));
                }
                assert forall|ax: int| x <= ax < x + dx + 1 implies pixel_is(
                    frame@,
                    ax,
                    yy as int,
                    color,
                ) by {
                    if ax < x + dx {
                        assert(pixel_unchanged(frame@, pre, ax, yy as int));
                        assert(pixel_is(pre, ax, yy as int, color));
                    }
                }
                assert forall|ax: int, ay: int|
                    0 <= ax < 320 && 0 <= ay < 200 && !(x <= ax < x + w && y <= ay < y + dy) && !(
                    ay == yy && x <= ax < x + dx + 1) implies pixel_unchanged(
                    frame@,
                    old(frame)@,
                    ax,
                    ay,
                ) by {
                    assert(pixel_unchanged(frame@, pre, ax, ay));
                    assert(pixel_unchanged(pre, old(frame)@, ax, ay));
                }
            }
            dx = dx + 1;
        }
        dy = dy + 1;
    }
}

/// The fixed wall palette: ids 1..=9 map to nine distinct opaque
/// colors, anything else to white.
pub open spec fn id_color_spec(id: u8) -> u32 {
    if id == 1 {
        0xcc4444ff
    } else if id == 2 {
        0x44cc44ff
    } else if id == 3 {
        0x4444ccff
    } else if id == 4 {
        0xcccc44ff
    } else if id == 5 {
        0x44ccccff
    } else if id == 6 {
        0xcc44ccff
    } else if id == 7 {
        0x88cc44ff
    } else if id == 8 {
        0x44cc88ff
    } else if id == 9 {
        0xcc8844ff
    } else {
        0xffffffff
    }
}

/// Base color for a wall id when no texture is bound to it.
pub fn id_to_color(id: u8) -> (c: u32)
    ensures
        c == id_color_spec(id),
{
    match id {
        1 => 0xcc4444ff,
        2 => 0x44cc44ff,
        3 => 0x4444ccff,
        4 => 0xcccc44ff,
        5 => 0x44ccccff,
        6 => 0xcc44ccff,
        7 => 0x88cc44ff,
        8 => 0x44cc88ff,
        9 => 0xcc8844ff,
        _ => 0xffffffff,
    }
}

/// One channel scaled by a fixed-point factor in `[0, 1]`.
pub open spec fn shade_byte(b: int, k: int) -> int {
    (b * k) / 65536
}

/// A packed color with its red, green and blue channels scaled by a
/// fixed-point factor; the alpha channel is kept.
pub open spec fn mul_color_spec(c: u32, k: int) -> int {
    shade_byte((c % 0x100) as int, k) + 0x100 * shade_byte(((c / 0x100) % 0x100) as int, k)
        + 0x10000 * shade_byte(((c / 0x10000) % 0x100) as int, k) + 0x1000000 * ((c
        / 0x1000000) as int)
}

/// Scales a color's RGB channels by a fixed-point intensity.
pub fn mul_color(c: u32, k: i64) -> (r: u32)
    requires
        0 <= k <= 65536,
    ensures
        r == mul_color_spec(c, k as int),
{
    let kk: u32 = k as u32;
    proof {
        assert((c % 0x100) * kk <= 255 * 65536) by (nonlinear_arith)
            requires
                c % 0x100 <= 255,
                kk <= 65536,
        ;
        assert(((c / 0x100) % 0x100) * kk <= 255 * 65536) by (nonlinear_arith)
            requires
                (c / 0x100) % 0x100 <= 255,
                kk <= 65536,
        ;
        assert(((c / 0x10000) % 0x100) * kk <= 255 * 65536) by (nonlinear_arith)
            requires
                (c / 0x10000) % 0x100 <= 255,
                kk <= 65536,
        ;
    }
    let r0: u32 = ((c % 0x100) * kk) / 65536;
    let r1: u32 = (((c / 0x100) % 0x100) * kk) / 65536;
    let r2: u32 = (((c / 0x10000) % 0x100) * kk) / 65536;
    let a: u32 = c / 0x1000000;
    r0 + 0x100 * r1 + 0x10000 * r2 + 0x1000000 * a
}

/// Every pixel either keeps its bytes or was painted white: the only
/// thing glyph drawing may do to the frame.
pub open spec fn pixel_white_or_same(frame: Seq<u8>, older: Seq<u8>, x: int, y: int) -> bool {
    pixel_unchanged(frame, older, x, y) || pixel_is(frame, x, y, 0xffffffffu32)
}

/// ASCII lowercase letters fold to their uppercase glyph.
pub open spec fn fold_upper_spec(ch: char) -> u32 {
    let u = ch as u32;
    if 97 <= u <= 122 {
        (u - 32) as u32
    } else {
        u
    }
}

/// The authored 5x7 glyph rows for a character; unmapped characters
/// give the blank glyph.
pub open spec fn glyph_spec(ch: char) -> Seq<u8> {
    let up = fold_upper_spec(ch);
    if up == 65 {
        seq![0b01110u8, 0b10001, 0b10001, 0b11111, 0b10001, 0b10001, 0b10001]
    } else if up == 67 {
        seq![0b01110u8, 0b10001, 0b10000, 0b10000, 0b10000, 0b10001, 0b01110]
    } else if up == 68 {
        seq![0b11110u8, 0b10001, 0b10001, 0b10001, 0b10001, 0b10001, 0b11110]
    } else if up == 69 {
        seq![0b11111u8, 0b10000, 0b11110, 0b10000, 0b10000, 0b10000, 0b11111]
    } else if up == 70 {
        seq![0b11111u8, 0b10000, 0b11110, 0b10000, 0b10000, 0b10000, 0b10000]
    } else if up == 71 {
        seq![0b01110u8, 0b10001, 0b10000, 0b10111, 0b10001, 0b10001, 0b01110]
    } else if up == 73 {
        seq![0b11111u8, 0b00100, 0b00100, 0b00100, 0b00100, 0b00100, 0b11111]
    } else if up == 74 {
        seq![0b00001u8, 0b00001, 0b00001, 0b00001, 0b10001, 0b10001, 0b01110]
    } else if up == 76 {
        seq![0b10000u8, 0b10000, 0b10000, 0b10000, 0b10000, 0b10000, 0b11111]
    } else if up == 77 {
        seq![0b10001u8, 0b11011, 0b10101, 0b10101, 0b10001, 0b10001, 0b10001]
    } else if up == 78 {
        seq![0b10001u8, 0b11001, 0b10101, 0b10011, 0b10001, 0b10001, 0b10001]
    } else if up == 79 {
        seq![0b01110u8, 0b10001, 0b10001, 0b10001, 0b10001, 0b10001, 0b01110]
    } else if up == 80 {
        seq![0b11110u8, 0b10001, 0b10001, 0b11110, 0b10000, 0b10000, 0b10000]
    } else if up == 82 {
        seq![0b11110u8, 0b10001, 0b10001, 0b11110, 0b10100, 0b10010, 0b10001]
    } else if up == 83 {
        seq![0b01111u8, 0b10000, 0b10000, 0b01110, 0b00001, 0b00001, 0b11110]
    } else if up == 84 {
        seq![0b11111u8, 0b00100, 0b00100, 0b00100, 0b00100, 0b00100, 0b00100]
    } else if up == 85 {
        seq![0b10001u8, 0b10001, 0b10001, 0b10001, 0b10001, 0b10001, 0b01110]
    } else if up == 86 {
        seq![0b10001u8, 0b10001, 0b10001, 0b10001, 0b01010, 0b01010, 0b00100]
    } else if up == 89 {
        seq![0b10001u8, 0b01010, 0b00100, 0b00100, 0b00100, 0b00100, 0b00100]
    } else if up == 33 {
        seq![0b00100u8, 0b00100, 0b00100, 0b00100, 0b00100, 0b00000, 0b00100]
    } else if up == 161 {
        seq![0b00100u8, 0b00100, 0b00100, 0b00100, 0b00100, 0b00000, 0b00100]
    } else if up == 58 {
        seq![0b00000u8, 0b00100, 0b00000, 0b00000, 0b00000, 0b00100, 0b00000]
    } else if up == 48 {
        seq![0b01110u8, 0b10001, 0b10011, 0b10101, 0b11001, 0b10001, 0b01110]
    } else if up == 49 {
        seq![0b00100u8, 0b01100, 0b00100, 0b00100, 0b00100, 0b00100, 0b01110]
    } else if up == 50 {
        seq![0b01110u8, 0b10001, 0b00001, 0b00110, 0b01000, 0b10000, 0b11111]
    } else if up == 51 {
        seq![0b11110u8, 0b00001, 0b00001, 0b01110, 0b00001, 0b00001, 0b11110]
    } else if up == 52 {
        seq![0b00010u8, 0b00110, 0b01010, 0b10010, 0b11111, 0b00010, 0b00010]
    } else if up == 53 {
        seq![0b11111u8, 0b10000, 0b11110, 0b00001, 0b00001, 0b10001, 0b01110]
    } else if up == 54 {
        seq![0b00110u8, 0b01000, 0b10000, 0b11110, 0b10001, 0b10001, 0b01110]
    } else if up == 55 {
        seq![0b11111u8, 0b00001, 0b00010, 0b00100, 0b01000, 0b01000, 0b01000]
    } else if up == 56 {
        seq![0b01110u8, 0b10001, 0b10001, 0b01110, 0b10001, 0b10001, 0b01110]
    } else if up == 57 {
        seq![0b01110u8, 0b10001, 0b10001, 0b01111, 0b00001, 0b00010, 0b01100]
    } else {
        seq![0u8, 0, 0, 0, 0, 0, 0]
    }
}

/// The 5x7 bitmap glyph for a character, row by row, low five bits
/// used, exactly as `glyph_spec` authors them; unknown characters give
/// the blank glyph. Case-insensitive.
pub fn font5x7(ch: char) -> (g: [u8; 7])
    ensures
        g@ == glyph_spec(ch),
        g@.len() == 7,
        forall|i: int| 0 <= i < 7 ==> #[trigger] g@[i] < 32,
{
    let u: u32 = ch as u32;
    let up: u32 = if 97 <= u && u <= 122 {
        u - 32
    } else {
        u
    };
    let g: [u8; 7] = match up {
        65 => [0b01110, 0b10001, 0b10001, 0b11111, 0b10001, 0b10001, 0b10001],
        67 => [0b01110, 0b10001, 0b10000, 0b10000, 0b10000, 0b10001, 0b01110],
        68 => [0b11110, 0b10001, 0b10001, 0b10001, 0b10001, 0b10001, 0b11110],
        69 => [0b11111, 0b10000, 0b11110, 0b10000, 0b10000, 0b10000, 0b11111],
        70 => [0b11111, 0b10000, 0b11110, 0b10000, 0b10000, 0b10000, 0b10000],
        71 => [0b01110, 0b10001, 0b10000, 0b10111, 0b10001, 0b10001, 0b01110],
        73 => [0b11111, 0b00100, 0b00100, 0b00100, 0b00100, 0b00100, 0b11111],
        74 => [0b00001, 0b00001, 0b00001, 0b00001, 0b10001, 0b10001, 0b01110],
        76 => [0b10000, 0b10000, 0b10000, 0b10000, 0b10000, 0b10000, 0b11111],
        77 => [0b10001, 0b11011, 0b10101, 0b10101, 0b10001, 0b10001, 0b10001],
        78 => [0b10001, 0b11001, 0b10101, 0b10011, 0b10001, 0b10001, 0b10001],
        79 => [0b01110, 0b10001, 0b10001, 0b10001, 0b10001, 0b10001, 0b01110],
        80 => [0b11110, 0b10001, 0b10001, 0b11110, 0b10000, 0b10000, 0b10000],
        82 => [0b11110, 0b10001, 0b10001, 0b11110, 0b10100, 0b10010, 0b10001],
        83 => [0b01111, 0b10000, 0b10000, 0b01110, 0b00001, 0b00001, 0b11110],
        84 => [0b11111, 0b00100, 0b00100, 0b00100, 0b00100, 0b00100, 0b00100],
        85 => [0b10001, 0b10001, 0b10001, 0b10001, 0b10001, 0b10001, 0b01110],
        86 => [0b10001, 0b10001, 0b10001, 0b10001, 0b01010, 0b01010, 0b00100],
        89 => [0b10001, 0b01010, 0b00100, 0b00100, 0b00100, 0b00100, 0b00100],
        33 => [0b00100, 0b00100, 0b00100, 0b00100, 0b00100, 0b00000, 0b00100],
        161 => [0b00100, 0b00100, 0b00100, 0b00100, 0b00100, 0b00000, 0b00100],
        58 => [0b00000, 0b00100, 0b00000, 0b00000, 0b00000, 0b00100, 0b00000],
        48 => [0b01110, 0b10001, 0b10011, 0b10101, 0b11001, 0b10001, 0b01110],
        49 => [0b00100, 0b01100, 0b00100, 0b00100, 0b00100, 0b00100, 0b01110],
        50 => [0b01110, 0b10001, 0b00001, 0b00110, 0b01000, 0b10000, 0b11111],
        51 => [0b11110, 0b00001, 0b00001, 0b01110, 0b00001, 0b00001, 0b11110],
        52 => [0b00010, 0b00110, 0b01010, 0b10010, 0b11111, 0b00010, 0b00010],
        53 => [0b11111, 0b10000, 0b11110, 0b00001, 0b00001, 0b10001, 0b01110],
        54 => [0b00110, 0b01000, 0b10000, 0b11110, 0b10001, 0b10001, 0b01110],
        55 => [0b11111, 0b00001, 0b00010, 0b00100, 0b01000, 0b01000, 0b01000],
        56 => [0b01110, 0b10001, 0b10001, 0b01110, 0b10001, 0b10001, 0b01110],
        57 => [0b01110, 0b10001, 0b10001, 0b01111, 0b00001, 0b00010, 0b01100],
        _ => [0, 0, 0, 0, 0, 0, 0],
    };
    proof {
        assert(g@ =~= glyph_spec(ch));
    }
    g
}

/// Glyph bit for the in-box offset `(dx, dy)`: column `dx` counts
/// from the glyph's left edge, taken from the row's low five bits.
pub open spec fn glyph_bit(ch: char, dx: int, dy: int) -> bool {
    (glyph_spec(ch)[dy] >> ((4 - dx) as u8)) & 1 == 1
}

/// One pixel of a glyph box drawn at `(x, y)`: white where the glyph
/// bit is set, the old bytes where it is not.
pub open spec fn glyph_pixel(
    frame: Seq<u8>,
    older: Seq<u8>,
    ch: char,
    x: int,
    y: int,
    ax: int,
    ay: int,
) -> bool {
    if glyph_bit(ch, ax - x, ay - y) {
        pixel_is(frame, ax, ay, 0xffffffffu32)
    } else {
        pixel_unchanged(frame, older, ax, ay)
    }
}

/// Draws one glyph with its top-left corner at `(x, y)`, clipped to
/// the frame: an on-screen pixel of the 5x7 box turns white exactly
/// when its glyph bit is set, and every other pixel of the frame
/// keeps its bytes.
pub fn draw_char(frame: &mut Vec<u8>, x: i64, y: i64, ch: char)
    requires
        old(frame)@.len() == FRAME_BYTES,
    ensures
        final(frame)@.len() == FRAME_BYTES,
        forall|ax: int, ay: int|
            0 <= ax < 320 && 0 <= ay < 200 ==> pixel_white_or_same(
                final(frame)@,
                old(frame)@,
                ax,
                ay,
            ),
        forall|ax: int, ay: int|
            #![trigger pixel_unchanged(final(frame)@, old(frame)@, ax, ay)]
            0 <= ax < 320 && 0 <= ay < 200 && !(x <= ax < x + 5 && y <= ay < y + 7)
                ==> pixel_unchanged(final(frame)@, old(frame)@, ax, ay),
        forall|ax: int, ay: int|
            #![trigger glyph_pixel(final(frame)@, old(frame)@, ch, x as int, y as int, ax, ay)]
            0 <= ax < 320 && 0 <= ay < 200 && x <= ax < x + 5 && y <= ay < y + 7 ==> glyph_pixel(
                final(frame)@,
                old(frame)@,
                ch,
                x as int,
                y as int,
                ax,
                ay,
            ),
{
    if x >= 320 || y >= 200 || x <= -6 || y <= -8 {
        return ;
    }
    let glyph = font5x7(ch);
    let mut yy: usize = 0;
    while yy < 7
        invariant
            frame@.len() == FRAME_BYTES,
            -6 < x < 320,
            -8 < y < 200,
            yy <= 7,
            glyph@ == glyph_spec(ch),
            forall|ax: int, ay: int|
                0 <= ax < 320 && 0 <= ay < 200 ==> pixel_white_or_same(frame@, old(frame)@, ax, ay),
            forall|ax: int, ay: int|
                #![trigger pixel_unchanged(frame@, old(frame)@, ax, ay)]
                0 <= ax < 320 && 0 <= ay < 200 && !(x <= ax < x + 5 && y <= ay < y + yy)
                    ==> pixel_unchanged(frame@, old(frame)@, ax, ay),
            forall|ax: int, ay: int|
                #![trigger glyph_pixel(frame@, old(frame)@, ch, x as int, y as int, ax, ay)]
                0 <= ax < 320 && 0 <= ay < 200 && x <= ax < x + 5 && y <= ay < y + yy
                    ==> glyph_pixel(frame@, old(frame)@, ch, x as int, y as int, ax, ay),
        decreases 7 - yy,
    {
        let row: u8 = glyph[yy];
        let mut xx: usize = 0;
        while xx < 5
            invariant
                frame@.len() == FRAME_BYTES,
                -6 < x < 320,
                -8 < y < 200,
                yy < 7,
                xx <= 5,
                glyph@ == glyph_spec(ch),
                row == glyph_spec(ch)[yy as int],
                forall|ax: int, ay: int|
                    0 <= ax < 320 && 0 <= ay < 200 ==> pixel_white_or_same(
                        frame@,
                        old(frame)@,
                        ax,
                        ay,
                    ),
                forall|ax: int, ay: int|
                    #![trigger pixel_unchanged(frame@, old(frame)@, ax, ay)]
                    0 <= ax < 320 && 0 <= ay < 200 && !(x <= ax < x + 5 && y <= ay < y + yy) && !(
                    ay == y + yy && x <= ax < x + xx) ==> pixel_unchanged(
                        frame@,
                        old(frame)@,
                        ax,
                        ay,
                    ),
                forall|ax: int, ay: int|
                    #![trigger glyph_pixel(frame@, old(frame)@, ch, x as int, y as int, ax, ay)]
                    0 <= ax < 320 && 0 <= ay < 200 && x <= ax < x + 5 && (y <= ay < y + yy || (ay
                        == y + yy && ax < x + xx)) ==> glyph_pixel(
                        frame@,
                        old(frame)@,
                        ch,
                        x as int,
                        y as int,
                        ax,
                        ay,
                    ),
            decreases 5 - xx,
        {
            let lit: bool = (row >> (4 - xx) as u8) & 1 == 1;
            proof {
                assert(lit == glyph_bit(ch, xx as int, yy as int));
            }
            let px: i64 = x + xx as i64;
            let py: i64 = y + yy as i64;
            if lit && px >= 0 && px < 320 && py >= 0 && py < 200 {
                let ghost pre = frame@;
                put_pixel(frame, px as usize, py as usize, 0xffffffffu32);
                proof {
                    assert forall|ax: int, ay: int|
                        0 <= ax < 320 && 0 <= ay < 200 implies pixel_white_or_same(
                        frame@,
                        old(frame)@,
                        ax,
                        ay,
                    ) by {
                        if ax == px && ay == py {
                        } else {
                            assert(pixel_unchanged(frame@, pre, ax, ay));
                            assert(pixel_white_or_same(pre, old(frame)@, ax, ay));
                        }
                    }
                    assert forall|ax: int, ay: int|
                        #![trigger pixel_unchanged(frame@, old(frame)@, ax, ay)]
                        0 <= ax < 320 && 0 <= ay < 200 && !(x <= ax < x + 5 && y <= ay < y + yy)
                            && !(ay == y + yy && x <= ax < x + xx + 1) implies pixel_unchanged(
                        frame@,
                        old(frame)@,
                        ax,
                        ay,
                    ) by {
                        assert(pixel_unchanged(frame@, pre, ax, ay));
                        assert(pixel_unchanged(pre, old(frame)@, ax, ay));
                    }
                    assert forall|ax: int, ay: int|
                        #![trigger glyph_pixel(frame@, old(frame)@, ch, x as int, y as int, ax, ay)]
                        0 <= ax < 320 && 0 <= ay < 200 && x <= ax < x + 5 && (y <= ay < y + yy || (
                        ay == y + yy && ax < x + xx + 1)) implies glyph_pixel(
                        frame@,
                        old(frame)@,
                        ch,
                        x as int,
                        y as int,
                        ax,
                        ay,
                    ) by {
                        if ax == px && ay == py {
                            assert(glyph_bit(ch, ax - x, ay - y));
                            assert(pixel_is(frame@, ax, ay, 0xffffffffu32));
                        } else {
                            assert(pixel_unchanged(frame@, pre, ax, ay));
                            if y <= ay < y + yy || (ay == y + yy && ax < x + xx) {
                                assert(glyph_pixel(pre, old(frame)@, ch, x as int, y as int, ax, ay));
                            } else {
                                // only the pixel just written is left, and the
                                // enclosing branch already handled it
                                assert(ay == y + yy && ax == x + xx);
                                assert(ax == px && ay == py);
                            }
                        }
                    }
                }
            } else {
                proof {
                    assert forall|ax: int, ay: int|
                        #![trigger glyph_pixel(frame@, old(frame)@, ch, x as int, y as int, ax, ay)]
                        0 <= ax < 320 && 0 <= ay < 200 && x <= ax < x + 5 && (y <= ay < y + yy || (
                        ay == y + yy && ax < x + xx + 1)) implies glyph_pixel(
                        frame@,
                        old(frame)@,
                        ch,
                        x as int,
                        y as int,
                        ax,
                        ay,
                    ) by {
                        if y <= ay < y + yy || (ay == y + yy && ax < x + xx) {
                            assert(glyph_pixel(frame@, old(frame)@, ch, x as int, y as int, ax, ay));
                        } else {
                            assert(ay == y + yy && ax == x + xx);
                            assert(0 <= px < 320 && 0 <= py < 200);
                            assert(!lit);
                            assert(!glyph_bit(ch, ax - x, ay - y));
                            assert(pixel_unchanged(frame@, old(frame)@, ax, ay));
                        }
                    }
                }
            }
            xx = xx + 1;
        }
        yy = yy + 1;
    }
}

/// Draws a text run left to right, six pixels of advance per
/// character, spaces only advancing: each character's on-screen glyph
/// box follows its glyph bits exactly, and everything outside the
/// run's band keeps its bytes.
pub fn draw_text(frame: &mut Vec<u8>, x: i64, y: i64, s: &str)
    requires
        old(frame)@.len() == FRAME_BYTES,
    ensures
        final(frame)@.len() == FRAME_BYTES,
        forall|ax: int, ay: int|
            0 <= ax < 320 && 0 <= ay < 200 ==> pixel_white_or_same(
                final(frame)@,
                old(frame)@,
                ax,
                ay,
            ),
        forall|ax: int, ay: int|
            #![trigger pixel_unchanged(final(frame)@, old(frame)@, ax, ay)]
            0 <= ax < 320 && 0 <= ay < 200 && !(x <= ax < x + 6 * s@.len() && y <= ay < y + 7)
                ==> pixel_unchanged(final(frame)@, old(frame)@, ax, ay),
        forall|k: int, ax: int, ay: int|
            #![trigger glyph_pixel(final(frame)@, old(frame)@, s@[k], x + 6 * k, y as int, ax, ay)]
            0 <= k < s@.len() && s@[k] != ' ' && 0 <= ax < 320 && 0 <= ay < 200 && x + 6 * k <= ax
                < x + 6 * k + 5 && y <= ay < y + 7 ==> glyph_pixel(
                final(frame)@,
                old(frame)@,
                s@[k],
                x + 6 * k,
                y as int,
                ax,
                ay,
            ),
{
    if x >= 320 {
        return ;
    }
    let n: usize = s.unicode_len();
    let mut cx: i64 = x;
    let mut i: usize = 0;
    while i < n
        invariant
            frame@.len() == FRAME_BYTES,
            n == s@.len(),
            cx < 320,
            i <= n,
            cx == x + 6 * i,
            forall|ax: int, ay: int|
                0 <= ax < 320 && 0 <= ay < 200 ==> pixel_white_or_same(frame@, old(frame)@, ax, ay),
            forall|ax: int, ay: int|
                #![trigger pixel_unchanged(frame@, old(frame)@, ax, ay)]
                0 <= ax < 320 && 0 <= ay < 200 && !(x <= ax < x + 6 * i && y <= ay < y + 7)
                    ==> pixel_unchanged(frame@, old(frame)@, ax, ay),
            forall|k: int, ax: int, ay: int|
                #![trigger glyph_pixel(frame@, old(frame)@, s@[k], x + 6 * k, y as int, ax, ay)]
                0 <= k < i && s@[k] != ' ' && 0 <= ax < 320 && 0 <= ay < 200 && x + 6 * k <= ax < x
                    + 6 * k + 5 && y <= ay < y + 7 ==> glyph_pixel(
                    frame@,
                    old(frame)@,
                    s@[k],
                    x + 6 * k,
                    y as int,
                    ax,
                    ay,
                ),
        decreases n - i,
    {
        let c = s.get_char(i);
        if c != ' ' {
            let ghost pre = frame@;
            draw_char(frame, cx, y, c);
            proof {
                assert forall|ax: int, ay: int|
                    0 <= ax < 320 && 0 <= ay < 200 implies pixel_white_or_same(
                    frame@,
                    old(frame)@,
                    ax,
                    ay,
                ) by {
                    assert(pixel_white_or_same(frame@, pre, ax, ay));
                    assert(pixel_white_or_same(pre, old(frame)@, ax, ay));
                }
                assert forall|ax: int, ay: int|
                    #![trigger pixel_unchanged(frame@, old(frame)@, ax, ay)]
                    0 <= ax < 320 && 0 <= ay < 200 && !(x <= ax < x + 6 * (i + 1) && y <= ay < y
                        + 7) implies pixel_unchanged(frame@, old(frame)@, ax, ay) by {
                    assert(pixel_unchanged(frame@, pre, ax, ay));
                    assert(pixel_unchanged(pre, old(frame)@, ax, ay));
                }
                assert forall|k: int, ax: int, ay: int|
                    #![trigger glyph_pixel(frame@, old(frame)@, s@[k], x + 6 * k, y as int, ax, ay)]
                    0 <= k < i + 1 && s@[k] != ' ' && 0 <= ax < 320 && 0 <= ay < 200 && x + 6 * k
                        <= ax < x + 6 * k + 5 && y <= ay < y + 7 implies glyph_pixel(
                    frame@,
                    old(frame)@,
                    s@[k],
                    x + 6 * k,
                    y as int,
                    ax,
                    ay,
                ) by {
                    if k < i {
                        assert(glyph_pixel(pre, old(frame)@, s@[k], x + 6 * k, y as int, ax, ay));
                        assert(ax < cx);
                        assert(pixel_unchanged(frame@, pre, ax, ay));
                    } else {
                        assert(k == i);
                        assert(glyph_pixel(frame@, pre, s@[k], cx as int, y as int, ax, ay));
                        assert(pixel_unchanged(pre, old(frame)@, ax, ay));
                    }
                }
            }
        }
        if cx >= 314 {
            return ;
        }
        cx = cx + 6;
        i = i + 1;
    }
}

/// Draws a text run horizontally centered on the frame.
pub fn draw_centered_text(frame: &mut Vec<u8>, s: &str, y: i64)
    requires
        old(frame)@.len() == FRAME_BYTES,
    ensures
        final(frame)@.len() == FRAME_BYTES,
        forall|ax: int, ay: int|
            0 <= ax < 320 && 0 <= ay < 200 ==> pixel_white_or_same(
                final(frame)@,
                old(frame)@,
                ax,
                ay,
            ),
        forall|ax: int, ay: int|
            #![trigger pixel_unchanged(final(frame)@, old(frame)@, ax, ay)]
            0 <= ax < 320 && 0 <= ay < 200 && !(y <= ay < y + 7) ==> pixel_unchanged(
                final(frame)@,
                old(frame)@,
                ax,
                ay,
            ),
{
    let n: usize = s.unicode_len();
    let nn: i64 = if n > 4096 {
        4096
    } else {
        n as i64
    };
    let w: i64 = nn * 6;
    let x: i64 = if w <= 320 {
        (320 - w) / 2
    } else {
        -(((w - 320) as u64 / 2) as i64)
    };
    draw_text(frame, x, y, s);
}

/// Draws an unsigned number in decimal, six pixels of advance per
/// digit.
pub fn draw_number(frame: &mut Vec<u8>, x: i64, y: i64, n: u32)
    requires
        old(frame)@.len() == FRAME_BYTES,
    ensures
        final(frame)@.len() == FRAME_BYTES,
        forall|ax: int, ay: int|
            0 <= ax < 320 && 0 <= ay < 200 ==> pixel_white_or_same(
                final(frame)@,
                old(frame)@,
                ax,
                ay,
            ),
        forall|ax: int, ay: int|
            #![trigger pixel_unchanged(final(frame)@, old(frame)@, ax, ay)]
            0 <= ax < 320 && 0 <= ay < 200 && !(x <= ax < x + 60 && y <= ay < y + 7)
                ==> pixel_unchanged(final(frame)@, old(frame)@, ax, ay),
{
    let mut digits: Vec<u8> = Vec::new();
    if n == 0 {
        digits.push(48);
    } else {
        let mut m: u32 = n;
        while m > 0
            invariant
                digits@.len() <= 10,
                m <= 0xffff_ffff,
            decreases m,
        {
            if digits.len() < 10 {
                digits.push(48 + (m % 10) as u8);
            }
            m = m / 10;
        }
    }
    let mut j: usize = 0;
    let start: i64 = if x < 320 {
        x
    } else {
        320
    };
    let mut cx: i64 = start;
    while j < digits.len()
        invariant
            frame@.len() == FRAME_BYTES,
            cx <= 320,
            digits@.len() <= 10,
            j <= digits@.len(),
            start == x || (start == 320 && x >= 320),
            cx == start + 6 * j,
            forall|ax: int, ay: int|
                0 <= ax < 320 && 0 <= ay < 200 ==> pixel_white_or_same(frame@, old(frame)@, ax, ay),
            forall|ax: int, ay: int|
                #![trigger pixel_unchanged(frame@, old(frame)@, ax, ay)]
                0 <= ax < 320 && 0 <= ay < 200 && !(x <= ax < x + 60 && y <= ay < y + 7)
                    ==> pixel_unchanged(frame@, old(frame)@, ax, ay),
        decreases digits@.len() - j,
    {
        let d: u8 = digits[digits.len() - 1 - j];
        let ghost pre = frame@;
        draw_char(frame, cx, y, d as char);
        proof {
            assert forall|ax: int, ay: int|
                0 <= ax < 320 && 0 <= ay < 200 implies pixel_white_or_same(
                frame@,
                old(frame)@,
                ax,
                ay,
            ) by {
                assert(pixel_white_or_same(frame@, pre, ax, ay));
                assert(pixel_white_or_same(pre, old(frame)@, ax, ay));
            }
            assert forall|ax: int, ay: int|
                #![trigger pixel_unchanged(frame@, old(frame)@, ax, ay)]
                0 <= ax < 320 && 0 <= ay < 200 && !(x <= ax < x + 60 && y <= ay < y + 7)
                implies pixel_unchanged(frame@, old(frame)@, ax, ay) by {
                if x >= 320 {
                    assert(cx >= 320);
                    assert(!(cx <= ax < cx + 5));
                } else {
                    assert(start == x);
                    assert(cx == x + 6 * j);
                    assert(!(cx <= ax < cx + 5 && y <= ay < y + 7));
                }
                assert(pixel_unchanged(frame@, pre, ax, ay));
                assert(pixel_unchanged(pre, old(frame)@, ax, ay));
            }
        }
        if cx >= 314 {
            return ;
        }
        cx = cx + 6;
        j = j + 1;
    }
}

/// Sentinel crossing distance for a ray parallel to an axis: the
/// distance a component of one least-significant unit would give.
pub const DELTA_CAP: i64 = 0x1_0000_0000;

/// Floor below which a perpendicular distance is clamped, so the
/// projection never divides by (nearly) zero.
pub const PERP_MIN: i64 = 7;

/// Camera-space offset of a column: `2 * x / WIDTH - 1` in fixed
/// point, within `[-1, 1]`.
pub open spec fn camera_x_spec(x: int) -> int {
    (131072 * x) / 320 - 65536
}

/// Per-axis crossing distance: how far the ray travels to cross one
/// full cell along the axis (`|1 / component|`), with the sentinel for
/// a zero component.
pub open spec fn delta_dist_spec(rd: int) -> int {
    if rd == 0 {
        DELTA_CAP as int
    } else {
        crate::fixed::abs_i(fx_div_spec(65536, rd))
    }
}

/// Which way the traversal steps on an axis.
pub open spec fn step_dir_spec(rd: int) -> int {
    if rd < 0 {
        -1int
    } else {
        1int
    }
}

/// Distance along the ray from the start position to the first grid
/// line crossed on an axis.
pub open spec fn side_dist_init_spec(pos: int, rd: int, delta: int) -> int {
    let cell = fx_floor_spec(pos);
    if rd < 0 {
        fx_mul_spec(pos - 65536 * cell, delta)
    } else {
        fx_mul_spec(65536 * cell + 65536 - pos, delta)
    }
}

/// The DDA traversal: repeatedly advance the axis with the smaller
/// accumulated side distance until the entered cell is a wall. The
/// fuel only serves termination of the definition; the traversal
/// always hits the infinite wall border first.
pub open spec fn dda_spec(
    w: World,
    mx: int,
    my: int,
    sdx: int,
    sdy: int,
    ddx: int,
    ddy: int,
    stx: int,
    sty: int,
    side: int,
    fuel: nat,
) -> (int, int, int)
    decreases fuel,
{
    if fuel == 0 {
        (mx, my, side)
    } else if sdx < sdy {
        let nmx = mx + stx;
        if w.is_wall_at(nmx, my) {
            (nmx, my, 0int)
        } else {
            dda_spec(w, nmx, my, sdx + ddx, sdy, ddx, ddy, stx, sty, 0, (fuel - 1) as nat)
        }
    } else {
        let nmy = my + sty;
        if w.is_wall_at(mx, nmy) {
            (mx, nmy, 1int)
        } else {
            dda_spec(w, mx, nmy, sdx, sdy + ddy, ddx, ddy, stx, sty, 1, (fuel - 1) as nat)
        }
    }
}

/// Cells left before the traversal walks off the stepped side of the
/// grid on one axis; past the border every cell is wall.
pub open spec fn axis_rem(cell: int, step: int, size: int) -> int {
    let r = if step > 0 {
        size - cell
    } else {
        cell + 1
    };
    if r < 0 {
        0
    } else {
        r
    }
}

/// Fuel that always outlasts the traversal: one more than the cells
/// left to the border on both axes together.
pub open spec fn dda_fuel(w: World, mx: int, my: int, stx: int, sty: int) -> nat {
    (axis_rem(mx, stx, w.map.width as int) + axis_rem(my, sty, w.map.height as int) + 1) as nat
}

/// The perpendicular (viewing-axis) distance of a hit, computed
/// algebraically from the hit cell, the step direction and the start
/// position — the form that avoids fisheye distortion.
pub open spec fn perp_raw_spec(
    p: Player,
    rdx: int,
    rdy: int,
    hx: int,
    hy: int,
    side: int,
    stx: int,
    sty: int,
) -> int {
    if side == 0 {
        if rdx == 0 {
            PERP_MIN as int
        } else {
            fx_div_spec(
                65536 * hx - p.pos.x + (if stx < 0 {
                    65536int
                } else {
                    0int
                }),
                rdx,
            )
        }
    } else {
        if rdy == 0 {
            PERP_MIN as int
        } else {
            fx_div_spec(
                65536 * hy - p.pos.y + (if sty < 0 {
                    65536int
                } else {
                    0int
                }),
                rdy,
            )
        }
    }
}

/// Everything one cast returns: hit cell, hit axis and clamped
/// perpendicular distance, as `(map_x, map_y, side, perp)`.
pub open spec fn cast_ray_spec(w: World, p: Player, x: int) -> (int, int, int, int) {
    let camx = camera_x_spec(x);
    let rdx = p.dir.x + fx_mul_spec(p.plane.x as int, camx);
    let rdy = p.dir.y + fx_mul_spec(p.plane.y as int, camx);
    let ddx = delta_dist_spec(rdx);
    let ddy = delta_dist_spec(rdy);
    let stx = step_dir_spec(rdx);
    let sty = step_dir_spec(rdy);
    let mx0 = fx_floor_spec(p.pos.x as int);
    let my0 = fx_floor_spec(p.pos.y as int);
    let sdx = side_dist_init_spec(p.pos.x as int, rdx, ddx);
    let sdy = side_dist_init_spec(p.pos.y as int, rdy, ddy);
    let hit = dda_spec(
        w,
        mx0,
        my0,
        sdx,
        sdy,
        ddx,
        ddy,
        stx,
        sty,
        0,
        dda_fuel(w, mx0, my0, stx, sty),
    );
    let raw = perp_raw_spec(p, rdx, rdy, hit.0, hit.1, hit.2, stx, sty);
    let perp = if raw < PERP_MIN {
        PERP_MIN as int
    } else {
        raw
    };
    (hit.0, hit.1, hit.2, perp)
}

/// One DDA hit: the wall cell, the axis the final step crossed
/// (side 0 crossed an X grid line, 1 a Y grid line) and the clamped
/// fixed-point perpendicular distance.
#[derive(Clone, Copy, PartialEq, Eq, Structural, Debug)]
pub struct RayHit {
    pub map_x: i64,
    pub map_y: i64,
    pub side: u8,
    pub perp: i64,
}

/// Casts the ray of one screen column through the grid and returns the
/// first wall it enters, exactly as the traversal model specifies.
/// Termination is owed to the infinite wall border alone.
#[verifier::rlimit(80)]
pub fn cast_ray(world: &World, player: &Player, x: usize) -> (h: RayHit)
    requires
        world.wf(),
        player.inv(),
        x < WIDTH,
    ensures
        ({
            let r = cast_ray_spec(*world, *player, x as int);
            h.map_x == r.0 && h.map_y == r.1 && h.side == r.2 && h.perp == r.3
        }),
        world.is_wall_at(h.map_x as int, h.map_y as int),
        PERP_MIN <= h.perp,
        h.side == 0 || h.side == 1,
{
    let camx: i64 = ((131072u64 * (x as u64)) / 320) as i64 - 65536;
    proof {
        lemma_fx_mul_abs(player.plane.x as int, camx as int, 0x100_0000, 65536);
        lemma_fx_mul_abs(player.plane.y as int, camx as int, 0x100_0000, 65536);
    }
    let rdx: i64 = player.dir.x + fx_mul(player.plane.x, camx);
    let rdy: i64 = player.dir.y + fx_mul(player.plane.y, camx);
    let ddx: i64 = if rdx == 0 {
        DELTA_CAP
    } else {
        proof {
            lemma_fx_div_abs(65536, rdx as int);
        }
        let q = fx_div(65536, rdx);
        if q < 0 {
            -q
        } else {
            q
        }
    };
    let ddy: i64 = if rdy == 0 {
        DELTA_CAP
    } else {
        proof {
            lemma_fx_div_abs(65536, rdy as int);
        }
        let q = fx_div(65536, rdy);
        if q < 0 {
            -q
        } else {
            q
        }
    };
    let stx: i64 = if rdx < 0 {
        -1
    } else {
        1
    };
    let sty: i64 = if rdy < 0 {
        -1
    } else {
        1
    };
    let mx0: i64 = fx_floor(player.pos.x);
    let my0: i64 = fx_floor(player.pos.y);
    proof {
        vstd::arithmetic::div_mod::lemma_fundamental_div_mod(player.pos.x as int, 65536);
        vstd::arithmetic::div_mod::lemma_fundamental_div_mod(player.pos.y as int, 65536);
        vstd::arithmetic::div_mod::lemma_div_is_ordered(
            -0x1000_0000_0000,
            player.pos.x as int,
            65536,
        );
        vstd::arithmetic::div_mod::lemma_div_is_ordered(
            player.pos.x as int,
            0x1000_0000_0000,
            65536,
        );
        vstd::arithmetic::div_mod::lemma_div_is_ordered(
            -0x1000_0000_0000,
            player.pos.y as int,
            65536,
        );
        vstd::arithmetic::div_mod::lemma_div_is_ordered(
            player.pos.y as int,
            0x1000_0000_0000,
            65536,
        );
        lemma_fx_mul_abs(player.pos.x - 65536 * (mx0 as int), ddx as int, 65536, DELTA_CAP as int);
        lemma_fx_mul_abs(
            65536 * (mx0 as int) + 65536 - player.pos.x,
            ddx as int,
            65536,
            DELTA_CAP as int,
        );
        lemma_fx_mul_abs(player.pos.y - 65536 * (my0 as int), ddy as int, 65536, DELTA_CAP as int);
        lemma_fx_mul_abs(
            65536 * (my0 as int) + 65536 - player.pos.y,
            ddy as int,
            65536,
            DELTA_CAP as int,
        );
    }
    let sdx0: i64 = if rdx < 0 {
        fx_mul(player.pos.x - 65536 * mx0, ddx)
    } else {
        fx_mul(65536 * mx0 + 65536 - player.pos.x, ddx)
    };
    let sdy0: i64 = if rdy < 0 {
        fx_mul(player.pos.y - 65536 * my0, ddy)
    } else {
        fx_mul(65536 * my0 + 65536 - player.pos.y, ddy)
    };
    let mut mx: i64 = mx0;
    let mut my: i64 = my0;
    let mut sdx: i64 = sdx0;
    let mut sdy: i64 = sdy0;
    let mut side: u8 = 0;
    let ghost fuel0: nat = dda_fuel(*world, mx0 as int, my0 as int, stx as int, sty as int);
    let ghost m_init: int = axis_rem(mx0 as int, stx as int, world.map.width as int) + axis_rem(
        my0 as int,
        sty as int,
        world.map.height as int,
    );
    let ghost mut steps: int = 0;
    loop
        invariant_except_break
            world.wf(),
            stx == 1 || stx == -1,
            sty == 1 || sty == -1,
            0 <= ddx <= DELTA_CAP,
            0 <= ddy <= DELTA_CAP,
            -0x1000_0000 <= mx0 <= 0x1000_0000,
            -0x1000_0000 <= my0 <= 0x1000_0000,
            0 <= sdx0 <= DELTA_CAP,
            0 <= sdy0 <= DELTA_CAP,
            steps == 0 ==> mx == mx0 && my == my0 && sdx == sdx0 && sdy == sdy0 && side == 0,
            steps > 0 ==> 0 <= mx < world.map.width && 0 <= my < world.map.height,
            0 <= steps <= m_init <= 0x4000_0000,
            steps + axis_rem(mx as int, stx as int, world.map.width as int) + axis_rem(
                my as int,
                sty as int,
                world.map.height as int,
            ) == m_init,
            fuel0 == m_init + 1,
            0 <= sdx <= 0x1_0000_0000 * (1 + steps),
            0 <= sdy <= 0x1_0000_0000 * (1 + steps),
            side == 0 || side == 1,
            dda_spec(
                *world,
                mx0 as int,
                my0 as int,
                sdx0 as int,
                sdy0 as int,
                ddx as int,
                ddy as int,
                stx as int,
                sty as int,
                0,
                fuel0,
            ) == dda_spec(
                *world,
                mx as int,
                my as int,
                sdx as int,
                sdy as int,
                ddx as int,
                ddy as int,
                stx as int,
                sty as int,
                side as int,
                (fuel0 - steps) as nat,
            ),
        ensures
            world.is_wall_at(mx as int, my as int),
            side == 0 || side == 1,
            (mx as int, my as int, side as int) == dda_spec(
                *world,
                mx0 as int,
                my0 as int,
                sdx0 as int,
                sdy0 as int,
                ddx as int,
                ddy as int,
                stx as int,
                sty as int,
                0,
                fuel0,
            ),
            -0x1000_0001 <= mx <= 0x1000_0001,
            -0x1000_0001 <= my <= 0x1000_0001,
        decreases axis_rem(mx as int, stx as int, world.map.width as int) + axis_rem(
            my as int,
            sty as int,
            world.map.height as int,
        ),
    {
        let ghost pre_mx: int = mx as int;
        let ghost pre_my: int = my as int;
        let ghost pre_sdx: int = sdx as int;
        let ghost pre_sdy: int = sdy as int;
        let ghost pre_side: int = side as int;
        let ghost pre_steps: int = steps;
        if sdx < sdy {
            sdx = sdx + ddx;
            mx = mx + stx;
            side = 0;
        } else {
            sdy = sdy + ddy;
            my = my + sty;
            side = 1;
        }
        proof {
            steps = steps + 1;
            assert(fuel0 - pre_steps >= 1);
            assert(dda_spec(
                *world,
                pre_mx,
                pre_my,
                pre_sdx,
                pre_sdy,
                ddx as int,
                ddy as int,
                stx as int,
                sty as int,
                pre_side,
                (fuel0 - pre_steps) as nat,
            ) == (if world.is_wall_at(mx as int, my as int) {
                (mx as int, my as int, side as int)
            } else {
                dda_spec(
                    *world,
                    mx as int,
                    my as int,
                    sdx as int,
                    sdy as int,
                    ddx as int,
                    ddy as int,
                    stx as int,
                    sty as int,
                    side as int,
                    (fuel0 - steps) as nat,
                )
            }));
        }
        if world.is_wall(mx, my) {
            break ;
        }
    }
    let num: i64 = if side == 0 {
        65536 * mx - player.pos.x + (if stx < 0 {
            65536
        } else {
            0
        })
    } else {
        65536 * my - player.pos.y + (if sty < 0 {
            65536
        } else {
            0
        })
    };
    let rd: i64 = if side == 0 {
        rdx
    } else {
        rdy
    };
    let raw: i64 = if rd == 0 {
        PERP_MIN
    } else {
        fx_div(num, rd)
    };
    let perp: i64 = if raw < PERP_MIN {
        PERP_MIN
    } else {
        raw
    };
    RayHit { map_x: mx, map_y: my, side, perp }
}

/// Projected column height in pixels for a clamped perpendicular
/// distance: screen height over the distance.
pub open spec fn column_lh_spec(perp: int) -> int {
    13107200int / perp
}

/// First and last row of a column's wall span: the height centered on
/// the screen's vertical midpoint, clipped to the frame.
pub open spec fn column_ds_spec(perp: int) -> int {
    let half = column_lh_spec(perp) / 2;
    if 100 - half < 0 {
        0
    } else {
        100 - half
    }
}

pub open spec fn column_de_spec(perp: int) -> int {
    let half = column_lh_spec(perp) / 2;
    if 100 + half > 199 {
        199
    } else {
        100 + half
    }
}

/// Distance shading: `1 / (1 + perp / 10)` capped at one, darkened by
/// a fixed factor when the hit crossed a Y grid line.
pub open spec fn column_shade_spec(perp: int, side: int) -> int {
    let s0 = fx_div_spec(65536, 65536 + perp / 10);
    if side == 1 {
        fx_mul_spec(s0, 55705)
    } else {
        s0
    }
}

/// The color a column's wall span is painted: the hit tile's palette
/// color scaled by the distance shade.
pub open spec fn column_color_spec(w: World, p: Player, x: int) -> u32 {
    let r = cast_ray_spec(w, p, x);
    let base = id_color_spec(w.map.tile_at(r.0, r.1));
    mul_color_spec(base, column_shade_spec(r.3, r.2)) as u32
}

/// Pixel `(xx, yy)` lies inside the wall span of its own column.
pub open spec fn in_column_span(w: World, p: Player, xx: int, yy: int) -> bool {
    column_ds_spec(cast_ray_spec(w, p, xx).3) <= yy <= column_de_spec(cast_ray_spec(w, p, xx).3)
}

/// Column `x` of the frame holds its wall span, painted in its shaded
/// color over the whole projected extent.
pub open spec fn column_painted(frame: Seq<u8>, w: World, p: Player, x: int) -> bool {
    forall|y: int|
        column_ds_spec(cast_ray_spec(w, p, x).3) <= y <= column_de_spec(cast_ray_spec(w, p, x).3)
            ==> pixel_is(frame, x, y, column_color_spec(w, p, x))
}

/// Renders every screen column: casts the column's ray, fills the
/// column's vertical wall span with the distance-shaded palette color
/// of the hit tile, and records the perpendicular distance in the
/// depth buffer. Both buffers are pinned to the traversal model, so
/// identical inputs give identical buffers.
pub fn cast_walls(frame: &mut Vec<u8>, world: &World, player: &Player, zbuf: &mut Vec<i64>)
    requires
        old(frame)@.len() == FRAME_BYTES,
        old(zbuf)@.len() == WIDTH,
        world.wf(),
        player.inv(),
    ensures
        final(frame)@.len() == FRAME_BYTES,
        final(zbuf)@.len() == WIDTH,
        forall|i: int|
            0 <= i < 320 ==> #[trigger] final(zbuf)@[i] == cast_ray_spec(*world, *player, i).3,
        forall|i: int| 0 <= i < 320 ==> #[trigger] column_painted(final(frame)@, *world, *player, i),
        forall|xx: int, yy: int|
            0 <= xx < 320 && 0 <= yy < 200 && !in_column_span(*world, *player, xx, yy)
                ==> #[trigger] pixel_unchanged(final(frame)@, old(frame)@, xx, yy),
{
    let mut x: usize = 0;
    while x < WIDTH
        invariant
            frame@.len() == FRAME_BYTES,
            zbuf@.len() == WIDTH,
            world.wf(),
            player.inv(),
            x <= 320,
            forall|i: int| 0 <= i < x ==> #[trigger] zbuf@[i] == cast_ray_spec(*world, *player, i).3,
            forall|i: int| 0 <= i < x ==> #[trigger] column_painted(frame@, *world, *player, i),
            forall|xx: int, yy: int|
                0 <= xx < 320 && 0 <= yy < 200 && !(xx < x && in_column_span(
                    *world,
                    *player,
                    xx,
                    yy,
                )) ==> #[trigger] pixel_unchanged(frame@, old(frame)@, xx, yy),
        decreases 320 - x,
    {
        let h = cast_ray(world, player, x);
        zbuf.set(x, h.perp);
        let id: u8 = world.tile_id(h.map_x, h.map_y);
        let base: u32 = id_to_color(id);
        let tenth: i64 = ((h.perp as u64) / 10) as i64;
        let denom: i64 = 65536 + tenth;
        proof {
            vstd::arithmetic::div_mod::lemma_div_is_ordered_by_denominator(
                0x1_0000_0000,
                65536,
                denom as int,
            );
            lemma_fx_div_abs(65536, denom as int);
        }
        let mut shade: i64 = fx_div(65536, denom);
        if h.side == 1 {
            proof {
                lemma_fx_mul_abs(shade as int, 55705, 65536, 65536);
            }
            shade = fx_mul(shade, 55705);
        }
        let color: u32 = mul_color(base, shade);
        proof {
            assert(shade == column_shade_spec(h.perp as int, h.side as int));
            assert(color == column_color_spec(*world, *player, x as int));
        }
        let lh: i64 = (13107200u64 / (h.perp as u64)) as i64;
        let half: i64 = ((lh as u64) / 2) as i64;
        let ds: i64 = if 100 - half < 0 {
            0
        } else {
            100 - half
        };
        let de: i64 = if 100 + half > 199 {
            199
        } else {
            100 + half
        };
        proof {
            assert(ds == column_ds_spec(h.perp as int));
            assert(de == column_de_spec(h.perp as int));
        }
        let ghost col_entry = frame@;
        let mut y: i64 = ds;
        while y <= de
            invariant
                frame@.len() == FRAME_BYTES,
                zbuf@.len() == WIDTH,
                x < 320,
                0 <= ds <= y,
                de <= 199,
                ds == column_ds_spec(cast_ray_spec(*world, *player, x as int).3),
                de == column_de_spec(cast_ray_spec(*world, *player, x as int).3),
                color == column_color_spec(*world, *player, x as int),
                forall|i: int|
                    0 <= i < x ==> #[trigger] zbuf@[i] == cast_ray_spec(*world, *player, i).3,
                zbuf@[x as int] == cast_ray_spec(*world, *player, x as int).3,
                forall|i: int| 0 <= i < x ==> #[trigger] column_painted(frame@, *world, *player, i),
                forall|yy: int| ds <= yy < y ==> pixel_is(
                    frame@,
                    x as int,
                    yy,
                    column_color_spec(*world, *player, x as int),
                ),
                y <= de + 1,
                col_entry.len() == FRAME_BYTES,
                forall|xx: int, yy: int|
                    0 <= xx < 320 && 0 <= yy < 200 && !(xx == x && ds <= yy < y)
                        ==> #[trigger] pixel_unchanged(frame@, col_entry, xx, yy),
            decreases de + 1 - y,
        {
            let ghost pre = frame@;
            put_pixel(frame, x, y as usize, color);
            proof {
                assert forall|i: int| 0 <= i < x implies #[trigger] column_painted(
                    frame@,
                    *world,
                    *player,
                    i,
                ) by {
                    assert(column_painted(pre, *world, *player, i));
                    let di = column_ds_spec(cast_ray_spec(*world, *player, i).3);
                    let ei = column_de_spec(cast_ray_spec(*world, *player, i).3);
                    assert forall|yy: int| di <= yy <= ei implies pixel_is(
                        frame@,
                        i,
                        yy,
                        column_color_spec(*world, *player, i),
                    ) by {
                        assert(pixel_is(pre, i, yy, column_color_spec(*world, *player, i)));
                        assert(pixel_unchanged(frame@, pre, i, yy));
                    }
                }
                assert forall|yy: int| ds <= yy < y + 1 implies pixel_is(
                    frame@,
                    x as int,
                    yy,
                    column_color_spec(*world, *player, x as int),
                ) by {
                    if yy < y {
                        assert(pixel_is(pre, x as int, yy, column_color_spec(*world, *player, x as int)));
                        assert(pixel_unchanged(frame@, pre, x as int, yy));
                    }
                }
                assert forall|xx: int, yy: int|
                    0 <= xx < 320 && 0 <= yy < 200 && !(xx == x && ds <= yy < y + 1)
                    implies pixel_unchanged(frame@, col_entry, xx, yy) by {
                    assert(pixel_unchanged(frame@, pre, xx, yy));
                    assert(pixel_unchanged(pre, col_entry, xx, yy));
                }
            }
            y = y + 1;
        }
        proof {
            assert(column_painted(frame@, *world, *player, x as int));
            assert forall|xx: int, yy: int|
                #![trigger pixel_unchanged(frame@, old(frame)@, xx, yy)]
                0 <= xx < 320 && 0 <= yy < 200 && !(xx < x + 1 && in_column_span(
                    *world,
                    *player,
                    xx,
                    yy,
                )) implies pixel_unchanged(frame@, old(frame)@, xx, yy) by {
                if xx == x {
                    assert(!(ds <= yy <= de));
                }
                assert(pixel_unchanged(frame@, col_entry, xx, yy));
                assert(pixel_unchanged(col_entry, old(frame)@, xx, yy));
            }
        }
        x = x + 1;
    }
}

/// The minimap fits when its scaled grid plus margin fits the frame.
pub open spec fn minimap_fits(w: World) -> bool {
    w.map.width * 4 + 4 <= 320 && w.map.height * 4 + 4 <= 200
}

/// Left edge of the minimap rectangle (margin 4 from the right edge).
pub open spec fn minimap_ox(w: World) -> int {
    320 - 4 - w.map.width * 4
}

/// Pixel `(xx, yy)` lies inside the minimap rectangle.
pub open spec fn in_minimap(w: World, xx: int, yy: int) -> bool {
    minimap_ox(w) <= xx < minimap_ox(w) + w.map.width * 4 && 4 <= yy < 4 + w.map.height * 4
}

/// The block color of one minimap cell: translucent dark for floor,
/// the dimmed palette color for a wall id.
pub open spec fn minimap_cell_color(w: World, mx: int, my: int) -> u32 {
    if w.map.tile_at(mx, my) == 0 {
        0x00000088u32
    } else {
        mul_color_spec(id_color_spec(w.map.tile_at(mx, my)), 39321) as u32
    }
}

/// A minimap pixel shows the block color of the cell it falls in.
pub open spec fn minimap_block_at(frame: Seq<u8>, w: World, xx: int, yy: int) -> bool {
    pixel_is(frame, xx, yy, minimap_cell_color(w, (xx - minimap_ox(w)) / 4, (yy - 4) / 4))
}

/// Pixel `(xx, yy)` lies inside the 3x3 player marker, drawn only when
/// the player's truncated cell is on the map.
pub open spec fn in_marker(w: World, p: Player, xx: int, yy: int) -> bool {
    let cx = fx_trunc_spec(p.pos.x as int);
    let cy = fx_trunc_spec(p.pos.y as int);
    &&& 0 <= cx < w.map.width
    &&& 0 <= cy < w.map.height
    &&& minimap_ox(w) + 4 * cx <= xx < minimap_ox(w) + 4 * cx + 3
    &&& 4 + 4 * cy <= yy < 4 + 4 * cy + 3
}

/// A value squeezed into one 4-aligned slot has that slot's index.
proof fn lemma_div4_slot(m: int, v: int)
    requires
        4 * m <= v < 4 * m + 4,
    ensures
        v / 4 == m,
{
    vstd::arithmetic::div_mod::lemma_fundamental_div_mod(v, 4);
}

/// Draws the scaled top-down minimap in the frame's top-right corner
/// when it fits: each cell as a filled 4x4 block (walls in their
/// dimmed palette color), then the player as a 3x3 white marker; every
/// pixel outside the rectangle keeps its bytes. Read-only on the world
/// and the player.
pub fn draw_minimap(frame: &mut Vec<u8>, world: &World, player: &Player)
    requires
        old(frame)@.len() == FRAME_BYTES,
        world.wf(),
        player.inv(),
    ensures
        final(frame)@.len() == FRAME_BYTES,
        !minimap_fits(*world) ==> final(frame)@ == old(frame)@,
        minimap_fits(*world) ==> forall|xx: int, yy: int|
            #![trigger pixel_unchanged(final(frame)@, old(frame)@, xx, yy)]
            0 <= xx < 320 && 0 <= yy < 200 && !in_minimap(*world, xx, yy) ==> pixel_unchanged(
                final(frame)@,
                old(frame)@,
                xx,
                yy,
            ),
        minimap_fits(*world) ==> forall|xx: int, yy: int|
            0 <= xx < 320 && 0 <= yy < 200 && in_marker(*world, *player, xx, yy) ==> pixel_is(
                final(frame)@,
                xx,
                yy,
                0xffffffffu32,
            ),
        minimap_fits(*world) ==> forall|xx: int, yy: int|
            #![trigger minimap_block_at(final(frame)@, *world, xx, yy)]
            0 <= xx < 320 && 0 <= yy < 200 && in_minimap(*world, xx, yy) && !in_marker(
                *world,
                *player,
                xx,
                yy,
            ) ==> minimap_block_at(final(frame)@, *world, xx, yy),
{
    let scale: i64 = 4;
    let margin: i64 = 4;
    let w: i64 = world.map.width * scale;
    let h: i64 = world.map.height * scale;
    if w + margin > 320 || h + margin > 200 {
        return ;
    }
    let origin_x: i64 = 320 - margin - w;
    let origin_y: i64 = margin;
    let ghost wd = *world;
    let mut my: i64 = 0;
    while my < world.map.height
        invariant
            frame@.len() == FRAME_BYTES,
            world.wf(),
            wd == *world,
            minimap_fits(wd),
            0 <= my <= world.map.height,
            origin_y == 4,
            0 <= origin_x,
            origin_x == minimap_ox(wd),
            origin_x + world.map.width * 4 <= 316,
            world.map.height * 4 + 4 <= 200,
            forall|xx: int, yy: int|
                #![trigger pixel_unchanged(frame@, old(frame)@, xx, yy)]
                0 <= xx < 320 && 0 <= yy < 200 && !(in_minimap(wd, xx, yy) && yy < 4 + 4 * my)
                    ==> pixel_unchanged(frame@, old(frame)@, xx, yy),
            forall|xx: int, yy: int|
                #![trigger minimap_block_at(frame@, wd, xx, yy)]
                0 <= xx < 320 && 0 <= yy < 200 && in_minimap(wd, xx, yy) && yy < 4 + 4 * my
                    ==> minimap_block_at(frame@, wd, xx, yy),
        decreases world.map.height - my,
    {
        let mut mx: i64 = 0;
        while mx < world.map.width
            invariant
                frame@.len() == FRAME_BYTES,
                world.wf(),
                wd == *world,
                minimap_fits(wd),
                0 <= mx <= world.map.width,
                0 <= my < world.map.height,
                origin_y == 4,
                0 <= origin_x,
                origin_x == minimap_ox(wd),
                origin_x + world.map.width * 4 <= 316,
                world.map.height * 4 + 4 <= 200,
                forall|xx: int, yy: int|
                    #![trigger pixel_unchanged(frame@, old(frame)@, xx, yy)]
                    0 <= xx < 320 && 0 <= yy < 200 && !(in_minimap(wd, xx, yy) && (yy < 4 + 4 * my
                        || (yy < 4 + 4 * my + 4 && xx < origin_x + 4 * mx))) ==> pixel_unchanged(
                        frame@,
                        old(frame)@,
                        xx,
                        yy,
                    ),
                forall|xx: int, yy: int|
                    #![trigger minimap_block_at(frame@, wd, xx, yy)]
                    0 <= xx < 320 && 0 <= yy < 200 && in_minimap(wd, xx, yy) && (yy < 4 + 4 * my
                        || (yy < 4 + 4 * my + 4 && xx < origin_x + 4 * mx)) ==> minimap_block_at(
                        frame@,
                        wd,
                        xx,
                        yy,
                    ),
            decreases world.map.width - mx,
        {
            let id: u8 = world.tile_id(mx, my);
            let color: u32 = if id == 0 {
                0x00000088
            } else {
                mul_color(id_to_color(id), 39321)
            };
            proof {
                assert(color == minimap_cell_color(wd, mx as int, my as int));
            }
            let ghost pre = frame@;
            fill_rect(
                frame,
                (origin_x + mx * 4) as usize,
                (origin_y + my * 4) as usize,
                4,
                4,
                color,
            );
            proof {
                let x0 = origin_x as int + 4 * mx;
                let y0 = 4 + 4 * my;
                assert forall|xx: int, yy: int|
                    #![trigger pixel_unchanged(frame@, old(frame)@, xx, yy)]
                    0 <= xx < 320 && 0 <= yy < 200 && !(in_minimap(wd, xx, yy) && (yy < 4 + 4 * my
                        || (yy < 4 + 4 * my + 4 && xx < origin_x + 4 * (mx + 1))))
                    implies pixel_unchanged(frame@, old(frame)@, xx, yy) by {
                    assert(!(x0 <= xx < x0 + 4 && y0 <= yy < y0 + 4));
                    assert(pixel_unchanged(frame@, pre, xx, yy));
                    assert(pixel_unchanged(pre, old(frame)@, xx, yy));
                }
                assert forall|xx: int, yy: int|
                    #![trigger minimap_block_at(frame@, wd, xx, yy)]
                    0 <= xx < 320 && 0 <= yy < 200 && in_minimap(wd, xx, yy) && (yy < 4 + 4 * my
                        || (yy < 4 + 4 * my + 4 && xx < origin_x + 4 * (mx + 1)))
                    implies minimap_block_at(frame@, wd, xx, yy) by {
                    if x0 <= xx < x0 + 4 && y0 <= yy < y0 + 4 {
                        lemma_div4_slot(mx as int, xx - minimap_ox(wd));
                        lemma_div4_slot(my as int, yy - 4);
                        assert(pixel_is(frame@, xx, yy, color));
                    } else {
                        assert(minimap_block_at(pre, wd, xx, yy));
                        assert(pixel_unchanged(frame@, pre, xx, yy));
                    }
                }
            }
            mx = mx + 1;
        }
        my = my + 1;
    }
    let cx: i64 = fx_trunc(player.pos.x);
    let cy: i64 = fx_trunc(player.pos.y);
    if 0 <= cx && cx < world.map.width && 0 <= cy && cy < world.map.height {
        let ghost pre = frame@;
        fill_rect(
            frame,
            (origin_x + cx * 4) as usize,
            (origin_y + cy * 4) as usize,
            3,
            3,
            0xffffffffu32,
        );
        proof {
            let x0 = origin_x as int + 4 * cx;
            let y0 = 4 + 4 * cy;
            assert forall|xx: int, yy: int|
                #![trigger pixel_unchanged(frame@, old(frame)@, xx, yy)]
                0 <= xx < 320 && 0 <= yy < 200 && !in_minimap(wd, xx, yy) implies pixel_unchanged(
                frame@,
                old(frame)@,
                xx,
                yy,
            ) by {
                assert(!(x0 <= xx < x0 + 3 && y0 <= yy < y0 + 3));
                assert(pixel_unchanged(frame@, pre, xx, yy));
                assert(pixel_unchanged(pre, old(frame)@, xx, yy));
            }
            assert forall|xx: int, yy: int|
                #![trigger minimap_block_at(frame@, wd, xx, yy)]
                0 <= xx < 320 && 0 <= yy < 200 && in_minimap(wd, xx, yy) && !in_marker(
                wd,
                *player,
                xx,
                yy,
            ) implies minimap_block_at(frame@, wd, xx, yy) by {
                assert(!(x0 <= xx < x0 + 3 && y0 <= yy < y0 + 3));
                assert(minimap_block_at(pre, wd, xx, yy));
                assert(pixel_unchanged(frame@, pre, xx, yy));
            }
        }
    }
}

/// Background band color for a row of the world view: ceiling above
/// the vertical midpoint, floor below.
pub open spec fn band_color(yy: int) -> u32 {
    if yy < 100 {
        0x303040ffu32
    } else {
        0x0f0f10ffu32
    }
}

/// Rows the HUD text may touch in a given mode: the frame-rate
/// readout's row band, plus the two banner bands on the success
/// screen.
pub open spec fn hud_rows(mode: GameMode, yy: int) -> bool {
    (4 <= yy < 11) || (mode == GameMode::Success && (90 <= yy < 97 || 106 <= yy < 113))
}

/// Rows the welcome screen's title and help lines may touch.
pub open spec fn welcome_rows(yy: int) -> bool {
    (20 <= yy < 27) || (70 <= yy < 77) || (85 <= yy < 92) || (100 <= yy < 107) || (115 <= yy
        < 122)
}

/// What one composed frame shows at a pixel. On the welcome screen,
/// the clear color with glyph white only on the text rows. In play,
/// each pixel is glyph white on a HUD text row, the exact minimap
/// content inside a fitting minimap rectangle, and otherwise its
/// column's wall-span color inside the span and the band color
/// outside it.
pub open spec fn frame_pixel_spec(
    frame: Seq<u8>,
    w: World,
    p: Player,
    mode: GameMode,
    xx: int,
    yy: int,
) -> bool {
    if mode == GameMode::Welcome {
        pixel_is(frame, xx, yy, 0x202028ffu32) || (welcome_rows(yy) && pixel_is(
            frame,
            xx,
            yy,
            0xffffffffu32,
        ))
    } else {
        ||| (hud_rows(mode, yy) && pixel_is(frame, xx, yy, 0xffffffffu32))
        ||| (minimap_fits(w) && in_minimap(w, xx, yy) && (if in_marker(w, p, xx, yy) {
            pixel_is(frame, xx, yy, 0xffffffffu32)
        } else {
            minimap_block_at(frame, w, xx, yy)
        }))
        ||| (!(minimap_fits(w) && in_minimap(w, xx, yy)) && (if in_column_span(w, p, xx, yy) {
            pixel_is(frame, xx, yy, column_color_spec(w, p, xx))
        } else {
            pixel_is(frame, xx, yy, band_color(yy))
        }))
    }
}

/// One welcome-screen text pass: the glyphs touch only their seven
/// rows, all of which are welcome text rows, painting white or keeping
/// pixels, so the clear-or-white shape of the frame survives.
proof fn welcome_step(cur: Seq<u8>, pre: Seq<u8>, w: World, p: Player, y: int)
    requires
        forall|ax: int, ay: int|
            0 <= ax < 320 && 0 <= ay < 200 ==> pixel_white_or_same(cur, pre, ax, ay),
        forall|ax: int, ay: int|
            #![trigger pixel_unchanged(cur, pre, ax, ay)]
            0 <= ax < 320 && 0 <= ay < 200 && !(y <= ay < y + 7) ==> pixel_unchanged(
                cur,
                pre,
                ax,
                ay,
            ),
        forall|yy: int| y <= yy < y + 7 ==> #[trigger] welcome_rows(yy),
        forall|xx: int, yy: int|
            0 <= xx < 320 && 0 <= yy < 200 ==> #[trigger] frame_pixel_spec(
                pre,
                w,
                p,
                GameMode::Welcome,
                xx,
                yy,
            ),
    ensures
        forall|xx: int, yy: int|
            0 <= xx < 320 && 0 <= yy < 200 ==> #[trigger] frame_pixel_spec(
                cur,
                w,
                p,
                GameMode::Welcome,
                xx,
                yy,
            ),
{
    assert forall|xx: int, yy: int|
        0 <= xx < 320 && 0 <= yy < 200 implies #[trigger] frame_pixel_spec(
        cur,
        w,
        p,
        GameMode::Welcome,
        xx,
        yy,
    ) by {
        assert(frame_pixel_spec(pre, w, p, GameMode::Welcome, xx, yy));
        if y <= yy < y + 7 {
            assert(pixel_white_or_same(cur, pre, xx, yy));
            if !pixel_is(cur, xx, yy, 0xffffffffu32) {
                assert(pixel_unchanged(cur, pre, xx, yy));
            } else {
                assert(welcome_rows(yy));
            }
        } else {
            assert(pixel_unchanged(cur, pre, xx, yy));
        }
    }
}

/// One HUD text pass over the world view: the glyphs touch only their
/// seven rows, all of which are HUD text rows for this mode, painting
/// white or keeping pixels, so the composed frame shape survives.
proof fn hud_step(cur: Seq<u8>, pre: Seq<u8>, w: World, p: Player, mode: GameMode, y: int)
    requires
        mode != GameMode::Welcome,
        forall|ax: int, ay: int|
            0 <= ax < 320 && 0 <= ay < 200 ==> pixel_white_or_same(cur, pre, ax, ay),
        forall|ax: int, ay: int|
            #![trigger pixel_unchanged(cur, pre, ax, ay)]
            0 <= ax < 320 && 0 <= ay < 200 && !(y <= ay < y + 7) ==> pixel_unchanged(
                cur,
                pre,
                ax,
                ay,
            ),
        forall|yy: int| y <= yy < y + 7 ==> #[trigger] hud_rows(mode, yy),
        forall|xx: int, yy: int|
            0 <= xx < 320 && 0 <= yy < 200 ==> #[trigger] frame_pixel_spec(pre, w, p, mode, xx, yy),
    ensures
        forall|xx: int, yy: int|
            0 <= xx < 320 && 0 <= yy < 200 ==> #[trigger] frame_pixel_spec(cur, w, p, mode, xx, yy),
{
    assert forall|xx: int, yy: int|
        0 <= xx < 320 && 0 <= yy < 200 implies #[trigger] frame_pixel_spec(
        cur,
        w,
        p,
        mode,
        xx,
        yy,
    ) by {
        assert(frame_pixel_spec(pre, w, p, mode, xx, yy));
        if y <= yy < y + 7 {
            assert(pixel_white_or_same(cur, pre, xx, yy));
            if !pixel_is(cur, xx, yy, 0xffffffffu32) {
                assert(pixel_unchanged(cur, pre, xx, yy));
            } else {
                assert(hud_rows(mode, yy));
            }
        } else {
            assert(pixel_unchanged(cur, pre, xx, yy));
        }
    }
}

/// Composes one frame for the current UI mode: the welcome screen's
/// text over the clear color, or the ray-cast world view under the
/// minimap and the HUD text (plus the success banners). Every pixel of
/// the result is pinned by `frame_pixel_spec`; the world and the
/// player are only read.
#[verifier::rlimit(100)]
pub fn draw_frame(frame: &mut Vec<u8>, world: &World, player: &Player, ui: &UiState)
    requires
        old(frame)@.len() == FRAME_BYTES,
        world.wf(),
        player.inv(),
    ensures
        final(frame)@.len() == FRAME_BYTES,
        forall|xx: int, yy: int|
            0 <= xx < 320 && 0 <= yy < 200 ==> #[trigger] frame_pixel_spec(
                final(frame)@,
                *world,
                *player,
                ui.mode,
                xx,
                yy,
            ),
{
    let ghost w = *world;
    let ghost p = *player;
    let ghost mode = ui.mode;
    clear_color(frame, 0x202028ff);
    match ui.mode {
        GameMode::Welcome => {
            let ghost g1 = frame@;
            proof {
                assert forall|xx: int, yy: int|
                    0 <= xx < 320 && 0 <= yy < 200 implies #[trigger] frame_pixel_spec(
                    g1,
                    w,
                    p,
                    GameMode::Welcome,
                    xx,
                    yy,
                ) by {
                    assert(pixel_is(g1, xx, yy, 0x202028ffu32));
                }
            }
            draw_centered_text(frame, "RAYCASTER", 20);
            proof {
                welcome_step(frame@, g1, w, p, 20);
            }
            let ghost g2 = frame@;
            draw_text(frame, 40, 70, "ENTER TO PLAY");
            proof {
                welcome_step(frame@, g2, w, p, 70);
            }
            let ghost g3 = frame@;
            draw_text(frame, 40, 85, "MOVE AND STRAFE TO SLIDE");
            proof {
                welcome_step(frame@, g3, w, p, 85);
            }
            let ghost g4 = frame@;
            draw_text(frame, 40, 100, "ESC TO RELEASE THE MOUSE");
            proof {
                welcome_step(frame@, g4, w, p, 100);
            }
            let ghost g5 = frame@;
            draw_text(frame, 40, 115, "1 2 TO CHANGE LEVEL");
            proof {
                welcome_step(frame@, g5, w, p, 115);
            }
        },
        GameMode::Playing | GameMode::Success => {
            draw_hsplit(frame, 0, 100, 0x303040ff);
            let ghost gh = frame@;
            draw_hsplit(frame, 100, 200, 0x0f0f10ff);
            proof {
                assert forall|xx: int, yy: int|
                    0 <= xx < 320 && 0 <= yy < 200 implies #[trigger] pixel_is(
                    frame@,
                    xx,
                    yy,
                    band_color(yy),
                ) by {
                    if yy < 100 {
                        assert(pixel_unchanged(frame@, gh, xx, yy));
                        assert(pixel_is(gh, xx, yy, 0x303040ffu32));
                    } else {
                        assert(pixel_is(frame@, xx, yy, 0x0f0f10ffu32));
                    }
                }
            }
            let mut zbuf: Vec<i64> = Vec::new();
            let mut i: usize = 0;
            while i < WIDTH
                invariant
                    zbuf@.len() == i,
                    i <= 320,
                decreases 320 - i,
            {
                zbuf.push(0);
                i = i + 1;
            }
            let ghost g1 = frame@;
            cast_walls(frame, world, player, &mut zbuf);
            proof {
                assert forall|xx: int, yy: int|
                    0 <= xx < 320 && 0 <= yy < 200 && !in_column_span(w, p, xx, yy)
                    implies #[trigger] pixel_is(frame@, xx, yy, band_color(yy)) by {
                    assert(pixel_unchanged(frame@, g1, xx, yy));
                    assert(pixel_is(g1, xx, yy, band_color(yy)));
                }
            }
            let ghost g2 = frame@;
            draw_minimap(frame, world, player);
            proof {
                assert forall|xx: int, yy: int|
                    0 <= xx < 320 && 0 <= yy < 200 implies #[trigger] frame_pixel_spec(
                    frame@,
                    w,
                    p,
                    mode,
                    xx,
                    yy,
                ) by {
                    if minimap_fits(w) && in_minimap(w, xx, yy) {
                        if in_marker(w, p, xx, yy) {
                            assert(pixel_is(frame@, xx, yy, 0xffffffffu32));
                        } else {
                            assert(minimap_block_at(frame@, w, xx, yy));
                        }
                    } else {
                        if minimap_fits(w) {
                            assert(pixel_unchanged(frame@, g2, xx, yy));
                        } else {
                            assert(frame@ == g2);
                        }
                        if in_column_span(w, p, xx, yy) {
                            assert(column_painted(g2, w, p, xx));
                            assert(pixel_is(g2, xx, yy, column_color_spec(w, p, xx)));
                        } else {
                            assert(pixel_is(g2, xx, yy, band_color(yy)));
                        }
                    }
                }
            }
            let ghost g3 = frame@;
            draw_text(frame, 4, 4, "FPS:");
            proof {
                hud_step(frame@, g3, w, p, mode, 4);
            }
            let ghost g4 = frame@;
            draw_number(frame, 28, 4, ui.fps);
            proof {
                hud_step(frame@, g4, w, p, mode, 4);
            }
            if ui.mode == GameMode::Success {
                let ghost g5 = frame@;
                draw_centered_text(frame, "LEVEL COMPLETE", 90);
                proof {
                    hud_step(frame@, g5, w, p, mode, 90);
                }
                let ghost g6 = frame@;
                draw_centered_text(frame, "ENTER TO RESTART", 106);
                proof {
                    hud_step(frame@, g6, w, p, mode, 106);
                }
            }
        },
    }
}

} // verus!} // verus!
