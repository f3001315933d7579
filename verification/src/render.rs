use vstd::arithmetic::div_mod::lemma_fundamental_div_mod_converse;
use vstd::arithmetic::div_mod::lemma_multiply_divide_lt;
use vstd::prelude::*;

use crate::engine::cell_at;
use crate::framebuffer::Framebuffer;

verus! {

/// The alpha byte forced on every physical pixel; any alpha encoded in the
/// cell color is discarded.
pub const OPAQUE_ALPHA: u8 = 255;

/// The red channel of a packed `0xAARRGGBB` color.
pub open spec fn red_byte(color: u32) -> u8 {
    ((color >> 16) & 0xFF) as u8
}

/// The green channel of a packed `0xAARRGGBB` color.
pub open spec fn green_byte(color: u32) -> u8 {
    ((color >> 8) & 0xFF) as u8
}

/// The blue channel of a packed `0xAARRGGBB` color.
pub open spec fn blue_byte(color: u32) -> u8 {
    (color & 0xFF) as u8
}

/// The physical pixel `(px, py)` of a surface `w * scale` pixels wide shows
/// the color of logical cell `(px / scale, py / scale)`, written as the bytes
/// R, G, B and then a forced opaque alpha.
pub open spec fn pixel_bytes_ok(
    frame: Seq<u8>,
    cells: Seq<u32>,
    w: int,
    scale: int,
    px: int,
    py: int,
) -> bool {
    let color = cell_at(cells, w, px / scale, py / scale);
    let base = (py * (w * scale) + px) * 4;
    &&& frame[base] == red_byte(color)
    &&& frame[base + 1] == green_byte(color)
    &&& frame[base + 2] == blue_byte(color)
    &&& frame[base + 3] == OPAQUE_ALPHA
}

/// Every physical pixel of the `scale * scale` block whose top-left corner is
/// `(cx * scale, cy * scale)` maps back to the logical cell `(cx, cy)`.
pub proof fn lemma_cell_block(scale: int, cx: int, cy: int, px: int, py: int)
    requires
        0 < scale,
        0 <= cx,
        0 <= cy,
        cx * scale <= px < (cx + 1) * scale,
        cy * scale <= py < (cy + 1) * scale,
    ensures
        px / scale == cx,
        py / scale == cy,
{
    assert(0 <= px - cx * scale < scale && 0 <= py - cy * scale < scale) by (nonlinear_arith)
        requires
            cx * scale <= px < (cx + 1) * scale,
            cy * scale <= py < (cy + 1) * scale,
    ;
    lemma_fundamental_div_mod_converse(px, scale, cx, px - cx * scale);
    lemma_fundamental_div_mod_converse(py, scale, cy, py - cy * scale);
}

/// Law: a rendered frame shows one logical cell uniformly over its whole
/// `scale * scale` physical block: every pixel of the block carries the
/// cell's color bytes.
pub proof fn lemma_block_uniform(
    frame: Seq<u8>,
    cells: Seq<u32>,
    w: int,
    scale: int,
    cx: int,
    cy: int,
    px: int,
    py: int,
)
    requires
        0 < scale,
        0 <= cx,
        0 <= cy,
        cx * scale <= px < (cx + 1) * scale,
        cy * scale <= py < (cy + 1) * scale,
        pixel_bytes_ok(frame, cells, w, scale, px, py),
    ensures
        frame[(py * (w * scale) + px) * 4] == red_byte(cell_at(cells, w, cx, cy)),
        frame[(py * (w * scale) + px) * 4 + 1] == green_byte(cell_at(cells, w, cx, cy)),
        frame[(py * (w * scale) + px) * 4 + 2] == blue_byte(cell_at(cells, w, cx, cy)),
        frame[(py * (w * scale) + px) * 4 + 3] == OPAQUE_ALPHA,
{
    lemma_cell_block(scale, cx, cy, px, py);
}

/// Renders the logical grid onto a fresh physical surface buffer, one
/// `scale * scale` block of 4-byte pixels per cell, in R, G, B, alpha order.
pub fn render_frame(fb: &Framebuffer, scale: usize) -> (frame: Vec<u8>)
    requires
        fb.well_formed(),
        0 < fb.width,
        0 < fb.height,
        0 < scale,
        fb.width * scale * fb.height * scale * 4 <= usize::MAX,
    ensures
        frame@.len() == (fb.width * scale) * (fb.height * scale) * 4,
        forall|px: int, py: int|
            0 <= px < fb.width * scale && 0 <= py < fb.height * scale ==> #[trigger] pixel_bytes_ok(
                frame@,
                fb.buffer@,
                fb.width as int,
                scale as int,
                px,
                py,
            ),
{
    let w = fb.width;
    let h = fb.height;
    proof {
        assert(w * scale <= w * scale * h * scale * 4 && h * scale <= w * scale * h * scale * 4)
            by (nonlinear_arith)
            requires
                0 < w,
                0 < h,
                0 < scale,
        ;
    }
    let pw = w * scale;
    let ph = h * scale;
    let mut frame: Vec<u8> = Vec::new();
    let mut py: usize = 0;
    while py < ph
        invariant
            fb.well_formed(),
            w == fb.width,
            h == fb.height,
            0 < w,
            0 < h,
            0 < scale,
            pw == w * scale,
            ph == h * scale,
            py <= ph,
            frame@.len() == py * pw * 4,
            forall|qx: int, qy: int|
                0 <= qx < pw && 0 <= qy < py ==> #[trigger] pixel_bytes_ok(
                    frame@,
                    fb.buffer@,
                    w as int,
                    scale as int,
                    qx,
                    qy,
                ),
        decreases ph - py,
    {
        let mut px: usize = 0;
        while px < pw
            invariant
                fb.well_formed(),
                w == fb.width,
                h == fb.height,
                0 < w,
                0 < h,
                0 < scale,
                pw == w * scale,
                ph == h * scale,
                py < ph,
                px <= pw,
                frame@.len() == (py * pw + px) * 4,
                forall|qx: int, qy: int|
                    (0 <= qy < py && 0 <= qx < pw) || (qy == py && 0 <= qx < px)
                        ==> #[trigger] pixel_bytes_ok(
                        frame@,
                        fb.buffer@,
                        w as int,
                        scale as int,
                        qx,
                        qy,
                    ),
            decreases pw - px,
        {
            let cx = px / scale;
            let cy = py / scale;
            proof {
                assert(px < scale * w && py < scale * h) by (nonlinear_arith)
                    requires
                        px < pw,
                        py < ph,
                        pw == w * scale,
                        ph == h * scale,
                ;
                lemma_multiply_divide_lt(px as int, scale as int, w as int);
                lemma_multiply_divide_lt(py as int, scale as int, h as int);
                crate::engine::lemma_row_major_in_bounds(w as int, h as int, cx as int, cy as int);
            }
            let _len = fb.buffer.len();
            let idx = cy * w + cx;
            let color = fb.buffer[idx];
            let r = ((color >> 16) & 0xFF) as u8;
            let g = ((color >> 8) & 0xFF) as u8;
            let b = (color & 0xFF) as u8;
            let ghost pre = frame@;
            frame.push(r);
            frame.push(g);
            frame.push(b);
            frame.push(OPAQUE_ALPHA);
            proof {
                assert(cell_at(fb.buffer@, w as int, cx as int, cy as int) == color);
                assert(pixel_bytes_ok(
                    frame@,
                    fb.buffer@,
                    w as int,
                    scale as int,
                    px as int,
                    py as int,
                ));
                assert forall|qx: int, qy: int|
                    (0 <= qy < py && 0 <= qx < pw) || (qy == py && 0 <= qx < px
                        + 1) implies #[trigger] pixel_bytes_ok(
                    frame@,
                    fb.buffer@,
                    w as int,
                    scale as int,
                    qx,
                    qy,
                ) by {
                    if !(qy == py && qx == px) {
                        crate::engine::lemma_row_major_lt(pw as int, px as int, py as int, qx, qy);
                        assert(pixel_bytes_ok(pre, fb.buffer@, w as int, scale as int, qx, qy));
                    }
                }
            }
            px = px + 1;
        }
        proof {
            assert((py + 1) * pw == py * pw + pw) by (nonlinear_arith);
        }
        py = py + 1;
    }
    proof {
        assert(ph * pw * 4 == pw * ph * 4) by (nonlinear_arith);
    }
    frame
}

} // verus!
