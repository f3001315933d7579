use life_grid::framebuffer::Framebuffer;
use life_grid::render::render_frame;

#[test]
fn render_writes_rgb_then_opaque_alpha() {
    let mut fb = Framebuffer::new(2, 1);
    fb.set_pixel(0, 0, 0x11223344);
    fb.set_pixel(1, 0, 0xFFABCDEF);
    let frame = render_frame(&fb, 1);
    assert_eq!(frame, vec![0x22, 0x33, 0x44, 255, 0xAB, 0xCD, 0xEF, 255]);
}

#[test]
fn render_scales_each_cell_to_a_block() {
    let mut fb = Framebuffer::new(4, 5);
    fb.set_pixel(2, 3, 0x00A1B2C3);
    let scale = 10;
    let frame = render_frame(&fb, scale);
    let pw = 4 * scale;
    assert_eq!(frame.len(), pw * 5 * scale * 4);
    // The logical cell (2, 3) covers exactly the 10x10 block whose top-left
    // physical corner is (20, 30); every pixel of it carries the same bytes.
    for py in 0..5 * scale {
        for px in 0..pw {
            let base = (py * pw + px) * 4;
            let in_block = (20..30).contains(&px) && (30..40).contains(&py);
            let expected = if in_block { [0xA1, 0xB2, 0xC3, 255] } else { [0, 0, 0, 255] };
            assert_eq!(&frame[base..base + 4], &expected, "pixel ({px},{py})");
        }
    }
}

#[test]
fn render_discards_source_alpha() {
    let mut fb = Framebuffer::new(1, 1);
    fb.set_pixel(0, 0, 0x00000000);
    let frame = render_frame(&fb, 2);
    assert_eq!(frame, vec![0, 0, 0, 255, 0, 0, 0, 255, 0, 0, 0, 255, 0, 0, 0, 255]);
}
