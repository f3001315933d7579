use life_grid::framebuffer::Framebuffer;

#[test]
fn new_has_all_background_cells() {
    let fb = Framebuffer::new(7, 5);
    assert_eq!(fb.width, 7);
    assert_eq!(fb.height, 5);
    let cells = fb.get_buffer();
    assert_eq!(cells.len(), 35);
    for &c in cells.iter() {
        assert_eq!(c, 0);
    }
}

#[test]
fn set_pixel_writes_in_bounds() {
    let mut fb = Framebuffer::new(4, 3);
    fb.set_pixel(2, 1, 0xDEADBEEF);
    let cells = fb.get_buffer();
    assert_eq!(cells[1 * 4 + 2], 0xDEADBEEF);
    assert_eq!(cells.iter().filter(|&&c| c != 0).count(), 1);
}

#[test]
fn set_pixel_out_of_bounds_is_noop() {
    let mut fb = Framebuffer::new(4, 3);
    fb.set_pixel(1, 1, 0x123456);
    let before = fb.get_buffer().clone();
    fb.set_pixel(4, 0, 0xFFFFFFFF);
    fb.set_pixel(0, 3, 0xFFFFFFFF);
    fb.set_pixel(100, 100, 0xFFFFFFFF);
    fb.set_pixel(usize::MAX, 0, 0xFFFFFFFF);
    assert_eq!(fb.get_buffer(), &before);
}

#[test]
fn clear_resets_every_cell() {
    let mut fb = Framebuffer::new(3, 3);
    for y in 0..3 {
        for x in 0..3 {
            fb.set_pixel(x, y, 0xFF00FF00);
        }
    }
    fb.clear();
    assert_eq!(fb.width, 3);
    assert_eq!(fb.height, 3);
    for &c in fb.get_buffer().iter() {
        assert_eq!(c, 0);
    }
}

#[test]
fn get_buffer_is_row_major() {
    let mut fb = Framebuffer::new(3, 2);
    fb.set_pixel(0, 0, 1);
    fb.set_pixel(2, 0, 2);
    fb.set_pixel(0, 1, 3);
    fb.set_pixel(2, 1, 4);
    assert_eq!(fb.get_buffer(), &vec![1, 0, 2, 3, 0, 4]);
}
