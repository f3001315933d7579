use life_grid::engine::count_live_neighbors;
use life_grid::engine::generate_random_color;
use life_grid::engine::initialize_random_particles;
use life_grid::engine::update_game_of_life;
use life_grid::engine::Variant;
use life_grid::engine::ALIVE_BINARY;
use life_grid::engine::DEAD_BINARY;
use life_grid::engine::DEAD_COLORIZED;
use life_grid::framebuffer::Framebuffer;

fn filled_grid(w: usize, h: usize, color: u32) -> Framebuffer {
    let mut fb = Framebuffer::new(w, h);
    for y in 0..h {
        for x in 0..w {
            fb.set_pixel(x, y, color);
        }
    }
    fb
}

fn cell(fb: &Framebuffer, x: usize, y: usize) -> u32 {
    fb.get_buffer()[y * fb.width + x]
}

#[test]
fn neighbor_count_on_full_grid_is_eight() {
    let fb = filled_grid(3, 3, ALIVE_BINARY);
    for y in 0..3 {
        for x in 0..3 {
            assert_eq!(count_live_neighbors(&fb, x, y, Variant::Binary), 8);
        }
    }
}

#[test]
fn neighbor_count_wraps_to_opposite_corner() {
    let mut fb = Framebuffer::new(5, 5);
    fb.set_pixel(4, 4, ALIVE_BINARY);
    assert_eq!(count_live_neighbors(&fb, 0, 0, Variant::Binary), 1);
    assert_eq!(count_live_neighbors(&fb, 2, 2, Variant::Binary), 0);
}

#[test]
fn neighbor_count_uses_variant_liveness() {
    let mut fb = filled_grid(3, 3, DEAD_COLORIZED);
    fb.set_pixel(0, 0, 0xFF102030);
    fb.set_pixel(2, 2, 0xFF405060);
    assert_eq!(count_live_neighbors(&fb, 1, 1, Variant::Colorized), 2);
    // Under the binary predicate neither color equals the fixed alive value.
    assert_eq!(count_live_neighbors(&fb, 1, 1, Variant::Binary), 0);
}

#[test]
fn blinker_oscillates() {
    let mut fb = Framebuffer::new(5, 5);
    fb.set_pixel(1, 2, ALIVE_BINARY);
    fb.set_pixel(2, 2, ALIVE_BINARY);
    fb.set_pixel(3, 2, ALIVE_BINARY);
    let horizontal = fb.get_buffer().clone();

    update_game_of_life(&mut fb, Variant::Binary);
    for y in 0..5 {
        for x in 0..5 {
            let expected = if x == 2 && (1..=3).contains(&y) { ALIVE_BINARY } else { DEAD_BINARY };
            assert_eq!(cell(&fb, x, y), expected, "generation 1 at ({x},{y})");
        }
    }

    update_game_of_life(&mut fb, Variant::Binary);
    assert_eq!(fb.get_buffer(), &horizontal, "generation 2 restores the row");
}

#[test]
fn lonely_cell_dies_of_underpopulation() {
    let mut fb = Framebuffer::new(5, 5);
    fb.set_pixel(2, 2, ALIVE_BINARY);
    assert_eq!(count_live_neighbors(&fb, 2, 2, Variant::Binary), 0);
    update_game_of_life(&mut fb, Variant::Binary);
    for &c in fb.get_buffer().iter() {
        assert_eq!(c, DEAD_BINARY);
    }
}

#[test]
fn cell_with_four_neighbors_dies_of_overpopulation() {
    let mut fb = Framebuffer::new(5, 5);
    fb.set_pixel(2, 2, ALIVE_BINARY);
    fb.set_pixel(1, 1, ALIVE_BINARY);
    fb.set_pixel(3, 1, ALIVE_BINARY);
    fb.set_pixel(1, 3, ALIVE_BINARY);
    fb.set_pixel(3, 3, ALIVE_BINARY);
    assert_eq!(count_live_neighbors(&fb, 2, 2, Variant::Binary), 4);
    update_game_of_life(&mut fb, Variant::Binary);
    assert_eq!(cell(&fb, 2, 2), DEAD_BINARY);
}

#[test]
fn surviving_cell_keeps_its_color() {
    let mut fb = filled_grid(5, 5, DEAD_COLORIZED);
    let color = 0xFFABCDEF;
    fb.set_pixel(2, 2, color);
    fb.set_pixel(1, 2, 0xFF111111);
    fb.set_pixel(3, 2, 0xFF222222);
    assert_eq!(count_live_neighbors(&fb, 2, 2, Variant::Colorized), 2);
    update_game_of_life(&mut fb, Variant::Colorized);
    assert_eq!(cell(&fb, 2, 2), color);
}

#[test]
fn newborn_cell_gets_an_opaque_color() {
    let mut fb = filled_grid(5, 5, DEAD_COLORIZED);
    fb.set_pixel(1, 2, 0xFF111111);
    fb.set_pixel(2, 2, 0xFF222222);
    fb.set_pixel(3, 2, 0xFF333333);
    assert_eq!(count_live_neighbors(&fb, 2, 1, Variant::Colorized), 3);
    update_game_of_life(&mut fb, Variant::Colorized);
    let born = cell(&fb, 2, 1);
    assert_eq!(born >> 24, 0xFF);
    assert_ne!(born, DEAD_COLORIZED);
}

#[test]
fn dead_grid_is_a_fixed_point_binary() {
    let mut fb = filled_grid(4, 4, DEAD_BINARY);
    update_game_of_life(&mut fb, Variant::Binary);
    update_game_of_life(&mut fb, Variant::Binary);
    for &c in fb.get_buffer().iter() {
        assert_eq!(c, DEAD_BINARY);
    }
}

#[test]
fn dead_grid_is_a_fixed_point_colorized() {
    let mut fb = filled_grid(4, 4, DEAD_COLORIZED);
    update_game_of_life(&mut fb, Variant::Colorized);
    update_game_of_life(&mut fb, Variant::Colorized);
    for &c in fb.get_buffer().iter() {
        assert_eq!(c, DEAD_COLORIZED);
    }
}

#[test]
fn update_preserves_dimensions() {
    let mut fb = Framebuffer::new(6, 4);
    update_game_of_life(&mut fb, Variant::Binary);
    assert_eq!(fb.width, 6);
    assert_eq!(fb.height, 4);
    assert_eq!(fb.get_buffer().len(), 24);
}

#[test]
fn initialize_seeds_only_valid_binary_cells() {
    let mut fb = Framebuffer::new(20, 20);
    initialize_random_particles(&mut fb, Variant::Binary);
    for &c in fb.get_buffer().iter() {
        assert!(c == DEAD_BINARY || c == ALIVE_BINARY);
    }
}

#[test]
fn initialize_seeds_only_valid_colorized_cells() {
    let mut fb = Framebuffer::new(20, 20);
    initialize_random_particles(&mut fb, Variant::Colorized);
    for &c in fb.get_buffer().iter() {
        assert!(c == DEAD_COLORIZED || c >> 24 == 0xFF);
    }
}

#[test]
fn random_color_is_opaque_and_alive() {
    for _ in 0..1000 {
        let c = generate_random_color();
        assert_eq!(c >> 24, 0xFF);
        assert_ne!(c, DEAD_COLORIZED);
    }
}

#[test]
fn random_color_channels_spread_over_the_range() {
    let n = 4096u64;
    let mut sums = [0u64; 3];
    let mut mins = [255u32; 3];
    let mut maxs = [0u32; 3];
    for _ in 0..n {
        let c = generate_random_color();
        let channels = [(c >> 16) & 0xFF, (c >> 8) & 0xFF, c & 0xFF];
        for k in 0..3 {
            sums[k] += channels[k] as u64;
            if channels[k] < mins[k] {
                mins[k] = channels[k];
            }
            if channels[k] > maxs[k] {
                maxs[k] = channels[k];
            }
        }
    }
    for k in 0..3 {
        let mean = sums[k] / n;
        assert!((110..=145).contains(&mean), "channel {k} mean {mean} is off");
        assert!(mins[k] < 30, "channel {k} never drew a small value");
        assert!(maxs[k] > 225, "channel {k} never drew a large value");
    }
}
