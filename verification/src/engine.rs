use vstd::arithmetic::div_mod::lemma_fundamental_div_mod;
use vstd::arithmetic::div_mod::lemma_fundamental_div_mod_converse;
use vstd::arithmetic::div_mod::lemma_mod_bound;
use vstd::arithmetic::div_mod::lemma_small_mod;
use vstd::prelude::*;

use crate::framebuffer::Framebuffer;
use crate::rng::random_below;
use crate::rng::random_ratio;

verus! {

/// The cell color that counts as alive in the binary variant.
pub const ALIVE_BINARY: u32 = 0xFFFFFF;

/// The dead color of the binary variant.
pub const DEAD_BINARY: u32 = 0x000000;

/// The dead sentinel of the colorized variant; any other value is alive.
pub const DEAD_COLORIZED: u32 = 0x000000FF;

/// A freshly seeded cell is alive with probability
/// `ALIVE_PROBABILITY_NUM / ALIVE_PROBABILITY_DEN`.
pub const ALIVE_PROBABILITY_NUM: u32 = 3;

pub const ALIVE_PROBABILITY_DEN: u32 = 10;

/// The two rule variants: the classic binary rule, and the colorized rule
/// where survivors keep their color and newborns get a random opaque color.
#[derive(Clone, Copy, PartialEq, Eq, Structural)]
pub enum Variant {
    Binary,
    Colorized,
}

/// The dead color of a variant.
pub open spec fn dead_color(variant: Variant) -> u32 {
    match variant {
        Variant::Binary => DEAD_BINARY,
        Variant::Colorized => DEAD_COLORIZED,
    }
}

/// The liveness predicate: equality to the fixed alive value in the binary
/// variant, inequality to the dead sentinel in the colorized one.
pub open spec fn is_alive(variant: Variant, color: u32) -> bool {
    match variant {
        Variant::Binary => color == ALIVE_BINARY,
        Variant::Colorized => color != DEAD_COLORIZED,
    }
}

/// The cell of a row-major grid of width `w` at column `x`, row `y`.
pub open spec fn cell_at(cells: Seq<u32>, w: int, x: int, y: int) -> u32 {
    cells[y * w + x]
}

/// Whether `color` is admissible for a cell just born: the fixed alive value
/// in the binary variant, any opaque color (high byte 0xFF) in the colorized
/// one.
pub open spec fn born_color_ok(variant: Variant, color: u32) -> bool {
    match variant {
        Variant::Binary => color == ALIVE_BINARY,
        Variant::Colorized => color >> 24 == 0xFF,
    }
}

/// 1 when the neighbor of `(x, y)` at offset `(dx, dy)` is alive, else 0.
/// Coordinates wrap by Euclidean modulo, which makes the grid a torus.
pub open spec fn neighbor_live(
    variant: Variant,
    cells: Seq<u32>,
    w: int,
    h: int,
    x: int,
    y: int,
    dx: int,
    dy: int,
) -> nat {
    if is_alive(variant, cell_at(cells, w, (x + dx) % w, (y + dy) % h)) {
        1nat
    } else {
        0nat
    }
}

/// How many of the 8 toroidal neighbors of `(x, y)` are alive.
pub open spec fn neighbor_count(
    variant: Variant,
    cells: Seq<u32>,
    w: int,
    h: int,
    x: int,
    y: int,
) -> nat {
    neighbor_live(variant, cells, w, h, x, y, -1, -1) + neighbor_live(
        variant,
        cells,
        w,
        h,
        x,
        y,
        0,
        -1,
    ) + neighbor_live(variant, cells, w, h, x, y, 1, -1) + neighbor_live(
        variant,
        cells,
        w,
        h,
        x,
        y,
        -1,
        0,
    ) + neighbor_live(variant, cells, w, h, x, y, 1, 0) + neighbor_live(
        variant,
        cells,
        w,
        h,
        x,
        y,
        -1,
        1,
    ) + neighbor_live(variant, cells, w, h, x, y, 0, 1) + neighbor_live(
        variant,
        cells,
        w,
        h,
        x,
        y,
        1,
        1,
    )
}

/// The transition rule for one cell: survival with 2 or 3 live neighbors
/// (keeping the current color), birth with exactly 3, death otherwise.
pub open spec fn step_ok(
    variant: Variant,
    cells: Seq<u32>,
    w: int,
    h: int,
    x: int,
    y: int,
    out: u32,
) -> bool {
    let cur = cell_at(cells, w, x, y);
    let n = neighbor_count(variant, cells, w, h, x, y);
    if is_alive(variant, cur) && (n == 2 || n == 3) {
        out == cur
    } else if !is_alive(variant, cur) && n == 3 {
        born_color_ok(variant, out)
    } else {
        out == dead_color(variant)
    }
}

/// A whole-grid transition: `next` covers the grid and every cell of it obeys
/// the rule with respect to `cells`.
pub open spec fn grid_step_ok(
    variant: Variant,
    cells: Seq<u32>,
    next: Seq<u32>,
    w: int,
    h: int,
) -> bool {
    &&& next.len() == w * h
    &&& forall|x: int, y: int|
        0 <= x < w && 0 <= y < h ==> #[trigger] step_ok(
            variant,
            cells,
            w,
            h,
            x,
            y,
            cell_at(next, w, x, y),
        )
}

/// Every cell of the grid holds the variant's dead color.
pub open spec fn all_dead(variant: Variant, cells: Seq<u32>) -> bool {
    forall|i: int| 0 <= i < cells.len() ==> cells[i] == dead_color(variant)
}

/// A row-major index of in-range coordinates lies within the grid.
pub proof fn lemma_row_major_in_bounds(w: int, h: int, x: int, y: int)
    by (nonlinear_arith)
    requires
        0 <= x < w,
        0 <= y < h,
    ensures
        0 <= y * w + x < w * h,
{
}

/// Row-major indices respect the (row, column) lexicographic order.
pub proof fn lemma_row_major_lt(w: int, x: int, y: int, x2: int, y2: int)
    by (nonlinear_arith)
    requires
        0 <= x2 < w,
        0 <= y2,
        0 <= x,
        y2 < y || (y2 == y && x2 < x),
    ensures
        0 <= y2 * w + x2 < y * w + x,
{
}

/// Law: the neighbor count of any cell is at most 8.
pub proof fn lemma_neighbor_count_bounds(
    variant: Variant,
    cells: Seq<u32>,
    w: int,
    h: int,
    x: int,
    y: int,
)
    ensures
        neighbor_count(variant, cells, w, h, x, y) <= 8,
{
}

/// Law: wrapping is exact at the corner. The up-left diagonal neighbor of
/// `(0, 0)` is the cell at `(w - 1, h - 1)`, and when that cell is alive the
/// neighbor count of `(0, 0)` registers it.
pub proof fn lemma_wrap_corner(variant: Variant, cells: Seq<u32>, w: int, h: int)
    requires
        0 < w,
        0 < h,
    ensures
        neighbor_live(variant, cells, w, h, 0, 0, -1, -1) == (if is_alive(
            variant,
            cell_at(cells, w, w - 1, h - 1),
        ) {
            1nat
        } else {
            0nat
        }),
        is_alive(variant, cell_at(cells, w, w - 1, h - 1)) ==> neighbor_count(
            variant,
            cells,
            w,
            h,
            0,
            0,
        ) >= 1,
{
    lemma_fundamental_div_mod_converse(-1, w, -1, w - 1);
    lemma_fundamental_div_mod_converse(-1, h, -1, h - 1);
}

/// Law: an alive cell with no live neighbors dies of underpopulation.
pub proof fn lemma_underpopulation(
    variant: Variant,
    cells: Seq<u32>,
    w: int,
    h: int,
    x: int,
    y: int,
    out: u32,
)
    requires
        is_alive(variant, cell_at(cells, w, x, y)),
        neighbor_count(variant, cells, w, h, x, y) == 0,
        step_ok(variant, cells, w, h, x, y, out),
    ensures
        out == dead_color(variant),
{
}

/// Law: an alive cell with exactly four live neighbors dies of
/// overpopulation.
pub proof fn lemma_overpopulation(
    variant: Variant,
    cells: Seq<u32>,
    w: int,
    h: int,
    x: int,
    y: int,
    out: u32,
)
    requires
        is_alive(variant, cell_at(cells, w, x, y)),
        neighbor_count(variant, cells, w, h, x, y) == 4,
        step_ok(variant, cells, w, h, x, y, out),
    ensures
        out == dead_color(variant),
{
}

/// Law: a cell that survives (alive with 2 or 3 live neighbors) keeps its
/// exact color, in either variant.
pub proof fn lemma_survivor_keeps_color(
    variant: Variant,
    cells: Seq<u32>,
    w: int,
    h: int,
    x: int,
    y: int,
    out: u32,
)
    requires
        is_alive(variant, cell_at(cells, w, x, y)),
        neighbor_count(variant, cells, w, h, x, y) == 2 || neighbor_count(
            variant,
            cells,
            w,
            h,
            x,
            y,
        ) == 3,
        step_ok(variant, cells, w, h, x, y, out),
    ensures
        out == cell_at(cells, w, x, y),
{
}

/// An admissible newborn color is alive under the variant's predicate.
pub proof fn lemma_born_alive(variant: Variant, color: u32)
    requires
        born_color_ok(variant, color),
    ensures
        is_alive(variant, color),
{
    match variant {
        Variant::Binary => {
        },
        Variant::Colorized => {
            assert(color >> 24 == 0xFF ==> color != 0x000000FFu32) by (bit_vector);
        },
    }
}

/// On an all-dead grid every neighbor count is zero.
pub proof fn lemma_dead_grid_no_neighbors(
    variant: Variant,
    cells: Seq<u32>,
    w: int,
    h: int,
    x: int,
    y: int,
)
    requires
        0 < w,
        0 < h,
        cells.len() == w * h,
        all_dead(variant, cells),
    ensures
        neighbor_count(variant, cells, w, h, x, y) == 0,
{
    assert forall|dx: int, dy: int| -1 <= dx <= 1 && -1 <= dy <= 1 implies neighbor_live(
        variant,
        cells,
        w,
        h,
        x,
        y,
        dx,
        dy,
    ) == 0 by {
        lemma_mod_bound(x + dx, w);
        lemma_mod_bound(y + dy, h);
        lemma_row_major_in_bounds(w, h, (x + dx) % w, (y + dy) % h);
        assert(cells[((y + dy) % h) * w + ((x + dx) % w)] == dead_color(variant));
    }
}

/// Law: one whole-grid update of an all-dead grid yields an all-dead grid.
pub proof fn lemma_dead_grid_step(
    variant: Variant,
    cells: Seq<u32>,
    next: Seq<u32>,
    w: int,
    h: int,
)
    requires
        0 < w,
        0 < h,
        cells.len() == w * h,
        all_dead(variant, cells),
        grid_step_ok(variant, cells, next, w, h),
    ensures
        all_dead(variant, next),
{
    assert forall|i: int| 0 <= i < next.len() implies next[i] == dead_color(variant) by {
        let y = i / w;
        let x = i % w;
        lemma_mod_bound(i, w);
        lemma_fundamental_div_mod(i, w);
        assert(0 <= y && y < h && y * w + x == i) by (nonlinear_arith)
            requires
                i == w * y + x,
                0 <= x < w,
                0 <= i < w * h,
        ;
        lemma_dead_grid_no_neighbors(variant, cells, w, h, x, y);
        assert(step_ok(variant, cells, w, h, x, y, cell_at(next, w, x, y)));
        assert(cell_at(next, w, x, y) == next[i]);
    }
}

/// Law: the all-dead grid is a stable fixed point: two successive whole-grid
/// updates leave it all dead.
pub proof fn lemma_dead_grid_fixed_point(
    variant: Variant,
    cells: Seq<u32>,
    mid: Seq<u32>,
    next: Seq<u32>,
    w: int,
    h: int,
)
    requires
        0 < w,
        0 < h,
        cells.len() == w * h,
        all_dead(variant, cells),
        grid_step_ok(variant, cells, mid, w, h),
        grid_step_ok(variant, mid, next, w, h),
    ensures
        all_dead(variant, mid),
        all_dead(variant, next),
{
    lemma_dead_grid_step(variant, cells, mid, w, h);
    lemma_dead_grid_step(variant, mid, next, w, h);
}

/// Decides the variant's liveness predicate on a color.
pub fn color_is_alive(variant: Variant, color: u32) -> (r: bool)
    ensures
        r == is_alive(variant, color),
{
    match variant {
        Variant::Binary => color == ALIVE_BINARY,
        Variant::Colorized => color != DEAD_COLORIZED,
    }
}

/// The variant's dead color as a runtime value.
pub fn dead_color_value(variant: Variant) -> (c: u32)
    ensures
        c == dead_color(variant),
{
    match variant {
        Variant::Binary => DEAD_BINARY,
        Variant::Colorized => DEAD_COLORIZED,
    }
}

/// A uniformly random opaque color: random 8-bit channels packed as
/// `0xFF << 24 | r << 16 | g << 8 | b`.
pub fn generate_random_color() -> (c: u32)
    ensures
        c >> 24 == 0xFF,
        c != DEAD_COLORIZED,
{
    let r = random_below(256);
    let g = random_below(256);
    let b = random_below(256);
    let c: u32 = (0xFFu32 << 24) | (r << 16) | (g << 8) | b;
    proof {
        assert(c >> 24 == 0xFF && c != 0x000000FFu32) by (bit_vector)
            requires
                r < 256,
                g < 256,
                b < 256,
                c == (0xFFu32 << 24) | (r << 16) | (g << 8) | b,
        ;
    }
    c
}

/// The color a newborn cell receives: the fixed alive value in the binary
/// variant, a fresh random opaque color in the colorized one.
fn born_color(variant: Variant) -> (c: u32)
    ensures
        born_color_ok(variant, c),
{
    match variant {
        Variant::Binary => ALIVE_BINARY,
        Variant::Colorized => generate_random_color(),
    }
}

/// `(c - 1) mod m`, by Euclidean modulo.
fn wrap_dec(c: usize, m: usize) -> (r: usize)
    requires
        0 < m,
        c < m,
    ensures
        r == (c - 1) % (m as int),
        r < m,
{
    if c == 0 {
        proof {
            lemma_fundamental_div_mod_converse(-1, m as int, -1, m as int - 1);
        }
        m - 1
    } else {
        proof {
            lemma_small_mod((c - 1) as nat, m as nat);
        }
        c - 1
    }
}

/// `(c + 1) mod m`, by Euclidean modulo.
fn wrap_inc(c: usize, m: usize) -> (r: usize)
    requires
        0 < m,
        c < m,
    ensures
        r == (c + 1) % (m as int),
        r < m,
{
    if c + 1 == m {
        proof {
            lemma_fundamental_div_mod_converse(m as int, m as int, 1, 0);
        }
        0
    } else {
        proof {
            lemma_small_mod((c + 1) as nat, m as nat);
        }
        c + 1
    }
}

/// Reads the cell at in-range coordinates and applies the liveness predicate.
fn alive_cell(fb: &Framebuffer, variant: Variant, cx: usize, cy: usize) -> (r: bool)
    requires
        fb.well_formed(),
        cx < fb.width,
        cy < fb.height,
    ensures
        r == is_alive(variant, cell_at(fb.buffer@, fb.width as int, cx as int, cy as int)),
{
    let _len = fb.buffer.len();
    proof {
        lemma_row_major_in_bounds(fb.width as int, fb.height as int, cx as int, cy as int);
    }
    let idx = cy * fb.width + cx;
    color_is_alive(variant, fb.buffer[idx])
}

/// Counts the live cells among the 8 toroidal neighbors of `(x, y)`.
pub fn count_live_neighbors(fb: &Framebuffer, x: usize, y: usize, variant: Variant) -> (n: u8)
    requires
        fb.well_formed(),
        0 < fb.width,
        0 < fb.height,
        x < fb.width,
        y < fb.height,
    ensures
        n == neighbor_count(
            variant,
            fb.buffer@,
            fb.width as int,
            fb.height as int,
            x as int,
            y as int,
        ),
{
    let w = fb.width;
    let h = fb.height;
    let xm = wrap_dec(x, w);
    let xp = wrap_inc(x, w);
    let ym = wrap_dec(y, h);
    let yp = wrap_inc(y, h);
    proof {
        lemma_small_mod(x as nat, w as nat);
        lemma_small_mod(y as nat, h as nat);
    }
    let mut n: u8 = 0;
    if alive_cell(fb, variant, xm, ym) {
        n = n + 1;
    }
    if alive_cell(fb, variant, x, ym) {
        n = n + 1;
    }
    if alive_cell(fb, variant, xp, ym) {
        n = n + 1;
    }
    if alive_cell(fb, variant, xm, y) {
        n = n + 1;
    }
    if alive_cell(fb, variant, xp, y) {
        n = n + 1;
    }
    if alive_cell(fb, variant, xm, yp) {
        n = n + 1;
    }
    if alive_cell(fb, variant, x, yp) {
        n = n + 1;
    }
    if alive_cell(fb, variant, xp, yp) {
        n = n + 1;
    }
    n
}

/// Seeds the grid: each cell is independently alive (with the variant's
/// newborn color) with probability 3/10, else the variant's dead color.
pub fn initialize_random_particles(fb: &mut Framebuffer, variant: Variant)
    requires
        old(fb).well_formed(),
    ensures
        final(fb).well_formed(),
        final(fb).width == old(fb).width,
        final(fb).height == old(fb).height,
        forall|i: int|
            0 <= i < final(fb).buffer@.len() ==> (#[trigger] final(fb).buffer@[i] == dead_color(
                variant,
            ) || born_color_ok(variant, final(fb).buffer@[i])),
{
    let w = fb.width;
    let h = fb.height;
    let mut y: usize = 0;
    while y < h
        invariant
            fb.well_formed(),
            fb.width == w,
            fb.height == h,
            y <= h,
            forall|i: int|
                0 <= i < y * w ==> (#[trigger] fb.buffer@[i] == dead_color(variant)
                    || born_color_ok(variant, fb.buffer@[i])),
        decreases h - y,
    {
        let mut x: usize = 0;
        while x < w
            invariant
                fb.well_formed(),
                fb.width == w,
                fb.height == h,
                y < h,
                x <= w,
                forall|i: int|
                    0 <= i < y * w + x ==> (#[trigger] fb.buffer@[i] == dead_color(variant)
                        || born_color_ok(variant, fb.buffer@[i])),
            decreases w - x,
        {
            let color = if random_ratio(ALIVE_PROBABILITY_NUM, ALIVE_PROBABILITY_DEN) {
                born_color(variant)
            } else {
                dead_color_value(variant)
            };
            proof {
                lemma_row_major_in_bounds(w as int, h as int, x as int, y as int);
            }
            fb.set_pixel(x, y, color);
            x = x + 1;
        }
        proof {
            assert((y + 1) * w == y * w + w) by (nonlinear_arith);
        }
        y = y + 1;
    }
    proof {
        assert(h * w == w * h) by (nonlinear_arith);
    }
}

/// Computes the next generation into a fresh buffer and installs it: each
/// cell obeys the variant's transition rule against the old grid.
pub fn update_game_of_life(fb: &mut Framebuffer, variant: Variant)
    requires
        old(fb).well_formed(),
        0 < old(fb).width,
        0 < old(fb).height,
    ensures
        final(fb).well_formed(),
        final(fb).width == old(fb).width,
        final(fb).height == old(fb).height,
        grid_step_ok(
            variant,
            old(fb).buffer@,
            final(fb).buffer@,
            old(fb).width as int,
            old(fb).height as int,
        ),
{
    let w = fb.width;
    let h = fb.height;
    let ghost start = fb.buffer@;
    let mut next: Vec<u32> = Vec::new();
    let mut y: usize = 0;
    while y < h
        invariant
            fb.well_formed(),
            fb.width == w,
            fb.height == h,
            0 < w,
            0 < h,
            fb.buffer@ == start,
            y <= h,
            next@.len() == y * w,
            forall|xx: int, yy: int|
                0 <= xx < w && 0 <= yy < y ==> #[trigger] step_ok(
                    variant,
                    start,
                    w as int,
                    h as int,
                    xx,
                    yy,
                    cell_at(next@, w as int, xx, yy),
                ),
        decreases h - y,
    {
        let mut x: usize = 0;
        while x < w
            invariant
                fb.well_formed(),
                fb.width == w,
                fb.height == h,
                0 < w,
                0 < h,
                fb.buffer@ == start,
                y < h,
                x <= w,
                next@.len() == y * w + x,
                forall|xx: int, yy: int|
                    (0 <= yy < y && 0 <= xx < w) || (yy == y && 0 <= xx < x) ==> #[trigger] step_ok(
                        variant,
                        start,
                        w as int,
                        h as int,
                        xx,
                        yy,
                        cell_at(next@, w as int, xx, yy),
                    ),
            decreases w - x,
        {
            let _len = fb.buffer.len();
            proof {
                lemma_row_major_in_bounds(w as int, h as int, x as int, y as int);
            }
            let idx = y * w + x;
            let cur = fb.buffer[idx];
            let n = count_live_neighbors(fb, x, y, variant);
            let was_alive = color_is_alive(variant, cur);
            let out: u32 = if was_alive && (n == 2 || n == 3) {
                cur
            } else if !was_alive && n == 3 {
                born_color(variant)
            } else {
                dead_color_value(variant)
            };
            let ghost pre = next@;
            next.push(out);
            proof {
                assert(cur == cell_at(start, w as int, x as int, y as int));
                assert(step_ok(variant, start, w as int, h as int, x as int, y as int, out));
                assert forall|xx: int, yy: int|
                    (0 <= yy < y && 0 <= xx < w) || (yy == y && 0 <= xx < x + 1) implies #[trigger] step_ok(
                    variant,
                    start,
                    w as int,
                    h as int,
                    xx,
                    yy,
                    cell_at(next@, w as int, xx, yy),
                ) by {
                    if yy == y && xx == x {
                        assert(cell_at(next@, w as int, xx, yy) == out);
                    } else {
                        lemma_row_major_lt(w as int, x as int, y as int, xx, yy);
                        assert(cell_at(next@, w as int, xx, yy) == cell_at(pre, w as int, xx, yy));
                    }
                }
            }
            x = x + 1;
        }
        proof {
            assert((y + 1) * w == y * w + w) by (nonlinear_arith);
        }
        y = y + 1;
    }
    proof {
        assert(h * w == w * h) by (nonlinear_arith);
    }
    fb.buffer = next;
}

} // verus!
