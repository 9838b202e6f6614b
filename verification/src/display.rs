//! The 64x32 monochrome framebuffer: XOR-blit sprite model, collision
//! detection, palette, font glyph data, and the dirty flag gating redraw.
use vstd::prelude::*;

use crate::util::zero_bytes;
use vstd::arithmetic::div_mod::lemma_fundamental_div_mod;
use vstd::arithmetic::div_mod::lemma_fundamental_div_mod_converse_div;
use vstd::arithmetic::div_mod::lemma_fundamental_div_mod_converse_mod;
use vstd::arithmetic::div_mod::lemma_mod_multiples_vanish;
use vstd::arithmetic::div_mod::lemma_small_mod;

verus! {

pub const SCREEN_WIDTH: usize = 64;

pub const SCREEN_HEIGHT: usize = 32;

pub const SCREEN_SIZE: usize = 64 * 32;

pub const BYTES_PER_CHARACTER: u8 = 5;

pub const NUM_FONT_CHARACTERS: u8 = 16;

pub const FONT_ARRAY_SIZE: usize = 80;

/// The 16 font glyphs, 5 scanline bytes per glyph, as they are copied
/// into low memory at program load.
pub open spec fn font_seq() -> Seq<u8> {
    seq![
        0xF0u8, 0x90u8, 0x90u8, 0x90u8, 0xF0u8,
        0x20u8, 0x60u8, 0x20u8, 0x20u8, 0x70u8,
        0xF0u8, 0x10u8, 0xF0u8, 0x80u8, 0xF0u8,
        0xF0u8, 0x10u8, 0xF0u8, 0x10u8, 0xF0u8,
        0xA0u8, 0xA0u8, 0xE0u8, 0x20u8, 0x20u8,
        0xF0u8, 0x80u8, 0xF0u8, 0x10u8, 0xF0u8,
        0xF0u8, 0x80u8, 0xF0u8, 0x90u8, 0xF0u8,
        0xF0u8, 0x10u8, 0x20u8, 0x40u8, 0x40u8,
        0xF0u8, 0x90u8, 0xF0u8, 0x90u8, 0xF0u8,
        0xF0u8, 0x90u8, 0xF0u8, 0x10u8, 0xF0u8,
        0xF0u8, 0x90u8, 0xF0u8, 0x90u8, 0x90u8,
        0xE0u8, 0x80u8, 0xE0u8, 0x90u8, 0xE0u8,
        0xF0u8, 0x80u8, 0x80u8, 0x80u8, 0xF0u8,
        0xE0u8, 0x90u8, 0x90u8, 0x90u8, 0xE0u8,
        0xF0u8, 0x80u8, 0xF0u8, 0x80u8, 0xF0u8,
        0xF0u8, 0x80u8, 0xF0u8, 0x80u8, 0x80u8,
    ]
}

/// The font glyph bytes as an executable vector.
pub fn font_sprites() -> (v: Vec<u8>)
    ensures
        v@ == font_seq(),
{
    let mut v: Vec<u8> = Vec::new();
    v.push(0xF0);
    v.push(0x90);
    v.push(0x90);
    v.push(0x90);
    v.push(0xF0);
    v.push(0x20);
    v.push(0x60);
    v.push(0x20);
    v.push(0x20);
    v.push(0x70);
    v.push(0xF0);
    v.push(0x10);
    v.push(0xF0);
    v.push(0x80);
    v.push(0xF0);
    v.push(0xF0);
    v.push(0x10);
    v.push(0xF0);
    v.push(0x10);
    v.push(0xF0);
    v.push(0xA0);
    v.push(0xA0);
    v.push(0xE0);
    v.push(0x20);
    v.push(0x20);
    v.push(0xF0);
    v.push(0x80);
    v.push(0xF0);
    v.push(0x10);
    v.push(0xF0);
    v.push(0xF0);
    v.push(0x80);
    v.push(0xF0);
    v.push(0x90);
    v.push(0xF0);
    v.push(0xF0);
    v.push(0x10);
    v.push(0x20);
    v.push(0x40);
    v.push(0x40);
    v.push(0xF0);
    v.push(0x90);
    v.push(0xF0);
    v.push(0x90);
    v.push(0xF0);
    v.push(0xF0);
    v.push(0x90);
    v.push(0xF0);
    v.push(0x10);
    v.push(0xF0);
    v.push(0xF0);
    v.push(0x90);
    v.push(0xF0);
    v.push(0x90);
    v.push(0x90);
    v.push(0xE0);
    v.push(0x80);
    v.push(0xE0);
    v.push(0x90);
    v.push(0xE0);
    v.push(0xF0);
    v.push(0x80);
    v.push(0x80);
    v.push(0x80);
    v.push(0xF0);
    v.push(0xE0);
    v.push(0x90);
    v.push(0x90);
    v.push(0x90);
    v.push(0xE0);
    v.push(0xF0);
    v.push(0x80);
    v.push(0xF0);
    v.push(0x80);
    v.push(0xF0);
    v.push(0xF0);
    v.push(0x80);
    v.push(0xF0);
    v.push(0x80);
    v.push(0x80);
    assert(v@ =~= font_seq());
    v
}

/// The palette the display can cycle through.
pub open spec fn colors_seq() -> Seq<u32> {
    seq![
        0xFFFFFFu32, 0xFF0000u32, 0xFF8000u32, 0xFFFF00u32,
        0x80FF00u32, 0x00FF00u32, 0x00FF80u32, 0x00FFFFu32,
        0x0080FFu32, 0x0000FFu32, 0x7F00FFu32, 0xFF00FFu32,
        0xFF007Fu32, 0x808080u32,
    ]
}

/// The palette as an executable vector.
pub fn colors_vec() -> (v: Vec<u32>)
    ensures
        v@ == colors_seq(),
{
    let mut v: Vec<u32> = Vec::new();
    v.push(0xFFFFFF);
    v.push(0xFF0000);
    v.push(0xFF8000);
    v.push(0xFFFF00);
    v.push(0x80FF00);
    v.push(0x00FF00);
    v.push(0x00FF80);
    v.push(0x00FFFF);
    v.push(0x0080FF);
    v.push(0x0000FF);
    v.push(0x7F00FF);
    v.push(0xFF00FF);
    v.push(0xFF007F);
    v.push(0x808080);
    assert(v@ =~= colors_seq());
    v
}

/// Position of `c` in the palette, scanning from index `j`.
pub open spec fn color_pos_from(c: u32, j: int) -> Option<int>
    decreases 14 - j,
{
    if j < 0 || j >= 14 {
        None
    } else if colors_seq()[j] == c {
        Some(j)
    } else {
        color_pos_from(c, j + 1)
    }
}

/// The palette entry after `c`, cycling; a color outside the palette
/// stays as it is.
pub open spec fn next_color(c: u32) -> u32 {
    match color_pos_from(c, 0) {
        Some(j) => colors_seq()[if j + 1 < 14 {
            j + 1
        } else {
            0
        }],
        None => c,
    }
}

/// A well-formed framebuffer: 2048 cells, each holding 0 or 1.
pub open spec fn screen_wf(screen: Seq<u8>) -> bool {
    &&& screen.len() == 2048
    &&& forall|p: int| 0 <= p < 2048 ==> screen[p] == 0 || screen[p] == 1
}

/// Mathematical model of the display.
#[verifier::ext_equal]
pub ghost struct DisplayView {
    pub color: u32,
    pub redraw: bool,
    pub screen: Seq<u8>,
    pub times_rendered: u64,
}

impl DisplayView {
    pub open spec fn wf(self) -> bool {
        screen_wf(self.screen)
    }
}

/// Weight of sprite column `c`, counting bits from the most significant.
pub open spec fn bit_weight(c: int) -> int {
    if c == 0 {
        128
    } else if c == 1 {
        64
    } else if c == 2 {
        32
    } else if c == 3 {
        16
    } else if c == 4 {
        8
    } else if c == 5 {
        4
    } else if c == 6 {
        2
    } else {
        1
    }
}

/// Whether sprite scanline byte `line` has its pixel set in column `c`
/// (column 0 is the most significant bit).
pub open spec fn sprite_pixel_on(line: u8, c: int) -> bool {
    (line as int / bit_weight(c)) % 2 == 1
}

/// Framebuffer cell index of wrapped coordinates.
pub open spec fn cell_index(px: int, py: int) -> int {
    py * 64 + px
}

/// The sprite column that lands on cell `p` when the sprite's left edge
/// is at screen column `x mod 64` (64 if none: columns wrap modulo 64).
pub open spec fn hit_col(x: int, p: int) -> int {
    (p % 64 - x) % 64
}

/// The sprite row that lands on cell `p` when the sprite's top edge is
/// at screen row `y mod 32` (rows wrap modulo 32).
pub open spec fn hit_row(y: int, p: int) -> int {
    (p / 64 - y) % 32
}

/// Whether the `n`-row sprite at `mem[i..i+n]`, drawn at `(x, y)`,
/// toggles cell `p`.
pub open spec fn draw_toggles(mem: Seq<u8>, i: int, x: int, y: int, n: int, p: int) -> bool {
    &&& hit_col(x, p) < 8
    &&& hit_row(y, p) < n
    &&& sprite_pixel_on(mem[i + hit_row(y, p)], hit_col(x, p))
}

/// XOR-toggle of a one-bit cell.
pub open spec fn flip_cell(v: u8) -> u8 {
    if v == 0 {
        1u8
    } else {
        0u8
    }
}

/// The framebuffer after XOR-blitting the `n`-row sprite at
/// `mem[i..i+n]` onto `screen` at `(x, y)`: every cell a set sprite
/// pixel lands on is toggled, all others keep their value.
pub open spec fn draw_screen(screen: Seq<u8>, mem: Seq<u8>, i: int, x: int, y: int, n: int) -> Seq<
    u8,
> {
    Seq::new(
        2048,
        |p: int|
            if draw_toggles(mem, i, x, y, n, p) {
                flip_cell(screen[p])
            } else {
                screen[p]
            },
    )
}

/// Whether the draw clears any previously-set cell: the collision
/// condition that sets the flag register.
pub open spec fn draw_collides(screen: Seq<u8>, mem: Seq<u8>, i: int, x: int, y: int, n: int) -> bool {
    exists|p: int|
        0 <= p < 2048 && #[trigger] draw_toggles(mem, i, x, y, n, p) && screen[p] == 1
}

/// Whether the blit's row-major scan has already toggled cell `p` at
/// the moment it is about to process sprite row `r_done`, column
/// `c_done`.
pub open spec fn draw_toggles_before(
    mem: Seq<u8>,
    i: int,
    x: int,
    y: int,
    n: int,
    p: int,
    r_done: int,
    c_done: int,
) -> bool {
    &&& hit_col(x, p) < 8
    &&& hit_row(y, p) < n
    &&& (hit_row(y, p) < r_done || (hit_row(y, p) == r_done && hit_col(x, p) < c_done))
    &&& sprite_pixel_on(mem[i + hit_row(y, p)], hit_col(x, p))
}

/// The framebuffer part-way through the blit's row-major scan.
pub open spec fn partial_draw_screen(
    screen: Seq<u8>,
    mem: Seq<u8>,
    i: int,
    x: int,
    y: int,
    n: int,
    r_done: int,
    c_done: int,
) -> Seq<u8> {
    Seq::new(
        2048,
        |p: int|
            if draw_toggles_before(mem, i, x, y, n, p, r_done, c_done) {
                flip_cell(screen[p])
            } else {
                screen[p]
            },
    )
}

/// Whether the scan has hit a previously-set cell so far.
pub open spec fn partial_draw_collides(
    screen: Seq<u8>,
    mem: Seq<u8>,
    i: int,
    x: int,
    y: int,
    n: int,
    r_done: int,
    c_done: int,
) -> bool {
    exists|p: int|
        0 <= p < 2048 && #[trigger] draw_toggles_before(mem, i, x, y, n, p, r_done, c_done)
            && screen[p] == 1
}

/// Subtracting and re-adding the sprite origin modulo `m` recovers a
/// small offset `c`.
pub(crate) proof fn lemma_mod_offset_cancel(x: int, c: int, m: int)
    requires
        0 < m,
        0 <= c < m,
        0 <= x,
    ensures
        ((x + c) % m - x) % m == c,
{
    lemma_fundamental_div_mod(x + c, m);
    let k = (x + c) / m;
    assert((x + c) % m - x == c - m * k);
    lemma_mod_multiples_vanish(-k, c, m);
    assert(m * -k + c == c - m * k) by {
        assert(m * -k == -(m * k)) by (nonlinear_arith);
    }
    lemma_small_mod(c as nat, m as nat);
}

/// Two residues in `[0, m)` with equal offsets from `x` modulo `m` are
/// the same residue.
pub(crate) proof fn lemma_mod_offset_unique(u: int, v: int, x: int, m: int)
    requires
        0 < m,
        0 <= u < m,
        0 <= v < m,
        (u - x) % m == (v - x) % m,
    ensures
        u == v,
{
    lemma_fundamental_div_mod(u - x, m);
    lemma_fundamental_div_mod(v - x, m);
    let qu = (u - x) / m;
    let qv = (v - x) / m;
    assert(u - v == m * qu - m * qv);
    assert(m * qu - m * qv == m * (qu - qv)) by (nonlinear_arith);
    assert(-m < m * (qu - qv) < m);
    assert(qu - qv == 0) by (nonlinear_arith)
        requires
            0 < m,
            -m < m * (qu - qv) < m,
    ;
}

/// The unique framebuffer cell that sprite row `r`, column `c` lands on
/// when drawn at `(x, y)`.
pub proof fn lemma_hit_unique(x: int, y: int, r: int, c: int)
    requires
        0 <= x,
        0 <= y,
        0 <= r < 32,
        0 <= c < 8,
    ensures
        ({
            let p = cell_index((x + c) % 64, (y + r) % 32);
            &&& 0 <= p < 2048
            &&& hit_col(x, p) == c
            &&& hit_row(y, p) == r
            &&& forall|q: int|
                0 <= q < 2048 && #[trigger] hit_col(x, q) == c && hit_row(y, q) == r ==> q == p
        }),
{
    let px = (x + c) % 64;
    let py = (y + r) % 32;
    let p = cell_index(px, py);
    lemma_mod_division_bounds(x + c, 64);
    lemma_mod_division_bounds(y + r, 32);
    lemma_fundamental_div_mod_converse_mod(p, 64, py, px);
    lemma_fundamental_div_mod_converse_div(p, 64, py, px);
    assert(p % 64 == px && p / 64 == py);
    lemma_mod_offset_cancel(x, c, 64);
    lemma_mod_offset_cancel(y, r, 32);
    assert(hit_col(x, p) == c);
    assert(hit_row(y, p) == r);
    assert forall|q: int|
        0 <= q < 2048 && #[trigger] hit_col(x, q) == c && hit_row(y, q) == r implies q == p by {
        let qx = q % 64;
        let qy = q / 64;
        lemma_mod_division_bounds(q, 64);
        assert(0 <= qy < 32);
        lemma_mod_offset_unique(qx, px, x, 64);
        lemma_mod_offset_unique(qy, py, y, 32);
        lemma_fundamental_div_mod(q, 64);
    }
}

/// Division and remainder by a positive constant stay in range.
pub(crate) proof fn lemma_mod_division_bounds(a: int, m: int)
    requires
        0 < m,
    ensures
        0 <= a % m < m,
{
}

/// Before the scan starts nothing is toggled and no collision is seen.
pub(crate) proof fn lemma_partial_draw_start(
    screen: Seq<u8>,
    mem: Seq<u8>,
    i: int,
    x: int,
    y: int,
    n: int,
)
    requires
        screen.len() == 2048,
    ensures
        partial_draw_screen(screen, mem, i, x, y, n, 0, 0) =~= screen,
        !partial_draw_collides(screen, mem, i, x, y, n, 0, 0),
{
    assert forall|p: int| !draw_toggles_before(mem, i, x, y, n, p, 0, 0) by {
        lemma_mod_division_bounds(p / 64 - y, 32);
        lemma_mod_division_bounds(p % 64 - x, 64);
    }
}

/// Finishing a sprite row is the same scan point as starting the next.
pub(crate) proof fn lemma_partial_draw_row_roll(
    screen: Seq<u8>,
    mem: Seq<u8>,
    i: int,
    x: int,
    y: int,
    n: int,
    h: int,
)
    ensures
        partial_draw_screen(screen, mem, i, x, y, n, h, 8) =~= partial_draw_screen(
            screen,
            mem,
            i,
            x,
            y,
            n,
            h + 1,
            0,
        ),
        partial_draw_collides(screen, mem, i, x, y, n, h, 8) == partial_draw_collides(
            screen,
            mem,
            i,
            x,
            y,
            n,
            h + 1,
            0,
        ),
{
    assert forall|p: int|
        draw_toggles_before(mem, i, x, y, n, p, h, 8) == draw_toggles_before(
            mem,
            i,
            x,
            y,
            n,
            p,
            h + 1,
            0,
        ) by {}
    if partial_draw_collides(screen, mem, i, x, y, n, h, 8) {
        let p = choose|p: int|
            0 <= p < 2048 && #[trigger] draw_toggles_before(mem, i, x, y, n, p, h, 8) && screen[p]
                == 1;
        assert(0 <= p < 2048 && draw_toggles_before(mem, i, x, y, n, p, h + 1, 0) && screen[p]
            == 1);
    }
    if partial_draw_collides(screen, mem, i, x, y, n, h + 1, 0) {
        let p = choose|p: int|
            0 <= p < 2048 && #[trigger] draw_toggles_before(mem, i, x, y, n, p, h + 1, 0)
                && screen[p] == 1;
        assert(0 <= p < 2048 && draw_toggles_before(mem, i, x, y, n, p, h, 8) && screen[p] == 1);
    }
}

/// A scan that has processed all `n` rows is the full blit.
pub(crate) proof fn lemma_partial_draw_finish(
    screen: Seq<u8>,
    mem: Seq<u8>,
    i: int,
    x: int,
    y: int,
    n: int,
)
    ensures
        partial_draw_screen(screen, mem, i, x, y, n, n, 0) =~= draw_screen(
            screen,
            mem,
            i,
            x,
            y,
            n,
        ),
        partial_draw_collides(screen, mem, i, x, y, n, n, 0) == draw_collides(
            screen,
            mem,
            i,
            x,
            y,
            n,
        ),
{
    assert forall|p: int|
        draw_toggles_before(mem, i, x, y, n, p, n, 0) == draw_toggles(mem, i, x, y, n, p) by {}
    if partial_draw_collides(screen, mem, i, x, y, n, n, 0) {
        let p = choose|p: int|
            0 <= p < 2048 && #[trigger] draw_toggles_before(mem, i, x, y, n, p, n, 0) && screen[p]
                == 1;
        assert(0 <= p < 2048 && draw_toggles(mem, i, x, y, n, p) && screen[p] == 1);
    }
    if draw_collides(screen, mem, i, x, y, n) {
        let p = choose|p: int|
            0 <= p < 2048 && #[trigger] draw_toggles(mem, i, x, y, n, p) && screen[p] == 1;
        assert(0 <= p < 2048 && draw_toggles_before(mem, i, x, y, n, p, n, 0) && screen[p] == 1);
    }
}

/// One scan step: the cell that sprite row `h`, column `c` lands on is
/// the only cell whose state the step can change, it has not been
/// touched by the scan so far, and the partial collision account
/// advances by exactly that cell's prior value.
pub(crate) proof fn lemma_partial_draw_step(
    screen: Seq<u8>,
    mem: Seq<u8>,
    i: int,
    x: int,
    y: int,
    n: int,
    h: int,
    c: int,
)
    requires
        screen.len() == 2048,
        0 <= x,
        0 <= y,
        0 <= h < n,
        n <= 32,
        0 <= c < 8,
    ensures
        ({
            let p0 = cell_index((x + c) % 64, (y + h) % 32);
            &&& 0 <= p0 < 2048
            &&& !draw_toggles_before(mem, i, x, y, n, p0, h, c)
            &&& partial_draw_screen(screen, mem, i, x, y, n, h, c)[p0] == screen[p0]
            &&& (sprite_pixel_on(mem[i + h], c) ==> {
                &&& partial_draw_screen(screen, mem, i, x, y, n, h, c + 1) =~= partial_draw_screen(
                    screen,
                    mem,
                    i,
                    x,
                    y,
                    n,
                    h,
                    c,
                ).update(p0, flip_cell(screen[p0]))
                &&& partial_draw_collides(screen, mem, i, x, y, n, h, c + 1) == (
                partial_draw_collides(screen, mem, i, x, y, n, h, c) || screen[p0] == 1)
            })
            &&& (!sprite_pixel_on(mem[i + h], c) ==> {
                &&& partial_draw_screen(screen, mem, i, x, y, n, h, c + 1) =~= partial_draw_screen(
                    screen,
                    mem,
                    i,
                    x,
                    y,
                    n,
                    h,
                    c,
                )
                &&& partial_draw_collides(screen, mem, i, x, y, n, h, c + 1) == partial_draw_collides(
                    screen,
                    mem,
                    i,
                    x,
                    y,
                    n,
                    h,
                    c,
                )
            })
        }),
{
    lemma_hit_unique(x, y, h, c);
    let p0 = cell_index((x + c) % 64, (y + h) % 32);
    assert(hit_col(x, p0) == c && hit_row(y, p0) == h);
    assert forall|q: int|
        0 <= q < 2048 && q != p0 implies (draw_toggles_before(mem, i, x, y, n, q, h, c + 1)
        == draw_toggles_before(mem, i, x, y, n, q, h, c)) by {
        if hit_col(x, q) == c && hit_row(y, q) == h {
            assert(q == p0);
        }
    }
    if sprite_pixel_on(mem[i + h], c) {
        assert(draw_toggles_before(mem, i, x, y, n, p0, h, c + 1));
        let s_pre = partial_draw_screen(screen, mem, i, x, y, n, h, c);
        let s_post = partial_draw_screen(screen, mem, i, x, y, n, h, c + 1);
        assert forall|q: int| 0 <= q < 2048 implies s_post[q] == s_pre.update(
            p0,
            flip_cell(screen[p0]),
        )[q] by {}
        if partial_draw_collides(screen, mem, i, x, y, n, h, c + 1) {
            let q = choose|q: int|
                0 <= q < 2048 && #[trigger] draw_toggles_before(mem, i, x, y, n, q, h, c + 1)
                    && screen[q] == 1;
            if q != p0 {
                assert(draw_toggles_before(mem, i, x, y, n, q, h, c));
                assert(partial_draw_collides(screen, mem, i, x, y, n, h, c));
            }
        }
        if partial_draw_collides(screen, mem, i, x, y, n, h, c) {
            let q = choose|q: int|
                0 <= q < 2048 && #[trigger] draw_toggles_before(mem, i, x, y, n, q, h, c)
                    && screen[q] == 1;
            assert(draw_toggles_before(mem, i, x, y, n, q, h, c + 1));
            assert(partial_draw_collides(screen, mem, i, x, y, n, h, c + 1));
        }
        if screen[p0] == 1 {
            assert(draw_toggles_before(mem, i, x, y, n, p0, h, c + 1));
            assert(partial_draw_collides(screen, mem, i, x, y, n, h, c + 1));
        }
    } else {
        assert forall|q: int|
            0 <= q < 2048 implies (draw_toggles_before(mem, i, x, y, n, q, h, c + 1)
            == draw_toggles_before(mem, i, x, y, n, q, h, c)) by {
            if hit_col(x, q) == c && hit_row(y, q) == h {
                assert(q == p0);
                assert(!draw_toggles_before(mem, i, x, y, n, q, h, c + 1));
                assert(!draw_toggles_before(mem, i, x, y, n, q, h, c));
            }
        }
        if partial_draw_collides(screen, mem, i, x, y, n, h, c + 1) {
            let q = choose|q: int|
                0 <= q < 2048 && #[trigger] draw_toggles_before(mem, i, x, y, n, q, h, c + 1)
                    && screen[q] == 1;
            assert(draw_toggles_before(mem, i, x, y, n, q, h, c));
            assert(partial_draw_collides(screen, mem, i, x, y, n, h, c));
        }
        if partial_draw_collides(screen, mem, i, x, y, n, h, c) {
            let q = choose|q: int|
                0 <= q < 2048 && #[trigger] draw_toggles_before(mem, i, x, y, n, q, h, c)
                    && screen[q] == 1;
            assert(draw_toggles_before(mem, i, x, y, n, q, h, c + 1));
            assert(partial_draw_collides(screen, mem, i, x, y, n, h, c + 1));
        }
    }
}

/// Executable weight of sprite column `c`.
pub(crate) fn col_weight(c: usize) -> (m: u8)
    requires
        c < 8,
    ensures
        m as int == bit_weight(c as int),
{
    if c == 0 {
        128
    } else if c == 1 {
        64
    } else if c == 2 {
        32
    } else if c == 3 {
        16
    } else if c == 4 {
        8
    } else if c == 5 {
        4
    } else if c == 6 {
        2
    } else {
        1
    }
}

/// Drawing the same sprite twice at the same location restores the
/// prior framebuffer: the XOR-blit is its own inverse over two
/// applications.
pub proof fn lemma_draw_twice_restores(screen: Seq<u8>, mem: Seq<u8>, i: int, x: int, y: int, n: int)
    requires
        screen_wf(screen),
    ensures
        draw_screen(draw_screen(screen, mem, i, x, y, n), mem, i, x, y, n) =~= screen,
{
    let s1 = draw_screen(screen, mem, i, x, y, n);
    let s2 = draw_screen(s1, mem, i, x, y, n);
    assert forall|p: int| 0 <= p < 2048 implies s2[p] == screen[p] by {
        if draw_toggles(mem, i, x, y, n, p) {
            assert(s2[p] == flip_cell(flip_cell(screen[p])));
        }
    }
}

/// The second of two identical draws reports a collision exactly when
/// some sprite pixel lands on a cell the prior framebuffer had clear:
/// the first draw lit that cell, so the second clears it again.
pub proof fn lemma_draw_twice_collision(screen: Seq<u8>, mem: Seq<u8>, i: int, x: int, y: int, n: int)
    requires
        screen_wf(screen),
    ensures
        draw_collides(draw_screen(screen, mem, i, x, y, n), mem, i, x, y, n) <==> (exists|p: int|
            0 <= p < 2048 && #[trigger] draw_toggles(mem, i, x, y, n, p) && screen[p] == 0),
{
    let s1 = draw_screen(screen, mem, i, x, y, n);
    if draw_collides(s1, mem, i, x, y, n) {
        let p = choose|p: int|
            0 <= p < 2048 && #[trigger] draw_toggles(mem, i, x, y, n, p) && s1[p] == 1;
        assert(s1[p] == flip_cell(screen[p]));
        assert(0 <= p < 2048 && draw_toggles(mem, i, x, y, n, p) && screen[p] == 0);
    }
    if exists|p: int| 0 <= p < 2048 && #[trigger] draw_toggles(mem, i, x, y, n, p) && screen[p]
        == 0 {
        let p = choose|p: int|
            0 <= p < 2048 && #[trigger] draw_toggles(mem, i, x, y, n, p) && screen[p] == 0;
        assert(s1[p] == flip_cell(screen[p]));
        assert(0 <= p < 2048 && draw_toggles(mem, i, x, y, n, p) && s1[p] == 1);
    }
}

/// The framebuffer and its render bookkeeping. Rendering is pull-based:
/// the host asks for a frame, and a frame is produced only while the
/// dirty flag is set.
pub struct MiniFbDisplay {
    color: u32,
    redraw: bool,
    screen: Vec<u8>,
    times_rendered: u64,
}

impl View for MiniFbDisplay {
    type V = DisplayView;

    closed spec fn view(&self) -> DisplayView {
        DisplayView {
            color: self.color,
            redraw: self.redraw,
            screen: self.screen@,
            times_rendered: self.times_rendered,
        }
    }
}

impl MiniFbDisplay {
    pub fn new(initial_color: u32) -> (d: MiniFbDisplay)
        ensures
            d@.wf(),
            d@.color == initial_color,
            !d@.redraw,
            d@.screen =~= Seq::new(2048, |p: int| 0u8),
            d@.times_rendered == 0,
    {
        MiniFbDisplay {
            color: initial_color,
            redraw: false,
            screen: zero_bytes(SCREEN_SIZE),
            times_rendered: 0,
        }
    }

    pub fn read(&self, pos: usize) -> (r: u8)
        requires
            self@.wf(),
            pos < 2048,
        ensures
            r == self@.screen[pos as int],
    {
        self.screen[pos]
    }

    pub fn write(&mut self, pos: usize, value: u8)
        requires
            old(self)@.wf(),
            pos < 2048,
            value == 0 || value == 1,
        ensures
            final(self)@ == (DisplayView {
                screen: old(self)@.screen.update(pos as int, value),
                ..old(self)@
            }),
            final(self)@.wf(),
    {
        self.screen.set(pos, value);
    }

    pub fn set_redraw(&mut self, redraw: bool)
        ensures
            final(self)@ == (DisplayView { redraw: redraw, ..old(self)@ }),
    {
        self.redraw = redraw;
    }

    /// Advance the display color to the next palette entry, cycling;
    /// a color outside the palette is kept.
    pub fn change_color(&mut self)
        ensures
            final(self)@ == (DisplayView { color: next_color(old(self)@.color), ..old(self)@ }),
    {
        let palette = colors_vec();
        let mut j: usize = 0;
        while j < 14
            invariant
                j <= 14,
                self == old(self),
                palette@ == colors_seq(),
                color_pos_from(self@.color, 0) == color_pos_from(self@.color, j as int),
            decreases 14 - j,
        {
            if palette[j] == self.color {
                let jn: usize = if j + 1 < 14 {
                    j + 1
                } else {
                    0
                };
                self.color = palette[jn];
                return ;
            }
            j = j + 1;
        }
    }

    /// Clear every framebuffer cell; the dirty flag is raised if any
    /// cell was lit.
    pub fn clear(&mut self)
        requires
            old(self)@.wf(),
        ensures
            final(self)@.wf(),
            final(self)@.screen =~= Seq::new(2048, |p: int| 0u8),
            final(self)@.redraw == (old(self)@.redraw || exists|p: int|
                0 <= p < 2048 && old(self)@.screen[p] != 0),
            final(self)@.color == old(self)@.color,
            final(self)@.times_rendered == old(self)@.times_rendered,
    {
        let mut p: usize = 0;
        while p < SCREEN_SIZE
            invariant
                p <= 2048,
                self@.wf(),
                self@.color == old(self)@.color,
                self@.times_rendered == old(self)@.times_rendered,
                self@.screen.len() == 2048,
                forall|q: int| 0 <= q < p ==> self@.screen[q] == 0,
                forall|q: int| p <= q < 2048 ==> self@.screen[q] == old(self)@.screen[q],
                self@.redraw == (old(self)@.redraw || exists|q: int|
                    0 <= q < p && old(self)@.screen[q] != 0),
            decreases 2048 - p,
        {
            if self.screen[p] != 0 {
                self.redraw = true;
                self.screen.set(p, 0);
                assert(old(self)@.screen[p as int] != 0);
            }
            p = p + 1;
        }
        assert(self@.screen =~= Seq::new(2048, |q: int| 0u8));
    }

    /// Produce a frame if the dirty flag is set: one 32-bit pixel per
    /// cell, lit cells in the display color. On success the dirty flag
    /// is cleared and the render counter advances.
    pub fn render(&mut self) -> (frame: Option<Vec<u32>>)
        requires
            old(self)@.wf(),
        ensures
            final(self)@.wf(),
            final(self)@.screen == old(self)@.screen,
            final(self)@.color == old(self)@.color,
            match frame {
                None => !old(self)@.redraw && final(self)@ == old(self)@,
                Some(buf) => {
                    &&& old(self)@.redraw
                    &&& !final(self)@.redraw
                    &&& final(self)@.times_rendered == wrap_inc_u64(old(self)@.times_rendered)
                    &&& buf@.len() == 2048
                    &&& forall|p: int|
                        0 <= p < 2048 ==> buf@[p] == (if old(self)@.screen[p] != 0 {
                            old(self)@.color
                        } else {
                            0u32
                        })
                },
            },
    {
        if !self.redraw {
            return None;
        }
        let mut buf: Vec<u32> = Vec::new();
        let mut p: usize = 0;
        while p < SCREEN_SIZE
            invariant
                p <= 2048,
                self == old(self),
                self@.wf(),
                buf@.len() == p,
                forall|q: int|
                    0 <= q < p ==> buf@[q] == (if self@.screen[q] != 0 {
                        self@.color
                    } else {
                        0u32
                    }),
            decreases 2048 - p,
        {
            if self.screen[p] != 0 {
                buf.push(self.color);
            } else {
                buf.push(0u32);
            }
            p = p + 1;
        }
        self.redraw = false;
        self.times_rendered = self.times_rendered.wrapping_add(1);
        Some(buf)
    }

    pub fn get_times_rendered(&self) -> (r: u64)
        ensures
            r == self@.times_rendered,
    {
        self.times_rendered
    }
}

/// A 64-bit counter advanced by one, wrapping at the top of its range.
pub open spec fn wrap_inc_u64(x: u64) -> u64 {
    if x == u64::MAX {
        0u64
    } else {
        (x + 1) as u64
    }
}

} // verus!
