use vstd::arithmetic::div_mod::{
    lemma_fundamental_div_mod, lemma_fundamental_div_mod_converse, lemma_mod_add_multiples_vanish,
};
use vstd::prelude::*;

verus! {

/// Whether a draw turned off a pixel that was set before.
#[derive(PartialEq, Eq, Structural, Copy, Clone, Debug)]
pub enum DrawResult {
    Overwrite,
    NoOverwrite,
}

pub const WIDTH: usize = 64;

pub const HEIGHT: usize = 32;

/// The 64x32 monochrome pixel surface, stored row by row.
pub struct Display {
    memory: [bool; 2048],
}

impl View for Display {
    type V = Seq<bool>;

    closed spec fn view(&self) -> Seq<bool> {
        self.memory@
    }
}

/// Position in the row-by-row view of the cell that `(x, y)` wraps to.
pub open spec fn cell_index(x: int, y: int) -> int {
    (x % 64) + (y % 32) * 64
}

/// A surface with every pixel off.
pub open spec fn blank() -> Seq<bool> {
    Seq::new(2048, |_i: int| false)
}

/// Column offset of column `cx` from the origin column `x0`, counted rightwards with wrap.
pub open spec fn offset_x(cx: int, x0: int) -> int {
    if cx >= x0 {
        cx - x0
    } else {
        cx + 64 - x0
    }
}

/// Row offset of row `cy` from the origin row `y0`, counted downwards with wrap.
pub open spec fn offset_y(cy: int, y0: int) -> int {
    if cy >= y0 {
        cy - y0
    } else {
        cy + 32 - y0
    }
}

/// The sprite bit at column `dx` of row `dy`; the most significant bit is column 0.
pub open spec fn sprite_bit(sprite: Seq<u8>, dx: int, dy: int) -> bool {
    0 <= dx < 8 && 0 <= dy < sprite.len() && (sprite[dy] >> ((7 - dx) as u8)) & 1 == 1
}

/// Whether cell `c` lies under a sprite of `rows` rows drawn at `(x0, y0)`.
pub open spec fn in_footprint(c: int, x0: int, y0: int, rows: int) -> bool {
    offset_x(c % 64, x0) < 8 && offset_y(c / 64, y0) < rows
}

/// The surface after XOR-ing `sprite` onto `old` with its top-left corner at `(x, y)`.
pub open spec fn drawn(old: Seq<bool>, x: int, y: int, sprite: Seq<u8>) -> Seq<bool> {
    Seq::new(
        2048,
        |c: int|
            old[c] != sprite_bit(
                sprite,
                offset_x(c % 64, x % 64),
                offset_y(c / 64, y % 32),
            ),
    )
}

/// Whether any cell under the sprite was set before the draw.
pub open spec fn collides(old: Seq<bool>, x: int, y: int, sprite: Seq<u8>) -> bool {
    exists|c: int|
        0 <= c < 2048 && #[trigger] in_footprint(c, x % 64, y % 32, sprite.len() as int) && old[c]
}

/// Cell `c` has been visited once the draw loop has reached row `j`, column `i`.
spec fn visited(c: int, x0: int, y0: int, i: int, j: int) -> bool {
    let dx = offset_x(c % 64, x0);
    let dy = offset_y(c / 64, y0);
    dx < 8 && (dy < j || (dy == j && dx < i))
}

/// The cell under column `i`, row `j` of a sprite drawn at `(x0, y0)` has offsets `(i, j)`,
/// and it is the only cell that the visit at `(i, j)` adds.
proof fn lemma_visit_step(x0: int, y0: int, i: int, j: int)
    requires
        0 <= x0 < 64,
        0 <= y0 < 32,
        0 <= i < 8,
        0 <= j < 32,
    ensures
        0 <= cell_index(x0 + i, y0 + j) < 2048,
        offset_x(cell_index(x0 + i, y0 + j) % 64, x0) == i,
        offset_y(cell_index(x0 + i, y0 + j) / 64, y0) == j,
        forall|c: int|
            0 <= c < 2048 ==> (#[trigger] visited(c, x0, y0, i + 1, j) == (visited(c, x0, y0, i, j)
                || c == cell_index(x0 + i, y0 + j))),
        !visited(cell_index(x0 + i, y0 + j), x0, y0, i, j),
{
    let cx = if x0 + i >= 64 { x0 + i - 64 } else { x0 + i };
    let cy = if y0 + j >= 32 { y0 + j - 32 } else { y0 + j };
    assert((x0 + i) % 64 == cx);
    assert((y0 + j) % 32 == cy);
    let c0 = cx + cy * 64;
    assert(c0 % 64 == cx && c0 / 64 == cy) by {
        lemma_fundamental_div_mod_converse(c0, 64, cy, cx);
    }
    assert forall|c: int| 0 <= c < 2048 implies (#[trigger] visited(c, x0, y0, i + 1, j) == (
    visited(c, x0, y0, i, j) || c == c0)) by {
        lemma_fundamental_div_mod(c, 64);
        if c == c0 {
        }
    }
}

impl Default for Display {
    fn default() -> (r: Display)
        ensures
            r@ == blank(),
    {
        Display::new()
    }
}

impl Display {
    pub fn new() -> (r: Display)
        ensures
            r@ == blank(),
    {
        let r = Display { memory: [false; 2048] };
        assert(r@ =~= blank());
        r
    }

    pub fn reset(&mut self)
        ensures
            final(self)@ == blank(),
    {
        self.clear()
    }

    /// Turns every pixel off.
    pub fn clear(&mut self)
        ensures
            final(self)@ == blank(),
    {
        let mut i: usize = 0;
        while i < 2048
            invariant
                i <= 2048,
                self@.len() == 2048,
                forall|j: int| 0 <= j < i ==> !self@[j],
            decreases 2048 - i,
        {
            self.memory[i] = false;
            i = i + 1;
        }
        assert(self@ =~= blank());
    }

    /// The surface always holds exactly 64 x 32 cells.
    pub proof fn lemma_size(&self)
        ensures
            self@.len() == 2048,
    {
    }

    pub fn is_pixel_set(&self, x: usize, y: usize) -> (r: bool)
        ensures
            r == self@[cell_index(x as int, y as int)],
    {
        self.memory[(x % WIDTH) + (y % HEIGHT) * WIDTH]
    }

    pub fn set_pixel(&mut self, x: usize, y: usize, state: bool)
        ensures
            final(self)@ == old(self)@.update(cell_index(x as int, y as int), state),
    {
        self.memory[(x % WIDTH) + (y % HEIGHT) * WIDTH] = state;
    }

    /// XORs `sprite` (one byte per row, 8 pixels wide) onto the surface at `(x, y)`,
    /// wrapping on both axes, and reports whether any cell under it was set before.
    #[verifier::rlimit(30)]
    pub fn draw(&mut self, x: usize, y: usize, sprite: &[u8]) -> (r: DrawResult)
        requires
            sprite@.len() <= HEIGHT,
        ensures
            final(self)@ == drawn(old(self)@, x as int, y as int, sprite@),
            (r == DrawResult::Overwrite) == collides(old(self)@, x as int, y as int, sprite@),
    {
        let ghost old_px = self@;
        let x0 = x % WIDTH;
        let y0 = y % HEIGHT;
        let rows = sprite.len();
        let mut res = DrawResult::NoOverwrite;
        let mut j: usize = 0;
        while j < rows
            invariant
                x0 == x % 64,
                y0 == y % 32,
                rows == sprite@.len(),
                rows <= 32,
                j <= rows,
                self@.len() == 2048,
                old_px.len() == 2048,
                forall|c: int|
                    0 <= c < 2048 ==> self@[c] == (old_px[c] != (visited(c, x0 as int, y0 as int, 0, j as int)
                        && sprite_bit(sprite@, offset_x(c % 64, x0 as int), offset_y(c / 64, y0 as int)))),
                (res == DrawResult::Overwrite) == exists|c: int|
                    0 <= c < 2048 && #[trigger] visited(c, x0 as int, y0 as int, 0, j as int) && old_px[c],
            decreases rows - j,
        {
            let byte = sprite[j];
            let mut i: usize = 0;
            while i < 8
                invariant
                    x0 == x % 64,
                    y0 == y % 32,
                    rows == sprite@.len(),
                    rows <= 32,
                    j < rows,
                    i <= 8,
                    byte == sprite@[j as int],
                    self@.len() == 2048,
                    old_px.len() == 2048,
                    forall|c: int|
                        0 <= c < 2048 ==> self@[c] == (old_px[c] != (visited(c, x0 as int, y0 as int, i as int, j as int)
                            && sprite_bit(sprite@, offset_x(c % 64, x0 as int), offset_y(c / 64, y0 as int)))),
                    (res == DrawResult::Overwrite) == exists|c: int|
                        0 <= c < 2048 && #[trigger] visited(c, x0 as int, y0 as int, i as int, j as int) && old_px[c],
                decreases 8 - i,
            {
                let new_value = (byte >> ((7 - i) as u8)) & 1;
                let old_value = self.is_pixel_set(x0 + i, y0 + j);
                let ghost c0 = cell_index((x0 + i) as int, (y0 + j) as int);
                proof {
                    lemma_visit_step(x0 as int, y0 as int, i as int, j as int);
                }
                if old_value {
                    res = DrawResult::Overwrite;
                }
                self.set_pixel(x0 + i, y0 + j, (new_value == 1) != old_value);
                proof {
                    assert(sprite_bit(sprite@, i as int, j as int) == (new_value == 1));
                    assert(old_value == old_px[c0]);
                    let ghost prev = exists|c: int|
                        0 <= c < 2048 && #[trigger] visited(c, x0 as int, y0 as int, i as int, j as int) && old_px[c];
                    let ghost next = exists|c: int|
                        0 <= c < 2048 && #[trigger] visited(c, x0 as int, y0 as int, i as int + 1, j as int) && old_px[c];
                    if prev {
                        let c = choose|c: int|
                            0 <= c < 2048 && #[trigger] visited(c, x0 as int, y0 as int, i as int, j as int) && old_px[c];
                        assert(visited(c, x0 as int, y0 as int, i as int + 1, j as int));
                    }
                    if old_value {
                        assert(visited(c0, x0 as int, y0 as int, i as int + 1, j as int) && old_px[c0]);
                    }
                    if next {
                        let c = choose|c: int|
                            0 <= c < 2048 && #[trigger] visited(c, x0 as int, y0 as int, i as int + 1, j as int) && old_px[c];
                        assert(c == c0 || visited(c, x0 as int, y0 as int, i as int, j as int));
                    }
                    assert(next == (prev || old_value));
                }
                i = i + 1;
            }
            proof {
                assert forall|c: int| 0 <= c < 2048 implies
                    #[trigger] visited(c, x0 as int, y0 as int, 0, j as int + 1)
                        == visited(c, x0 as int, y0 as int, 8, j as int) by {}
                if exists|c: int| 0 <= c < 2048 && #[trigger] visited(c, x0 as int, y0 as int, 8, j as int) && old_px[c] {
                    let c = choose|c: int| 0 <= c < 2048 && #[trigger] visited(c, x0 as int, y0 as int, 8, j as int) && old_px[c];
                    assert(visited(c, x0 as int, y0 as int, 0, j as int + 1));
                }
                if exists|c: int| 0 <= c < 2048 && #[trigger] visited(c, x0 as int, y0 as int, 0, j as int + 1) && old_px[c] {
                    let c = choose|c: int| 0 <= c < 2048 && #[trigger] visited(c, x0 as int, y0 as int, 0, j as int + 1) && old_px[c];
                    assert(visited(c, x0 as int, y0 as int, 8, j as int));
                }
            }
            j = j + 1;
        }
        proof {
            assert forall|c: int| 0 <= c < 2048 implies
                #[trigger] visited(c, x0 as int, y0 as int, 0, rows as int)
                    == in_footprint(c, x0 as int, y0 as int, rows as int) by {}
            if exists|c: int| 0 <= c < 2048 && #[trigger] visited(c, x0 as int, y0 as int, 0, rows as int) && old_px[c] {
                let c = choose|c: int| 0 <= c < 2048 && #[trigger] visited(c, x0 as int, y0 as int, 0, rows as int) && old_px[c];
                assert(in_footprint(c, x0 as int, y0 as int, rows as int));
            }
            if collides(old_px, x as int, y as int, sprite@) {
                let c = choose|c: int| 0 <= c < 2048 && #[trigger] in_footprint(c, x0 as int, y0 as int, rows as int) && old_px[c];
                assert(visited(c, x0 as int, y0 as int, 0, rows as int));
            }
            assert(self@ =~= drawn(old_px, x as int, y as int, sprite@));
        }
        res
    }
}

/// Drawing the same sprite twice at the same origin gives back the surface as it was.
pub proof fn lemma_draw_twice_restores(old: Seq<bool>, x: int, y: int, sprite: Seq<u8>)
    requires
        old.len() == 2048,
    ensures
        drawn(drawn(old, x, y, sprite), x, y, sprite) == old,
{
    assert(drawn(drawn(old, x, y, sprite), x, y, sprite) =~= old);
}

/// The second of two identical draws reports a collision whenever the first left some
/// cell under the sprite set, that is, whenever the cells under the sprite did not
/// already hold exactly its pattern.
pub proof fn lemma_second_draw_collides(old: Seq<bool>, x: int, y: int, sprite: Seq<u8>)
    requires
        old.len() == 2048,
        exists|c: int|
            0 <= c < 2048 && #[trigger] in_footprint(c, x % 64, y % 32, sprite.len() as int)
                && old[c] != sprite_bit(sprite, offset_x(c % 64, x % 64), offset_y(c / 64, y % 32)),
    ensures
        collides(drawn(old, x, y, sprite), x, y, sprite),
{
    let c = choose|c: int|
        0 <= c < 2048 && #[trigger] in_footprint(c, x % 64, y % 32, sprite.len() as int)
            && old[c] != sprite_bit(sprite, offset_x(c % 64, x % 64), offset_y(c / 64, y % 32));
    assert(drawn(old, x, y, sprite)[c]);
}

/// A draw onto a blank surface never reports a collision.
pub proof fn lemma_draw_on_blank(x: int, y: int, sprite: Seq<u8>)
    ensures
        !collides(blank(), x, y, sprite),
{
}

/// Coordinates wrap: one full width to the right, or one full height down, is the same cell,
/// and a draw there is the same draw.
pub proof fn lemma_wrap(old: Seq<bool>, x: int, y: int, sprite: Seq<u8>)
    requires
        x >= 0,
        y >= 0,
    ensures
        cell_index(x + 64, y) == cell_index(x, y),
        cell_index(x, y + 32) == cell_index(x, y),
        drawn(old, x + 64, y, sprite) == drawn(old, x, y, sprite),
        drawn(old, x, y + 32, sprite) == drawn(old, x, y, sprite),
        collides(old, x + 64, y, sprite) == collides(old, x, y, sprite),
        collides(old, x, y + 32, sprite) == collides(old, x, y, sprite),
{
    lemma_mod_add_multiples_vanish(x, 64);
    lemma_mod_add_multiples_vanish(y, 32);
    assert(drawn(old, x + 64, y, sprite) =~= drawn(old, x, y, sprite));
    assert(drawn(old, x, y + 32, sprite) =~= drawn(old, x, y, sprite));
}

} // verus!
