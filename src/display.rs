//! The framebuffer: a grid of `WIDTH × HEIGHT` cells, row-major, on which
//! sprites are XOR-drawn with wraparound at both edges.

use vstd::prelude::*;

use crate::{HEIGHT, N_PIXELS, WIDTH};

verus! {

/// Whether the sprite byte `byte` lights the pixel in column `col` (0 to 7)
/// of its row; the most significant bit is the leftmost pixel.
pub open spec fn sprite_bit(byte: u8, col: int) -> bool {
    (byte >> ((7 - col) as u8)) & 1u8 == 1u8
}

/// Whether the sprite byte `byte`, drawn as a row at `(x, y)`, lights the cell of
/// index `k`: the cell lies on grid row `y mod HEIGHT`, at bit `(c - x) mod WIDTH`
/// of the byte, where `c` is its column.
pub open spec fn lights(x: int, y: int, byte: u8, k: int) -> bool {
    let col = (k % WIDTH as int - x) % (WIDTH as int);
    (k / WIDTH as int - y) % (HEIGHT as int) == 0 && col < 8 && sprite_bit(byte, col)
}

/// Whether row `i` of `sprite`, drawn at `(x, y)`, lights the cell of index `k`.
pub open spec fn hits(x: int, y: int, sprite: Seq<u8>, i: int, k: int) -> bool {
    lights(x, y + i, sprite[i], k)
}

/// Whether the first `n` rows of `sprite`, drawn at `(x, y)`, light the cell of
/// index `k` an odd number of times, which flips it.
pub open spec fn flips(x: int, y: int, sprite: Seq<u8>, k: int, n: nat) -> bool
    decreases n,
{
    if n == 0 {
        false
    } else {
        flips(x, y, sprite, k, (n - 1) as nat) != hits(x, y, sprite, n - 1, k)
    }
}

/// The pixels after XOR-drawing `sprite` at `(x, y)` on `pixels`.
#[verifier::opaque]
pub open spec fn drawn(pixels: Seq<bool>, x: int, y: int, sprite: Seq<u8>) -> Seq<bool> {
    Seq::new(pixels.len(), |k: int| pixels[k] != flips(x, y, sprite, k, sprite.len()))
}

/// Whether drawing `sprite` at `(x, y)` on `pixels` erases a set pixel: some row
/// lights a cell that is set just before that row is drawn.
#[verifier::opaque]
pub open spec fn collides(pixels: Seq<bool>, x: int, y: int, sprite: Seq<u8>) -> bool {
    exists|i: int, k: int|
        0 <= i < sprite.len() && 0 <= k < pixels.len() && #[trigger] hits(x, y, sprite, i, k) && (
        pixels[k] != flips(x, y, sprite, k, i as nat))
}

/// A row `a` of the grid is at offset 0 from `y` exactly when it is `y` taken modulo
/// `HEIGHT`.
proof fn lemma_row_offset_zero(a: int, y: int)
    requires
        0 <= a < HEIGHT,
        0 <= y,
    ensures
        ((a - y) % (HEIGHT as int) == 0) <==> (a == y % (HEIGHT as int)),
{
    assert(((a - y) % 32 == 0) <==> (a == y % 32)) by (nonlinear_arith)
        requires
            0 <= a < 32,
            0 <= y,
    ;
}

/// Rows `b` and `c` that agree modulo `HEIGHT` are at offset 0 from the same rows.
proof fn lemma_same_row(a: int, b: int, c: int)
    requires
        b % (HEIGHT as int) == c % (HEIGHT as int),
    ensures
        ((a - b) % (HEIGHT as int) == 0) == ((a - c) % (HEIGHT as int) == 0),
{
    assert(((a - b) % 32 == 0) == ((a - c) % 32 == 0)) by (nonlinear_arith)
        requires
            b % 32 == c % 32,
    ;
}

pub struct Display {
    buffer: [bool; N_PIXELS],
}

impl View for Display {
    type V = Seq<bool>;

    closed spec fn view(&self) -> Seq<bool> {
        self.buffer@
    }
}

impl Display {
    /// The number of cells is fixed.
    pub open spec fn wf(&self) -> bool {
        self@.len() == N_PIXELS
    }

    /// A framebuffer with every cell unset.
    pub fn new() -> (d: Display)
        ensures
            d.wf(),
            forall|k: int| 0 <= k < N_PIXELS ==> !#[trigger] d@[k],
    {
        Display { buffer: [false; N_PIXELS] }
    }

    /// The cells, row-major.
    pub fn buffer(&self) -> (b: &[bool])
        ensures
            b@ == self@,
    {
        &self.buffer
    }

    /// XOR-draws `sprite`, one byte per row from row `y` down, at column `x`,
    /// wrapping at the right and bottom edges; returns whether a set pixel was erased.
    pub fn draw(&mut self, x: u32, y: u32, sprite: &[u8]) -> (erased: bool)
        requires
            old(self).wf(),
        ensures
            final(self).wf(),
            final(self)@ == drawn(old(self)@, x as int, y as int, sprite@),
            erased == collides(old(self)@, x as int, y as int, sprite@),
    {
        reveal(drawn);
        reveal(collides);
        let y0: usize = (y % (HEIGHT as u32)) as usize;
        let mut erased = false;
        let mut r: usize = 0;
        proof {
            assert(self@ =~= Seq::new(
                old(self)@.len(),
                |k: int| old(self)@[k] != flips(x as int, y as int, sprite@, k, 0),
            ));
        }
        while r < sprite.len()
            invariant
                r <= sprite@.len(),
                self.wf(),
                y0 == y as int % HEIGHT as int,
                self@ == Seq::new(
                    old(self)@.len(),
                    |k: int| old(self)@[k] != flips(x as int, y as int, sprite@, k, r as nat),
                ),
                erased == exists|i: int, k: int|
                    0 <= i < r && 0 <= k < N_PIXELS && #[trigger] hits(
                        x as int,
                        y as int,
                        sprite@,
                        i,
                        k,
                    ) && (old(self)@[k] != flips(x as int, y as int, sprite@, k, i as nat)),
            decreases sprite@.len() - r,
        {
            let ghost mid = self@;
            let yr: u32 = ((y0 + r % HEIGHT) % HEIGHT) as u32;
            let hit = self.draw_byte(x, yr, sprite[r]);
            proof {
                let b = sprite@[r as int];
                assert forall|k: int| 0 <= k < N_PIXELS implies #[trigger] lights(
                    x as int,
                    yr as int,
                    b,
                    k,
                ) == hits(x as int, y as int, sprite@, r as int, k) by {
                    assert(yr as int % HEIGHT as int == (y + r) % (HEIGHT as int)) by (
                    nonlinear_arith)
                        requires
                            y0 == y as int % 32,
                            yr == (y0 + r % 32) % 32,
                            0 <= y,
                            0 <= r,
                    ;
                    lemma_same_row(k / WIDTH as int, yr as int, y + r);
                }
                assert(self@ =~= Seq::new(
                    old(self)@.len(),
                    |k: int| old(self)@[k] != flips(x as int, y as int, sprite@, k, (r + 1) as nat),
                ));
                if hit {
                    let k = choose|k: int|
                        0 <= k < N_PIXELS && mid[k] && #[trigger] lights(x as int, yr as int, b, k);
                    assert(hits(x as int, y as int, sprite@, r as int, k));
                }
                if erased {
                    let (i, k) = choose|i: int, k: int|
                        0 <= i < r && 0 <= k < N_PIXELS && #[trigger] hits(
                            x as int,
                            y as int,
                            sprite@,
                            i,
                            k,
                        ) && (old(self)@[k] != flips(x as int, y as int, sprite@, k, i as nat));
                    assert(hits(x as int, y as int, sprite@, i, k));
                }
                if exists|i: int, k: int|
                    0 <= i < r + 1 && 0 <= k < N_PIXELS && #[trigger] hits(
                        x as int,
                        y as int,
                        sprite@,
                        i,
                        k,
                    ) && (old(self)@[k] != flips(x as int, y as int, sprite@, k, i as nat)) {
                    let (i, k) = choose|i: int, k: int|
                        0 <= i < r + 1 && 0 <= k < N_PIXELS && #[trigger] hits(
                            x as int,
                            y as int,
                            sprite@,
                            i,
                            k,
                        ) && (old(self)@[k] != flips(x as int, y as int, sprite@, k, i as nat));
                    if i == r {
                        assert(mid[k] && lights(x as int, yr as int, b, k));
                    } else {
                        assert(hits(x as int, y as int, sprite@, i, k));
                    }
                }
            }
            erased = erased || hit;
            r += 1;
        }
        erased
    }

    /// Unsets every cell.
    pub fn clear(&mut self)
        requires
            old(self).wf(),
        ensures
            final(self).wf(),
            forall|k: int| 0 <= k < N_PIXELS ==> !#[trigger] final(self)@[k],
    {
        let mut i: usize = 0;
        while i < N_PIXELS
            invariant
                i <= N_PIXELS,
                self.wf(),
                forall|k: int| 0 <= k < i ==> !#[trigger] self@[k],
            decreases N_PIXELS - i,
        {
            self.buffer[i] = false;
            i += 1;
        }
    }

    /// XOR-draws one sprite row at `(x, y)`; returns whether a set pixel was erased.
    #[verifier::rlimit(50)]
    fn draw_byte(&mut self, x: u32, y: u32, byte: u8) -> (erased: bool)
        requires
            old(self).wf(),
        ensures
            final(self).wf(),
            final(self)@ == Seq::new(
                old(self)@.len(),
                |k: int| old(self)@[k] != lights(x as int, y as int, byte, k),
            ),
            erased == exists|k: int|
                0 <= k < N_PIXELS && old(self)@[k] && #[trigger] lights(x as int, y as int, byte, k),
    {
        let mut erased = false;
        let j: usize = (y % (HEIGHT as u32)) as usize;
        let x0: usize = (x % (WIDTH as u32)) as usize;
        let mut n: usize = 0;
        while n < 8
            invariant
                n <= 8,
                self.wf(),
                j == y as int % HEIGHT as int,
                x0 == x as int % WIDTH as int,
                forall|k: int|
                    0 <= k < N_PIXELS ==> #[trigger] self@[k] == (old(self)@[k] != (lights(
                        x as int,
                        y as int,
                        byte,
                        k,
                    ) && (k % WIDTH as int - x) % (WIDTH as int) < n)),
                erased == exists|k: int|
                    0 <= k < N_PIXELS && old(self)@[k] && #[trigger] lights(x as int, y as int, byte, k)
                        && (k % WIDTH as int - x) % (WIDTH as int) < n,
            decreases 8 - n,
        {
            let bit = (byte >> (7 - n as u8)) & 1 == 1;
            let i = (x0 + n) % WIDTH;
            let idx = j * WIDTH + i;
            let cell = self.buffer[idx];
            proof {
                lemma_row_offset_zero(j as int, y as int);
                assert(idx as int / WIDTH as int == j && idx as int % WIDTH as int == i);
                assert((i as int - x as int) % (WIDTH as int) == n);
                assert(lights(x as int, y as int, byte, idx as int) == bit);
            }
            erased = erased || (cell && bit);
            self.buffer[idx] = cell != bit;
            n += 1;
            proof {
                assert forall|k: int|
                    0 <= k < N_PIXELS && k != idx && (k % WIDTH as int - x) % (WIDTH as int) == n - 1
                        implies !lights(x as int, y as int, byte, k) by {
                    assert(k % WIDTH as int == i);
                    assert(k / WIDTH as int != j);
                    lemma_row_offset_zero(k / WIDTH as int, y as int);
                }
            }
        }
        proof {
            assert(self@ =~= Seq::new(
                old(self)@.len(),
                |k: int| old(self)@[k] != lights(x as int, y as int, byte, k),
            ));
        }
        erased
    }
}

/// Whether some row of `sprite`, drawn at `(x, y)`, lights the cell of index `k`.
pub open spec fn under(x: int, y: int, sprite: Seq<u8>, k: int) -> bool {
    exists|i: int| 0 <= i < sprite.len() && #[trigger] hits(x, y, sprite, i, k)
}

/// Two rows of a sprite of at most `HEIGHT` rows never light the same cell.
proof fn lemma_one_row_per_cell(x: int, y: int, sprite: Seq<u8>, i: int, j: int, k: int)
    requires
        sprite.len() <= HEIGHT,
        0 <= i < j < sprite.len(),
    ensures
        !(hits(x, y, sprite, i, k) && hits(x, y, sprite, j, k)),
{
    let a = k / WIDTH as int;
    assert(!((a - (y + i)) % 32 == 0 && (a - (y + j)) % 32 == 0)) by (nonlinear_arith)
        requires
            0 <= i < j < 32,
    ;
}

/// For a sprite of at most `HEIGHT` rows, the first `n` rows flip exactly the cells
/// that one of them lights.
proof fn lemma_flips_under(x: int, y: int, sprite: Seq<u8>, k: int, n: nat)
    requires
        sprite.len() <= HEIGHT,
        n <= sprite.len(),
    ensures
        flips(x, y, sprite, k, n) == exists|i: int| 0 <= i < n && #[trigger] hits(x, y, sprite, i, k),
    decreases n,
{
    if n > 0 {
        lemma_flips_under(x, y, sprite, k, (n - 1) as nat);
        if hits(x, y, sprite, n - 1, k) {
            assert forall|i: int| 0 <= i < n - 1 implies !#[trigger] hits(x, y, sprite, i, k) by {
                lemma_one_row_per_cell(x, y, sprite, i, n - 1, k);
            }
        }
        if exists|i: int| 0 <= i < n && #[trigger] hits(x, y, sprite, i, k) {
            let i = choose|i: int| 0 <= i < n && #[trigger] hits(x, y, sprite, i, k);
            if i < n - 1 {
                assert(exists|i: int| 0 <= i < n - 1 && #[trigger] hits(x, y, sprite, i, k));
            }
        }
    }
}

/// Drawing the same sprite twice at the same place gives back the pixels of
/// before.
pub proof fn lemma_draw_twice(pixels: Seq<bool>, x: int, y: int, sprite: Seq<u8>)
    ensures
        drawn(drawn(pixels, x, y, sprite), x, y, sprite) == pixels,
{
    reveal(drawn);
    assert(drawn(drawn(pixels, x, y, sprite), x, y, sprite) =~= pixels);
}

/// For a sprite of at most `HEIGHT` rows, a second draw at the same place reports
/// a collision exactly when a pixel that is set after the first draw lies under the
/// sprite.
pub proof fn lemma_second_draw_collision(pixels: Seq<bool>, x: int, y: int, sprite: Seq<u8>)
    requires
        sprite.len() <= HEIGHT,
    ensures
        collides(drawn(pixels, x, y, sprite), x, y, sprite) <==> exists|k: int|
            0 <= k < pixels.len() && drawn(pixels, x, y, sprite)[k] && #[trigger] under(
                x,
                y,
                sprite,
                k,
            ),
{
    reveal(drawn);
    reveal(collides);
    let once = drawn(pixels, x, y, sprite);
    if collides(once, x, y, sprite) {
        let (i, k) = choose|i: int, k: int|
            0 <= i < sprite.len() && 0 <= k < once.len() && #[trigger] hits(x, y, sprite, i, k) && (
            once[k] != flips(x, y, sprite, k, i as nat));
        lemma_flips_under(x, y, sprite, k, i as nat);
        assert forall|j: int| 0 <= j < i implies !#[trigger] hits(x, y, sprite, j, k) by {
            lemma_one_row_per_cell(x, y, sprite, j, i, k);
        }
        assert(under(x, y, sprite, k));
    }
    if exists|k: int| 0 <= k < pixels.len() && once[k] && #[trigger] under(x, y, sprite, k) {
        let k = choose|k: int| 0 <= k < pixels.len() && once[k] && #[trigger] under(x, y, sprite, k);
        let i = choose|i: int| 0 <= i < sprite.len() && #[trigger] hits(x, y, sprite, i, k);
        lemma_flips_under(x, y, sprite, k, i as nat);
        assert forall|j: int| 0 <= j < i implies !#[trigger] hits(x, y, sprite, j, k) by {
            lemma_one_row_per_cell(x, y, sprite, j, i, k);
        }
        assert(hits(x, y, sprite, i, k));
    }
}

/// A full 8-pixel row drawn three columns from the right edge changes the last
/// three columns and the first five, in its own row only.
pub proof fn lemma_wrap_columns(pixels: Seq<bool>, y: int, k: int)
    requires
        0 <= y,
        0 <= k < pixels.len() == N_PIXELS,
    ensures
        drawn(pixels, WIDTH - 3, y, seq![0xFFu8])[k] != pixels[k] <==> (k / WIDTH as int == y % (
        HEIGHT as int) && (k % WIDTH as int >= WIDTH - 3 || k % WIDTH as int <= 4)),
{
    reveal(drawn);
    lemma_full_byte();
    lemma_row_offset_zero(k / WIDTH as int, y);
    reveal_with_fuel(flips, 2);
}

/// A two-row sprite drawn on the last row changes the last row and the first row.
pub proof fn lemma_wrap_rows(pixels: Seq<bool>, x: int, k: int)
    requires
        0 <= x,
        0 <= k < pixels.len() == N_PIXELS,
    ensures
        drawn(pixels, x, HEIGHT - 1, seq![0xFFu8, 0xFFu8])[k] != pixels[k] <==> ((k / WIDTH as int
            == HEIGHT - 1 || k / WIDTH as int == 0) && (k % WIDTH as int - x) % (WIDTH as int) < 8),
{
    reveal(drawn);
    lemma_full_byte();
    reveal_with_fuel(flips, 3);
}

/// Every bit of `0xFF` lights its pixel.
proof fn lemma_full_byte()
    ensures
        forall|c: int| 0 <= c < 8 ==> #[trigger] sprite_bit(0xFFu8, c),
{
    assert forall|c: int| 0 <= c < 8 implies #[trigger] sprite_bit(0xFFu8, c) by {
        let s = (7 - c) as u8;
        assert(s < 8);
        assert((0xFFu8 >> s) & 1u8 == 1u8) by (bit_vector)
            requires
                s < 8,
        ;
    }
}

} // verus!
