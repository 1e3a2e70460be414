use vstd::prelude::*;

verus! {

/// Number of pixel columns.
pub const WIDTH: usize = 64;

/// Number of pixel rows.
pub const HEIGHT: usize = 32;

/// Number of pixels on the surface.
pub const PIXELS: usize = 2048;

/// Whether bit `k` of `b` is set, counting from the most significant bit (`k == 0`).
pub open spec fn bit_at(b: u8, k: int) -> bool {
    (b >> ((7 - k) as u8)) & 1u8 == 1u8
}

/// Whether the sprite with rows `rows`, placed with its top-left corner at
/// `(x, y)`, covers pixel `i` of the row-major grid. Both coordinates wrap.
pub open spec fn sprite_covers(rows: Seq<u8>, x: u8, y: u8, i: int) -> bool {
    let dr = (i / 64 - y as int) % 32;
    let dc = (i % 64 - x as int) % 64;
    dr < rows.len() && dc < 8 && bit_at(rows[dr], dc)
}

/// The grid after XOR-ing the sprite `rows` onto it at `(x, y)`.
pub open spec fn drawn(screen: Seq<bool>, rows: Seq<u8>, x: u8, y: u8) -> Seq<bool> {
    Seq::new(screen.len(), |i: int| screen[i] != sprite_covers(rows, x, y, i))
}

/// Whether drawing the sprite turns off a pixel that was on.
pub open spec fn collides(screen: Seq<bool>, rows: Seq<u8>, x: u8, y: u8) -> bool {
    exists|i: int| 0 <= i < screen.len() && screen[i] && #[trigger] sprite_covers(rows, x, y, i)
}

/// The grid with every pixel off.
pub open spec fn blank() -> Seq<bool> {
    Seq::new(PIXELS as nat, |i: int| false)
}

/// A 64 x 32 grid of on/off pixels, stored row-major.
pub struct Display {
    pub width: u32,
    pub height: u32,
    pub screen: Vec<bool>,
}

impl View for Display {
    type V = Seq<bool>;

    open spec fn view(&self) -> Seq<bool> {
        self.screen@
    }
}

/// The only pixel in row `y % 32` whose column lies `k` places right of
/// `x`, wrapping, is the one at column `(x + k) % 64`.
proof fn lemma_cell(i: int, x: int, y: int, k: int)
    requires
        0 <= i < PIXELS,
        0 <= x < 256,
        0 <= y < 256,
        0 <= k < 8,
        (i / 64 - y) % 32 == 0,
        (i % 64 - x) % 64 == k,
    ensures
        i == (y % 32) * 64 + (x + k) % 64,
{
}

fn blank_screen() -> (r: Vec<bool>)
    ensures
        r@ == blank(),
{
    let mut r: Vec<bool> = Vec::with_capacity(PIXELS);
    while r.len() < PIXELS
        invariant
            r.len() <= PIXELS,
            forall|i: int| 0 <= i < r.len() ==> !r@[i],
        decreases PIXELS - r.len(),
    {
        r.push(false);
    }
    assert(r@ =~= blank());
    r
}

impl Display {
    pub open spec fn wf(&self) -> bool {
        &&& self.width == WIDTH
        &&& self.height == HEIGHT
        &&& self.screen.len() == PIXELS
    }

    /// A surface with every pixel off.
    pub fn new() -> (r: Display)
        ensures
            r.wf(),
            r@ == blank(),
    {
        Display { width: WIDTH as u32, height: HEIGHT as u32, screen: blank_screen() }
    }

    /// Whether the pixel at column `x`, row `y` is on.
    pub fn pixel(&self, x: usize, y: usize) -> (r: bool)
        requires
            self.wf(),
            x < WIDTH,
            y < HEIGHT,
        ensures
            r == self@[y * 64 + x],
    {
        self.screen[y * WIDTH + x]
    }

    /// Turns every pixel off.
    pub fn clear(&mut self)
        requires
            old(self).wf(),
        ensures
            final(self).wf(),
            final(self)@ == blank(),
    {
        self.screen = blank_screen();
    }

    /// XORs the eight bits of `row_bits`, most significant first, onto row
    /// `y` starting at column `start_x`; columns and the row wrap around.
    /// Returns whether a pixel that was on was turned off.
    pub fn blit_row(&mut self, start_x: u8, y: u8, row_bits: u8) -> (collision: bool)
        requires
            old(self).wf(),
        ensures
            final(self).wf(),
            final(self)@ == drawn(old(self)@, seq![row_bits], start_x, y),
            collision == collides(old(self)@, seq![row_bits], start_x, y),
    {
        let ghost s0 = self@;
        let ghost rows = seq![row_bits];
        let row: usize = (y % 32) as usize;
        let mut collision = false;
        let mut k: u8 = 0;
        while k < 8
            invariant
                self.wf(),
                k <= 8,
                row == y as int % 32,
                s0.len() == PIXELS,
                rows.len() == 1 && rows[0] == row_bits,
                forall|i: int|
                    0 <= i < PIXELS ==> #[trigger] self@[i] == (s0[i] != (sprite_covers(rows, start_x, y, i)
                        && (i % 64 - start_x as int) % 64 < k)),
                collision ==> exists|i: int|
                    0 <= i < PIXELS && s0[i] && #[trigger] sprite_covers(rows, start_x, y, i),
                !collision ==> forall|i: int|
                    0 <= i < PIXELS && #[trigger] sprite_covers(rows, start_x, y, i)
                        && (i % 64 - start_x as int) % 64 < k ==> !s0[i],
            decreases 8 - k,
        {
            let ghost before = self@;
            let col: usize = (start_x as usize + k as usize) % WIDTH;
            let idx: usize = row * WIDTH + col;
            assert((col as int - start_x as int) % 64 == k as int);
            assert(idx as int / 64 == row && idx as int % 64 == col);
            assert((row as int - y as int) % 32 == 0);
            assert(bit_at(row_bits, k as int) == ((row_bits >> (7 - k)) & 1 == 1));
            assert forall|i: int|
                0 <= i < PIXELS && #[trigger] sprite_covers(rows, start_x, y, i)
                    && (i % 64 - start_x as int) % 64 == k implies i == idx by {
                lemma_cell(i, start_x as int, y as int, k as int);
            }
            if (row_bits >> (7 - k)) & 1 == 1 {
                assert(sprite_covers(rows, start_x, y, idx as int));
                let old_pixel = self.screen[idx];
                if old_pixel {
                    collision = true;
                }
                self.screen.set(idx, !old_pixel);
            } else {
                assert(!sprite_covers(rows, start_x, y, idx as int));
            }
            assert forall|i: int| 0 <= i < PIXELS implies #[trigger] self@[i] == (s0[i] != (
                sprite_covers(rows, start_x, y, i) && (i % 64 - start_x as int) % 64 < k + 1)) by {
                if i != idx {
                    assert(self@[i] == before[i]);
                }
            }
            k = k + 1;
        }
        assert(self@ =~= drawn(s0, rows, start_x, y));
        collision
    }
}


/// Drawing the same sprite twice at the same place leaves the grid as it was.
pub proof fn lemma_draw_twice_restores(screen: Seq<bool>, rows: Seq<u8>, x: u8, y: u8)
    ensures
        drawn(drawn(screen, rows, x, y), rows, x, y) == screen,
{
    assert(drawn(drawn(screen, rows, x, y), rows, x, y) =~= screen);
}

/// On a blank grid, drawing sprite `a` and then sprite `b` reports a
/// collision on the second draw exactly when some pixel is covered by both.
pub proof fn lemma_collision_iff_overlap(a: Seq<u8>, ax: u8, ay: u8, b: Seq<u8>, bx: u8, by: u8)
    ensures
        collides(drawn(blank(), a, ax, ay), b, bx, by) <==> exists|i: int|
            0 <= i < PIXELS && #[trigger] sprite_covers(a, ax, ay, i) && sprite_covers(b, bx, by, i),
{
    let s = drawn(blank(), a, ax, ay);
    if collides(s, b, bx, by) {
        let i = choose|i: int| 0 <= i < s.len() && s[i] && #[trigger] sprite_covers(b, bx, by, i);
        assert(sprite_covers(a, ax, ay, i));
    }
    if exists|i: int|
        0 <= i < PIXELS && #[trigger] sprite_covers(a, ax, ay, i) && sprite_covers(b, bx, by, i) {
        let i = choose|i: int|
            0 <= i < PIXELS && #[trigger] sprite_covers(a, ax, ay, i) && sprite_covers(b, bx, by, i);
        assert(s[i]);
    }
}

/// Row `row` of the grid is `r` rows below row `y`, wrapping, exactly when
/// it is the row `y % 32 + r`, wrapping.
proof fn lemma_row_shift(row: int, y: int, r: int)
    requires
        0 <= row < 32,
        0 <= y < 256,
        0 <= r < 32,
    ensures
        ((row - (y % 32 + r)) % 32 == 0) == ((row - y) % 32 == r),
{
}

/// Drawing the first `r` rows of a sprite and then its row `r` on its own,
/// `r` rows further down, is drawing its first `r + 1` rows; the collision
/// of the larger draw is that of either part.
pub proof fn lemma_draw_next_row(screen: Seq<bool>, rows: Seq<u8>, x: u8, y: u8, r: int)
    requires
        0 <= r < rows.len() <= 16,
        screen.len() == PIXELS,
    ensures
        drawn(drawn(screen, rows.take(r), x, y), seq![rows[r]], x, (y % 32 + r) as u8) == drawn(
            screen,
            rows.take(r + 1),
            x,
            y,
        ),
        collides(screen, rows.take(r + 1), x, y) == (collides(screen, rows.take(r), x, y)
            || collides(drawn(screen, rows.take(r), x, y), seq![rows[r]], x, (y % 32 + r) as u8)),
{
    let head = rows.take(r);
    let next = rows.take(r + 1);
    let one = seq![rows[r]];
    let y2 = (y % 32 + r) as u8;
    let mid = drawn(screen, head, x, y);
    assert forall|i: int| 0 <= i < PIXELS implies (#[trigger] sprite_covers(next, x, y, i) == (
    sprite_covers(head, x, y, i) || sprite_covers(one, x, y2, i))) && !(sprite_covers(
        head,
        x,
        y,
        i,
    ) && sprite_covers(one, x, y2, i)) by {
        lemma_row_shift(i / 64, y as int, r);
    }
    assert(drawn(mid, one, x, y2) =~= drawn(screen, next, x, y));
    if collides(screen, next, x, y) {
        let i = choose|i: int|
            0 <= i < screen.len() && screen[i] && #[trigger] sprite_covers(next, x, y, i);
        if sprite_covers(head, x, y, i) {
            assert(collides(screen, head, x, y));
        } else {
            assert(mid[i]);
            assert(collides(mid, one, x, y2));
        }
    }
    if collides(screen, head, x, y) {
        let i = choose|i: int|
            0 <= i < screen.len() && screen[i] && #[trigger] sprite_covers(head, x, y, i);
        assert(sprite_covers(next, x, y, i));
    }
    if collides(mid, one, x, y2) {
        let i = choose|i: int| 0 <= i < mid.len() && mid[i] && #[trigger] sprite_covers(one, x, y2, i);
        assert(sprite_covers(next, x, y, i));
    }
}

} // verus!
