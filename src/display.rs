//! The monochrome framebuffer that sprites are XOR-drawn into.
use vstd::prelude::*;

verus! {

/// Width of the screen in pixels.
pub const CHIP8_WIDTH: usize = 64;
/// Height of the screen in pixels.
pub const CHIP8_HEIGHT: usize = 32;
/// Number of pixels; pixel (x, y) sits at `y * CHIP8_WIDTH + x`.
pub const SCREEN_SIZE: usize = 2048;
/// Width of a sprite row in pixels.
pub const SPRITE_WIDTH: usize = 8;

/// The screen after every pixel set in `flips` has been toggled.
pub open spec fn xor_pixels(pixels: Seq<bool>, flips: Seq<bool>) -> Seq<bool> {
    Seq::new(pixels.len(), |i: int| pixels[i] != flips[i])
}

/// Some pixel that was on is toggled off.
pub open spec fn collides(pixels: Seq<bool>, flips: Seq<bool>) -> bool {
    exists|i: int| 0 <= i < pixels.len() && #[trigger] flips[i] && pixels[i]
}

/// Bit `j` of a sprite row, counting from the most significant bit.
pub open spec fn sprite_bit(row: u8, j: int) -> bool {
    row & (0x80u8 >> (j as u8)) != 0
}

/// The sprite made of `rows`, drawn with its top left corner at (x, y),
/// covers pixel (px, py).
pub open spec fn sprite_covers(x: int, y: int, rows: Seq<u8>, px: int, py: int) -> bool {
    &&& x <= px < x + SPRITE_WIDTH
    &&& y <= py < y + rows.len()
    &&& sprite_bit(rows[py - y], px - x)
}

/// The pixels that the sprite made of `rows` toggles when drawn at (x, y):
/// what falls beyond the right or bottom edge is dropped, not wrapped.
pub open spec fn sprite_mask(x: int, y: int, rows: Seq<u8>) -> Seq<bool> {
    Seq::new(
        SCREEN_SIZE as nat,
        |i: int| sprite_covers(x, y, rows, i % (CHIP8_WIDTH as int), i / (CHIP8_WIDTH as int)),
    )
}

/// The machine's view of the screen.
pub struct Display {
    /// Row-major pixels, `true` for lit.
    pub representation: [bool; SCREEN_SIZE],
}

impl Display {
    /// A dark screen.
    pub fn initialize() -> (r: Display)
        ensures
            forall|i: int| 0 <= i < SCREEN_SIZE ==> !(#[trigger] r.representation@[i]),
    {
        Display { representation: [false; SCREEN_SIZE] }
    }

    /// Turns every pixel off.
    pub fn clear(&mut self)
        ensures
            forall|i: int| 0 <= i < SCREEN_SIZE ==> !(#[trigger] final(self).representation@[i]),
    {
        self.representation = [false; SCREEN_SIZE];
    }

    /// Toggles every pixel set in `flips` and reports whether one of them
    /// was lit before, that is, whether some pixel went from on to off.
    pub fn draw(&mut self, flips: &[bool; SCREEN_SIZE]) -> (r: bool)
        ensures
            final(self).representation@ == xor_pixels(old(self).representation@, flips@),
            r == collides(old(self).representation@, flips@),
    {
        let mut carry = false;
        let mut i: usize = 0;
        while i < SCREEN_SIZE
            invariant
                i <= SCREEN_SIZE,
                forall|k: int|
                    0 <= k < SCREEN_SIZE ==> #[trigger] self.representation@[k] == if k < i {
                        old(self).representation@[k] != flips@[k]
                    } else {
                        old(self).representation@[k]
                    },
                carry == exists|k: int|
                    0 <= k < i && #[trigger] flips@[k] && old(self).representation@[k],
            decreases SCREEN_SIZE - i,
        {
            let lit = self.representation[i];
            if flips[i] && lit {
                carry = true;
            }
            self.representation[i] = lit != flips[i];
            i += 1;
        }
        proof {
            assert(self.representation@ =~= xor_pixels(old(self).representation@, flips@));
        }
        carry
    }
}

/// Drawing the same pixels twice in a row gives back the screen as it was,
/// and the second draw collides exactly when the pattern lights some pixel
/// that was dark before the first; so at least one of the two draws reports
/// a collision whenever the pattern is not empty.
pub proof fn lemma_draw_twice(pixels: Seq<bool>, flips: Seq<bool>)
    requires
        pixels.len() == SCREEN_SIZE,
        flips.len() == SCREEN_SIZE,
    ensures
        xor_pixels(xor_pixels(pixels, flips), flips) == pixels,
        collides(xor_pixels(pixels, flips), flips) == exists|i: int|
            0 <= i < SCREEN_SIZE && #[trigger] flips[i] && !pixels[i],
        (exists|i: int| 0 <= i < SCREEN_SIZE && #[trigger] flips[i]) ==> collides(pixels, flips)
            || collides(xor_pixels(pixels, flips), flips),
{
    let once = xor_pixels(pixels, flips);
    assert(xor_pixels(once, flips) =~= pixels);
    if collides(once, flips) {
        let i = choose|i: int| 0 <= i < once.len() && #[trigger] flips[i] && once[i];
        assert(flips[i] && !pixels[i]);
    }
    if exists|i: int| 0 <= i < SCREEN_SIZE && #[trigger] flips[i] && !pixels[i] {
        let i = choose|i: int| 0 <= i < SCREEN_SIZE && #[trigger] flips[i] && !pixels[i];
        assert(once[i]);
    }
    if exists|i: int| 0 <= i < SCREEN_SIZE && #[trigger] flips[i] {
        let i = choose|i: int| 0 <= i < SCREEN_SIZE && #[trigger] flips[i];
        if pixels[i] {
            assert(collides(pixels, flips));
        } else {
            assert(once[i]);
        }
    }
}

} // verus!
