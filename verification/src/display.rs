use vstd::prelude::*;

verus! {

/// The number of pixel columns.
pub const SCREEN_WIDTH: usize = 64;

/// The number of pixel rows.
pub const SCREEN_HEIGHT: usize = 32;

/// The number of pixels; the pixel at column `x`, row `y` has index `y * 64 + x`.
pub const SCREEN_PIXELS: usize = 2048;

/// Whether bit `col` of a sprite row is set, the most significant bit being
/// column 0.
pub open spec fn sprite_bit(byte: u8, col: int) -> bool
    recommends
        0 <= col < 8,
{
    byte & (0x80u8 >> (col as u8)) != 0
}

/// Whether the sprite of `rows` bytes at `memory[index..]`, drawn with its
/// top left corner at column `ox`, row `oy`, has a set bit that lands on the
/// pixel at column `px`, row `py`. Columns wrap at 64 and rows at 32, so the
/// sprite's row and column that could land there are fixed by the distance
/// from the corner: `(py - oy) mod 32` and `(px - ox) mod 64`.
pub open spec fn sprite_covers(
    memory: Seq<u8>,
    index: int,
    rows: int,
    ox: int,
    oy: int,
    px: int,
    py: int,
) -> bool {
    let row = (py - oy) % 32;
    let col = (px - ox) % 64;
    row < rows && col < 8 && sprite_bit(memory[index + row], col)
}

/// A set bit of the sprite lands on a pixel exactly when the pixel is where
/// some row and column of the sprite go: column `(ox + col) mod 64`, row
/// `(oy + row) mod 32`.
pub proof fn lemma_sprite_covers_iff_some_bit_lands(
    memory: Seq<u8>,
    index: int,
    rows: int,
    ox: int,
    oy: int,
    px: int,
    py: int,
)
    requires
        0 <= rows <= 32,
        0 <= px < 64,
        0 <= py < 32,
    ensures
        sprite_covers(memory, index, rows, ox, oy, px, py) <==> exists|row: int, col: int|
            0 <= row < rows && 0 <= col < 8 && #[trigger] sprite_bit(memory[index + row], col)
                && (ox + col) % 64 == px && (oy + row) % 32 == py,
{
    let r = (py - oy) % 32;
    let c = (px - ox) % 64;
    if sprite_covers(memory, index, rows, ox, oy, px, py) {
        assert(sprite_bit(memory[index + r], c) && (ox + c) % 64 == px && (oy + r) % 32 == py);
    }
    assert forall|row: int, col: int|
        0 <= row < rows && 0 <= col < 8 && #[trigger] sprite_bit(memory[index + row], col) && (ox
            + col) % 64 == px && (oy + row) % 32 == py implies row == r && col == c by {}
}

} // verus!
