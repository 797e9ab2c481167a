use crate::display::sprite_bit;
use crate::machine::Machine;
use vstd::prelude::*;

verus! {

/// Whether the draw flips pixel `p` while it does the sprite rows before `row`
/// and, of row `row`, the columns before `col`.
pub open spec fn flipped_before(
    m: Machine,
    x: u8,
    y: u8,
    rows: u8,
    row: int,
    col: int,
    p: int,
) -> bool {
    let r = (p / 64 - m.v(y) as int % 32) % 32;
    let c = (p % 64 - m.v(x) as int % 64) % 64;
    m.draw_flips(x, y, rows, p) && (r < row || (r == row && c < col))
}

/// Whether the draw turns a lit pixel off while it does the sprite rows before
/// `row` and, of row `row`, the columns before `col`.
pub open spec fn collided_before(m: Machine, x: u8, y: u8, rows: u8, row: int, col: int) -> bool {
    exists|p: int|
        0 <= p < 2048 && m.pixels[p] && #[trigger] flipped_before(m, x, y, rows, row, col, p)
}

/// The index of the pixel on which column `col` of sprite row `row` lands.
pub open spec fn landing(m: Machine, x: u8, y: u8, row: int, col: int) -> int {
    ((m.v(y) as int % 32 + row) % 32) * 64 + (m.v(x) as int % 64 + col) % 64
}

/// On a ring of 32 rows, the row `offset` below `origin` is `at` exactly when
/// `at` lies `offset` below `origin`.
proof fn lemma_wrap_rows(origin: int, offset: int, at: int)
    requires
        0 <= origin < 32,
        0 <= offset < 32,
        0 <= at < 32,
    ensures
        ((origin + offset) % 32 == at) <==> ((at - origin) % 32 == offset),
        0 <= (origin + offset) % 32 < 32,
{
    if origin + offset < 32 {
        assert((origin + offset) % 32 == origin + offset);
    } else {
        assert((origin + offset) % 32 == origin + offset - 32);
    }
    if at >= origin {
        assert((at - origin) % 32 == at - origin);
    } else {
        assert((at - origin) % 32 == at - origin + 32);
    }
}

/// On a ring of 64 columns, the column `offset` right of `origin` is `at`
/// exactly when `at` lies `offset` right of `origin`.
proof fn lemma_wrap_columns(origin: int, offset: int, at: int)
    requires
        0 <= origin < 64,
        0 <= offset < 64,
        0 <= at < 64,
    ensures
        ((origin + offset) % 64 == at) <==> ((at - origin) % 64 == offset),
        0 <= (origin + offset) % 64 < 64,
{
    if origin + offset < 64 {
        assert((origin + offset) % 64 == origin + offset);
    } else {
        assert((origin + offset) % 64 == origin + offset - 64);
    }
    if at >= origin {
        assert((at - origin) % 64 == at - origin);
    } else {
        assert((at - origin) % 64 == at - origin + 64);
    }
}

/// Doing one more column flips the pixel on which it lands, if its bit is
/// set, and no other; that pixel was not flipped before.
pub proof fn lemma_flipped_next_column(
    m: Machine,
    x: u8,
    y: u8,
    rows: u8,
    row: int,
    col: int,
    p: int,
)
    requires
        0 <= p < 2048,
        0 <= row < rows < 16,
        0 <= col < 8,
    ensures
        flipped_before(m, x, y, rows, row, col + 1, p) == (flipped_before(m, x, y, rows, row, col, p)
            || (p == landing(m, x, y, row, col) && sprite_bit(m.memory[m.index + row], col))),
        0 <= landing(m, x, y, row, col) < 2048,
        !flipped_before(m, x, y, rows, row, col, landing(m, x, y, row, col)),
{
    let ox = m.v(x) as int % 64;
    let oy = m.v(y) as int % 32;
    let at = landing(m, x, y, row, col);
    let to_row = (oy + row) % 32;
    let to_col = (ox + col) % 64;
    lemma_wrap_rows(oy, row, p / 64);
    lemma_wrap_columns(ox, col, p % 64);
    lemma_wrap_rows(oy, row, to_row);
    lemma_wrap_columns(ox, col, to_col);
    assert(at == to_row * 64 + to_col);
    assert(at / 64 == to_row && at % 64 == to_col);
    assert(p == at <==> (p / 64 == to_row && p % 64 == to_col));
}

/// After the last column of a row the draw stands at the start of the next row.
pub proof fn lemma_flipped_next_row(m: Machine, x: u8, y: u8, rows: u8, row: int, p: int)
    requires
        0 <= p < 2048,
        0 <= row < rows < 16,
    ensures
        flipped_before(m, x, y, rows, row + 1, 0, p) == flipped_before(m, x, y, rows, row, 8, p),
{
}

/// Before the first row nothing is flipped; after the last, all that the
/// draw flips.
pub proof fn lemma_flipped_ends(m: Machine, x: u8, y: u8, rows: u8, p: int)
    requires
        0 <= p < 2048,
        rows < 16,
    ensures
        !flipped_before(m, x, y, rows, 0, 0, p),
        flipped_before(m, x, y, rows, rows as int, 0, p) == m.draw_flips(x, y, rows, p),
{
}

/// Doing one more column collides if it collided before, or if the column's
/// bit is set and lands on a lit pixel.
pub proof fn lemma_collided_next_column(m: Machine, x: u8, y: u8, rows: u8, row: int, col: int)
    requires
        0 <= row < rows < 16,
        0 <= col < 8,
    ensures
        collided_before(m, x, y, rows, row, col + 1) == (collided_before(m, x, y, rows, row, col)
            || (sprite_bit(m.memory[m.index + row], col) && m.pixels[landing(m, x, y, row, col)])),
{
    let at = landing(m, x, y, row, col);
    lemma_flipped_next_column(m, x, y, rows, row, col, at);
    if collided_before(m, x, y, rows, row, col) {
        let w = choose|p: int|
            0 <= p < 2048 && m.pixels[p] && #[trigger] flipped_before(m, x, y, rows, row, col, p);
        lemma_flipped_next_column(m, x, y, rows, row, col, w);
        assert(flipped_before(m, x, y, rows, row, col + 1, w));
    }
    if sprite_bit(m.memory[m.index + row], col) && m.pixels[at] {
        assert(flipped_before(m, x, y, rows, row, col + 1, at));
    }
    if collided_before(m, x, y, rows, row, col + 1) {
        let w = choose|p: int|
            0 <= p < 2048 && m.pixels[p] && #[trigger] flipped_before(
                m,
                x,
                y,
                rows,
                row,
                col + 1,
                p,
            );
        lemma_flipped_next_column(m, x, y, rows, row, col, w);
        if w != at {
            assert(flipped_before(m, x, y, rows, row, col, w));
        }
    }
}

/// After the last column of a row the draw has collided exactly if it has at
/// the start of the next row.
pub proof fn lemma_collided_next_row(m: Machine, x: u8, y: u8, rows: u8, row: int)
    requires
        0 <= row < rows < 16,
    ensures
        collided_before(m, x, y, rows, row + 1, 0) == collided_before(m, x, y, rows, row, 8),
{
    if collided_before(m, x, y, rows, row, 8) {
        let w = choose|p: int|
            0 <= p < 2048 && m.pixels[p] && #[trigger] flipped_before(m, x, y, rows, row, 8, p);
        lemma_flipped_next_row(m, x, y, rows, row, w);
        assert(flipped_before(m, x, y, rows, row + 1, 0, w));
    }
    if collided_before(m, x, y, rows, row + 1, 0) {
        let w = choose|p: int|
            0 <= p < 2048 && m.pixels[p] && #[trigger] flipped_before(m, x, y, rows, row + 1, 0, p);
        lemma_flipped_next_row(m, x, y, rows, row, w);
        assert(flipped_before(m, x, y, rows, row, 8, w));
    }
}

/// Before the first row the draw has not collided; after the last it has
/// exactly if the whole draw collides.
pub proof fn lemma_collided_ends(m: Machine, x: u8, y: u8, rows: u8)
    requires
        rows < 16,
    ensures
        !collided_before(m, x, y, rows, 0, 0),
        collided_before(m, x, y, rows, rows as int, 0) == m.draw_collides(x, y, rows),
{
    assert forall|p: int| 0 <= p < 2048 implies !#[trigger] flipped_before(
        m,
        x,
        y,
        rows,
        0,
        0,
        p,
    ) by {
        lemma_flipped_ends(m, x, y, rows, p);
    }
    if collided_before(m, x, y, rows, rows as int, 0) {
        let w = choose|p: int|
            0 <= p < 2048 && m.pixels[p] && #[trigger] flipped_before(
                m,
                x,
                y,
                rows,
                rows as int,
                0,
                p,
            );
        lemma_flipped_ends(m, x, y, rows, w);
        assert(m.draw_flips(x, y, rows, w));
    }
    if m.draw_collides(x, y, rows) {
        let w = choose|p: int| 0 <= p < 2048 && m.pixels[p] && #[trigger] m.draw_flips(x, y, rows, p);
        lemma_flipped_ends(m, x, y, rows, w);
        assert(flipped_before(m, x, y, rows, rows as int, 0, w));
    }
}

} // verus!
