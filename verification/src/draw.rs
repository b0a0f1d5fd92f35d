//! The display model for the sprite-drawing instruction: an `n`-row
//! sprite at `memory[I .. I+n]`, eight MSB-first pixels per row, is
//! XOR-composited onto the 64x32 grid with both coordinates wrapping,
//! and a collision is any previously-lit cell that the sprite touches
//! with a lit pixel.

use vstd::prelude::*;

verus! {

/// The weight of sprite column `c` in a row byte, MSB first.
pub open spec fn bit_weight(c: int) -> int {
    if c == 0 { 128 }
    else if c == 1 { 64 }
    else if c == 2 { 32 }
    else if c == 3 { 16 }
    else if c == 4 { 8 }
    else if c == 5 { 4 }
    else if c == 6 { 2 }
    else { 1 }
}

/// Whether pixel `c` (0 = leftmost) of a sprite row byte is lit.
pub open spec fn sprite_row_on(byte: u8, c: int) -> bool {
    ((byte as int) / bit_weight(c)) % 2 == 1
}

/// The display cell that sprite cell (`r`, `c`) of a sprite drawn at
/// (`x0`, `y0`) lands on: coordinates wrap modulo the screen size.
pub open spec fn target_idx(x0: int, y0: int, r: int, c: int) -> int {
    ((y0 + r) % 32) * 64 + ((x0 + c) % 64)
}

/// Whether the sprite at `mem[i .. i+n]` drawn at (`x0`, `y0`) puts a
/// lit pixel onto display cell `p`.
pub open spec fn sprite_covers(mem: Seq<u8>, i: int, x0: int, y0: int, n: int, p: int) -> bool {
    exists|r: int, c: int|
        0 <= r < n && 0 <= c < 8 && sprite_row_on(mem[i + r], c) && target_idx(x0, y0, r, c) == p
}

/// The display after the draw: every covered cell toggled.
pub open spec fn draw_display(d: Seq<bool>, mem: Seq<u8>, i: int, x0: int, y0: int, n: int) -> Seq<bool> {
    Seq::new(d.len(), |p: int| d[p] != sprite_covers(mem, i, x0, y0, n, p))
}

/// Whether the draw turned any previously-lit cell off.
pub open spec fn draw_collision(d: Seq<bool>, mem: Seq<u8>, i: int, x0: int, y0: int, n: int) -> bool {
    exists|p: int| 0 <= p < d.len() && d[p] && sprite_covers(mem, i, x0, y0, n, p)
}

/// The cells lit by the sprite cells processed before row `r_done`,
/// column `c_done`, in row-major order: all rows below `r_done` whole,
/// and the first `c_done` columns of row `r_done`.
pub open spec fn covers_before(
    mem: Seq<u8>, i: int, x0: int, y0: int, r_done: int, c_done: int, p: int,
) -> bool {
    exists|r: int, c: int|
        0 <= r <= r_done && 0 <= c < 8 && (r < r_done || c < c_done)
            && sprite_row_on(mem[i + r], c) && target_idx(x0, y0, r, c) == p
}

/// Two distinct sprite cells of one draw always land on distinct
/// display cells: the sprite is at most 16 rows and 8 columns, smaller
/// than the wrap-around periods 32 and 64.
proof fn lemma_targets_distinct(x0: int, y0: int, r1: int, c1: int, r2: int, c2: int)
    requires
        0 <= x0 < 256,
        0 <= y0 < 256,
        0 <= r1 < 16,
        0 <= c1 < 8,
        0 <= r2 < 16,
        0 <= c2 < 8,
        r1 != r2 || c1 != c2,
    ensures
        target_idx(x0, y0, r1, c1) != target_idx(x0, y0, r2, c2),
{
    let row1 = (y0 + r1) % 32;
    let row2 = (y0 + r2) % 32;
    let col1 = (x0 + c1) % 64;
    let col2 = (x0 + c2) % 64;
    assert(y0 + r1 == 32 * ((y0 + r1) / 32) + row1);
    assert(y0 + r2 == 32 * ((y0 + r2) / 32) + row2);
    assert(x0 + c1 == 64 * ((x0 + c1) / 64) + col1);
    assert(x0 + c2 == 64 * ((x0 + c2) / 64) + col2);
    if r1 == r2 {
        assert(col1 != col2);
    } else {
        assert(row1 != row2);
    }
}

/// Every display cell a sprite cell can land on is on the grid.
proof fn lemma_target_in_range(x0: int, y0: int, r: int, c: int)
    ensures
        0 <= target_idx(x0, y0, r, c) < 2048,
{
}

/// Processing one more sprite cell extends the covered region by that
/// cell's target (when its pixel is lit), which no earlier sprite cell
/// can have touched.
proof fn lemma_covers_extend(mem: Seq<u8>, i: int, x0: int, y0: int, r: int, c: int, cnext: int, n: int)
    requires
        0 <= x0 < 256,
        0 <= y0 < 256,
        0 <= r < n <= 15,
        0 <= c < 8,
        cnext == c + 1,
    ensures
        forall|p: int| #[trigger] covers_before(mem, i, x0, y0, r, cnext, p)
            == (covers_before(mem, i, x0, y0, r, c, p)
                || (sprite_row_on(mem[i + r], c) && target_idx(x0, y0, r, c) == p)),
        !covers_before(mem, i, x0, y0, r, c, target_idx(x0, y0, r, c)),
{
    assert forall|p: int| #[trigger] covers_before(mem, i, x0, y0, r, cnext, p)
        implies (covers_before(mem, i, x0, y0, r, c, p)
            || (sprite_row_on(mem[i + r], c) && target_idx(x0, y0, r, c) == p)) by {
        let (rr, cc): (int, int) = choose|rr: int, cc: int|
            0 <= rr <= r && 0 <= cc < 8 && (rr < r || cc < cnext)
                && sprite_row_on(mem[i + rr], cc) && target_idx(x0, y0, rr, cc) == p;
        if rr == r && cc == c {
        } else {
            assert(0 <= rr <= r && 0 <= cc < 8 && (rr < r || cc < c)
                && sprite_row_on(mem[i + rr], cc) && target_idx(x0, y0, rr, cc) == p);
        }
    }
    assert forall|p: int| (covers_before(mem, i, x0, y0, r, c, p)
            || (sprite_row_on(mem[i + r], c) && target_idx(x0, y0, r, c) == p))
        implies #[trigger] covers_before(mem, i, x0, y0, r, cnext, p) by {
        if covers_before(mem, i, x0, y0, r, c, p) {
            let (rr, cc): (int, int) = choose|rr: int, cc: int|
                0 <= rr <= r && 0 <= cc < 8 && (rr < r || cc < c)
                    && sprite_row_on(mem[i + rr], cc) && target_idx(x0, y0, rr, cc) == p;
            assert(0 <= rr <= r && 0 <= cc < 8 && (rr < r || cc < cnext)
                && sprite_row_on(mem[i + rr], cc) && target_idx(x0, y0, rr, cc) == p);
        } else {
            assert(0 <= r <= r && 0 <= c < 8 && (r < r || c < cnext)
                && sprite_row_on(mem[i + r], c) && target_idx(x0, y0, r, c) == p);
        }
    }
    let tgt = target_idx(x0, y0, r, c);
    assert forall|rr: int, cc: int|
        0 <= rr <= r && 0 <= cc < 8 && (rr < r || cc < c) && sprite_row_on(mem[i + rr], cc)
        implies target_idx(x0, y0, rr, cc) != tgt by {
        lemma_targets_distinct(x0, y0, rr, cc, r, c);
    }
}

/// Finishing a row's eight columns is the same as standing at the
/// start of the next row.
proof fn lemma_covers_row_advance(mem: Seq<u8>, i: int, x0: int, y0: int, r: int, rnext: int)
    requires
        0 <= r,
        rnext == r + 1,
    ensures
        forall|p: int| #[trigger] covers_before(mem, i, x0, y0, r, 8, p)
            == covers_before(mem, i, x0, y0, rnext, 0, p),
{
    assert forall|p: int| #[trigger] covers_before(mem, i, x0, y0, r, 8, p)
        implies covers_before(mem, i, x0, y0, rnext, 0, p) by {
        let (rr, cc): (int, int) = choose|rr: int, cc: int|
            0 <= rr <= r && 0 <= cc < 8 && (rr < r || cc < 8)
                && sprite_row_on(mem[i + rr], cc) && target_idx(x0, y0, rr, cc) == p;
        assert(0 <= rr <= rnext && 0 <= cc < 8 && (rr < rnext || cc < 0)
            && sprite_row_on(mem[i + rr], cc) && target_idx(x0, y0, rr, cc) == p);
    }
    assert forall|p: int| covers_before(mem, i, x0, y0, rnext, 0, p)
        implies #[trigger] covers_before(mem, i, x0, y0, r, 8, p) by {
        let (rr, cc): (int, int) = choose|rr: int, cc: int|
            0 <= rr <= rnext && 0 <= cc < 8 && (rr < rnext || cc < 0)
                && sprite_row_on(mem[i + rr], cc) && target_idx(x0, y0, rr, cc) == p;
        assert(0 <= rr <= r && 0 <= cc < 8 && (rr < r || cc < 8)
            && sprite_row_on(mem[i + rr], cc) && target_idx(x0, y0, rr, cc) == p);
    }
}

/// The region of a whole `n`-row sprite is exactly what the draw covers.
proof fn lemma_covers_full(mem: Seq<u8>, i: int, x0: int, y0: int, n: int)
    requires
        0 <= n,
    ensures
        forall|p: int| #[trigger] covers_before(mem, i, x0, y0, n, 0, p)
            == sprite_covers(mem, i, x0, y0, n, p),
{
    assert forall|p: int| #[trigger] covers_before(mem, i, x0, y0, n, 0, p)
        implies sprite_covers(mem, i, x0, y0, n, p) by {
        let (rr, cc): (int, int) = choose|rr: int, cc: int|
            0 <= rr <= n && 0 <= cc < 8 && (rr < n || cc < 0)
                && sprite_row_on(mem[i + rr], cc) && target_idx(x0, y0, rr, cc) == p;
        assert(0 <= rr < n && 0 <= cc < 8
            && sprite_row_on(mem[i + rr], cc) && target_idx(x0, y0, rr, cc) == p);
    }
    assert forall|p: int| sprite_covers(mem, i, x0, y0, n, p)
        implies #[trigger] covers_before(mem, i, x0, y0, n, 0, p) by {
        let (rr, cc): (int, int) = choose|rr: int, cc: int|
            0 <= rr < n && 0 <= cc < 8
                && sprite_row_on(mem[i + rr], cc) && target_idx(x0, y0, rr, cc) == p;
        assert(0 <= rr <= n && 0 <= cc < 8 && (rr < n || cc < 0)
            && sprite_row_on(mem[i + rr], cc) && target_idx(x0, y0, rr, cc) == p);
    }
}

/// The run-time weight of sprite column `c`.
fn bit_weight_of(c: usize) -> (w: u8)
    requires
        c < 8,
    ensures
        w as int == bit_weight(c as int),
        w > 0,
{
    if c == 0 { 128 }
    else if c == 1 { 64 }
    else if c == 2 { 32 }
    else if c == 3 { 16 }
    else if c == 4 { 8 }
    else if c == 5 { 4 }
    else if c == 6 { 2 }
    else { 1 }
}

/// XOR-composite the sprite at `mem[i .. i+n]` onto the display at
/// (`x0`, `y0`), reporting whether any lit cell was turned off.
#[verifier::loop_isolation(false)]
pub fn xor_sprite(display: &mut Vec<bool>, mem: &Vec<u8>, i: usize, x0: u8, y0: u8, n: usize) -> (col: bool)
    requires
        old(display)@.len() == 2048,
        mem@.len() == 4096,
        n <= 15,
        n > 0 ==> i + n <= 4096,
    ensures
        final(display)@ == draw_display(old(display)@, mem@, i as int, x0 as int, y0 as int, n as int),
        col == draw_collision(old(display)@, mem@, i as int, x0 as int, y0 as int, n as int),
{
    let ghost d0 = old(display)@;
    let ghost xi = x0 as int;
    let ghost yi = y0 as int;
    let ghost ii = i as int;
    let mut collision = false;
    let mut row: usize = 0;
    while row < n
        invariant
            row <= n,
            display@.len() == 2048,
            forall|p: int| 0 <= p < 2048
                ==> display@[p] == (d0[p] != covers_before(mem@, ii, xi, yi, row as int, 0, p)),
            collision == exists|p: int|
                0 <= p < 2048 && d0[p] && #[trigger] covers_before(mem@, ii, xi, yi, row as int, 0, p),
        decreases n - row,
    {
        let sprite_byte = mem[i + row];
        let mut c: usize = 0;
        while c < 8
            invariant
                row < n,
                c <= 8,
                display@.len() == 2048,
                forall|p: int| 0 <= p < 2048
                    ==> display@[p] == (d0[p] != covers_before(mem@, ii, xi, yi, row as int, c as int, p)),
                collision == exists|p: int|
                    0 <= p < 2048 && d0[p] && #[trigger] covers_before(mem@, ii, xi, yi, row as int, c as int, p),
            decreases 8 - c,
        {
            let w = bit_weight_of(c);
            let lit = (sprite_byte / w) % 2 == 1;
            let dy = (y0 as usize + row) % 32;
            let dx = (x0 as usize + c) % 64;
            let idx = dy * 64 + dx;
            proof {
                lemma_covers_extend(mem@, ii, xi, yi, row as int, c as int, c as int + 1, n as int);
                lemma_target_in_range(xi, yi, row as int, c as int);
                assert(idx as int == target_idx(xi, yi, row as int, c as int));
                assert(lit == sprite_row_on(mem@[ii + row as int], c as int));
                assert(!covers_before(mem@, ii, xi, yi, row as int, c as int, idx as int));
                assert(display@[idx as int] == d0[idx as int]);
            }
            let ghost pre_col = collision;
            if lit {
                let cur = display[idx];
                if cur {
                    collision = true;
                }
                display.set(idx, !cur);
            }
            proof {
                let cn = c as int + 1;
                let tgt = idx as int;
                assert forall|p: int| 0 <= p < 2048
                    implies display@[p] == (d0[p] != covers_before(mem@, ii, xi, yi, row as int, cn, p)) by {
                    assert(covers_before(mem@, ii, xi, yi, row as int, cn, p)
                        == (covers_before(mem@, ii, xi, yi, row as int, c as int, p)
                            || (sprite_row_on(mem@[ii + row as int], c as int)
                                && target_idx(xi, yi, row as int, c as int) == p)));
                }
                if collision {
                    if pre_col {
                        let p0 = choose|p: int| 0 <= p < 2048 && d0[p]
                            && #[trigger] covers_before(mem@, ii, xi, yi, row as int, c as int, p);
                        assert(covers_before(mem@, ii, xi, yi, row as int, cn, p0));
                        assert(0 <= p0 < 2048 && d0[p0]
                            && covers_before(mem@, ii, xi, yi, row as int, cn, p0));
                    } else {
                        assert(lit && d0[tgt]);
                        assert(covers_before(mem@, ii, xi, yi, row as int, cn, tgt));
                        assert(0 <= tgt < 2048 && d0[tgt]
                            && covers_before(mem@, ii, xi, yi, row as int, cn, tgt));
                    }
                    assert(exists|p: int| 0 <= p < 2048 && d0[p]
                        && #[trigger] covers_before(mem@, ii, xi, yi, row as int, cn, p));
                } else {
                    assert forall|p: int|
                        0 <= p < 2048 && #[trigger] covers_before(mem@, ii, xi, yi, row as int, cn, p)
                        implies !d0[p] by {
                        assert(covers_before(mem@, ii, xi, yi, row as int, c as int, p)
                            || (sprite_row_on(mem@[ii + row as int], c as int) && tgt == p));
                    }
                }
            }
            c = c + 1;
        }
        proof {
            lemma_covers_row_advance(mem@, ii, xi, yi, row as int, row as int + 1);
        }
        row = row + 1;
    }
    proof {
        lemma_covers_full(mem@, ii, xi, yi, n as int);
        assert(display@ =~= draw_display(d0, mem@, ii, xi, yi, n as int));
    }
    collision
}

} // verus!
