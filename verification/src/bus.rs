use vstd::prelude::*;

use crate::display::Display;
use crate::display::DISPLAY_WIDTH;
use crate::display::DISPLAY_HEIGHT;
use crate::display::DISPLAY_SIZE;
use crate::memory::Memory;
use crate::memory::MEM_SIZE;

verus! {

/// Row-major cell index of the wrapped coordinate pair: both axes wrap
/// independently, every draw, not just at the canvas edge.
pub open spec fn px_index(x: int, y: int) -> int {
    (x % 64) + (y % 32) * 64
}

/// Bit `col` of a sprite row byte, most significant bit first.
pub open spec fn row_bit(byte: u8, col: int) -> bool {
    byte & (0x80u8 >> (col as u8)) != 0
}

/// The sprite whose rows start at `addr` in `mem` has an on-bit at
/// (row, col).
pub open spec fn sprite_pixel(mem: Seq<u8>, addr: int, row: int, col: int) -> bool {
    0 <= col < 8 && row_bit(mem[addr + row], col)
}

/// Cell index that sprite bit (row, col) lands on when the sprite is
/// drawn at (x, y).
pub open spec fn target_px(x: int, y: int, row: int, col: int) -> int {
    px_index(x + col, y + row)
}

/// (row, col) lies strictly before position (r, c) in the row-major
/// order in which sprite bits are processed.
pub open spec fn in_upto(row: int, col: int, r: int, c: int) -> bool {
    0 <= row && 0 <= col < 8 && (row < r || (row == r && col < c))
}

/// Some sprite bit before position (r, c) is on and lands on cell `k`.
pub open spec fn hits_upto(mem: Seq<u8>, x: int, y: int, addr: int, r: int, c: int, k: int) -> bool {
    exists|row: int, col: int|
        in_upto(row, col, r, c) && #[trigger] sprite_pixel(mem, addr, row, col) && k
            == target_px(x, y, row, col)
}

/// Some sprite bit before position (r, c) is on and lands on a cell that
/// is already set in `d0`.
pub open spec fn collides_upto(
    d0: Seq<bool>,
    mem: Seq<u8>,
    x: int,
    y: int,
    addr: int,
    r: int,
    c: int,
) -> bool {
    exists|row: int, col: int|
        in_upto(row, col, r, c) && #[trigger] sprite_pixel(mem, addr, row, col) && d0[target_px(
            x,
            y,
            row,
            col,
        )]
}

/// Some on-bit of the n-row sprite at `addr` lands on cell `k`.
pub open spec fn sprite_hits(mem: Seq<u8>, x: int, y: int, n: int, addr: int, k: int) -> bool {
    hits_upto(mem, x, y, addr, n, 0, k)
}

/// The display after drawing the sprite: each cell XOR-toggled exactly
/// when some on-bit of the sprite lands on it.
pub open spec fn draw_result(
    d: Seq<bool>,
    mem: Seq<u8>,
    x: int,
    y: int,
    n: int,
    addr: int,
) -> Seq<bool> {
    Seq::new(2048, |k: int| d[k] != sprite_hits(mem, x, y, n, addr, k))
}

/// The draw reports a collision: some on-bit of the sprite lands on a
/// cell that was already set.
pub open spec fn draw_collides(
    d: Seq<bool>,
    mem: Seq<u8>,
    x: int,
    y: int,
    n: int,
    addr: int,
) -> bool {
    collides_upto(d, mem, x, y, addr, n, 0)
}

/// Advancing the position bound by one column adds exactly the bit at
/// (r, c) to the set of processed sprite bits.
proof fn lemma_hits_step(mem: Seq<u8>, x: int, y: int, addr: int, r: int, c: int, k: int)
    requires
        0 <= r,
        0 <= c < 8,
    ensures
        hits_upto(mem, x, y, addr, r, c + 1, k) <==> (hits_upto(mem, x, y, addr, r, c, k) || (
        sprite_pixel(mem, addr, r, c) && k == target_px(x, y, r, c))),
{
    if hits_upto(mem, x, y, addr, r, c + 1, k) {
        let (row, col) = choose|row: int, col: int|
            in_upto(row, col, r, c + 1) && #[trigger] sprite_pixel(mem, addr, row, col) && k
                == target_px(x, y, row, col);
        if row < r || (row == r && col < c) {
            assert(in_upto(row, col, r, c));
            assert(hits_upto(mem, x, y, addr, r, c, k));
        } else {
            assert(row == r && col == c);
        }
    }
    if hits_upto(mem, x, y, addr, r, c, k) {
        let (row, col) = choose|row: int, col: int|
            in_upto(row, col, r, c) && #[trigger] sprite_pixel(mem, addr, row, col) && k
                == target_px(x, y, row, col);
        assert(in_upto(row, col, r, c + 1));
        assert(hits_upto(mem, x, y, addr, r, c + 1, k));
    }
    if sprite_pixel(mem, addr, r, c) && k == target_px(x, y, r, c) {
        assert(in_upto(r, c, r, c + 1));
        assert(hits_upto(mem, x, y, addr, r, c + 1, k));
    }
}

/// Same step fact for the collision predicate.
proof fn lemma_collides_step(
    d0: Seq<bool>,
    mem: Seq<u8>,
    x: int,
    y: int,
    addr: int,
    r: int,
    c: int,
)
    requires
        0 <= r,
        0 <= c < 8,
    ensures
        collides_upto(d0, mem, x, y, addr, r, c + 1) <==> (collides_upto(d0, mem, x, y, addr, r, c)
            || (sprite_pixel(mem, addr, r, c) && d0[target_px(x, y, r, c)])),
{
    if collides_upto(d0, mem, x, y, addr, r, c + 1) {
        let (row, col) = choose|row: int, col: int|
            in_upto(row, col, r, c + 1) && #[trigger] sprite_pixel(mem, addr, row, col)
                && d0[target_px(x, y, row, col)];
        if row < r || (row == r && col < c) {
            assert(in_upto(row, col, r, c));
            assert(collides_upto(d0, mem, x, y, addr, r, c));
        } else {
            assert(row == r && col == c);
        }
    }
    if collides_upto(d0, mem, x, y, addr, r, c) {
        let (row, col) = choose|row: int, col: int|
            in_upto(row, col, r, c) && #[trigger] sprite_pixel(mem, addr, row, col)
                && d0[target_px(x, y, row, col)];
        assert(in_upto(row, col, r, c + 1));
        assert(collides_upto(d0, mem, x, y, addr, r, c + 1));
    }
    if sprite_pixel(mem, addr, r, c) && d0[target_px(x, y, r, c)] {
        assert(in_upto(r, c, r, c + 1));
        assert(collides_upto(d0, mem, x, y, addr, r, c + 1));
    }
}

/// Finishing a row is the same as standing at the start of the next row.
proof fn lemma_hits_row_wrap(mem: Seq<u8>, x: int, y: int, addr: int, r: int, k: int)
    requires
        0 <= r,
    ensures
        hits_upto(mem, x, y, addr, r, 8, k) == hits_upto(mem, x, y, addr, r + 1, 0, k),
{
    if hits_upto(mem, x, y, addr, r, 8, k) {
        let (row, col) = choose|row: int, col: int|
            in_upto(row, col, r, 8) && #[trigger] sprite_pixel(mem, addr, row, col) && k
                == target_px(x, y, row, col);
        assert(in_upto(row, col, r + 1, 0));
        assert(hits_upto(mem, x, y, addr, r + 1, 0, k));
    }
    if hits_upto(mem, x, y, addr, r + 1, 0, k) {
        let (row, col) = choose|row: int, col: int|
            in_upto(row, col, r + 1, 0) && #[trigger] sprite_pixel(mem, addr, row, col) && k
                == target_px(x, y, row, col);
        assert(in_upto(row, col, r, 8));
        assert(hits_upto(mem, x, y, addr, r, 8, k));
    }
}

/// Same row-boundary fact for the collision predicate.
proof fn lemma_collides_row_wrap(d0: Seq<bool>, mem: Seq<u8>, x: int, y: int, addr: int, r: int)
    requires
        0 <= r,
    ensures
        collides_upto(d0, mem, x, y, addr, r, 8) == collides_upto(d0, mem, x, y, addr, r + 1, 0),
{
    if collides_upto(d0, mem, x, y, addr, r, 8) {
        let (row, col) = choose|row: int, col: int|
            in_upto(row, col, r, 8) && #[trigger] sprite_pixel(mem, addr, row, col)
                && d0[target_px(x, y, row, col)];
        assert(in_upto(row, col, r + 1, 0));
        assert(collides_upto(d0, mem, x, y, addr, r + 1, 0));
    }
    if collides_upto(d0, mem, x, y, addr, r + 1, 0) {
        let (row, col) = choose|row: int, col: int|
            in_upto(row, col, r + 1, 0) && #[trigger] sprite_pixel(mem, addr, row, col)
                && d0[target_px(x, y, row, col)];
        assert(in_upto(row, col, r, 8));
        assert(collides_upto(d0, mem, x, y, addr, r, 8));
    }
}

/// The wrapped cell index is always inside the grid.
proof fn lemma_target_px_bounds(x: int, y: int, row: int, col: int)
    requires
        x >= 0,
        y >= 0,
        row >= 0,
        col >= 0,
    ensures
        0 <= target_px(x, y, row, col) < 2048,
{
}

/// Two distinct bit positions of one sprite land on distinct cells:
/// columns differ by less than 64 and rows by less than 32, so the
/// per-axis wraparound cannot make them meet.
proof fn lemma_target_px_injective(x: int, y: int, r1: int, c1: int, r2: int, c2: int)
    requires
        x >= 0,
        y >= 0,
        0 <= r1 < 32,
        0 <= r2 < 32,
        0 <= c1 < 8,
        0 <= c2 < 8,
        !(r1 == r2 && c1 == c2),
    ensures
        target_px(x, y, r1, c1) != target_px(x, y, r2, c2),
{
    let a1 = (x + c1) % 64;
    let a2 = (x + c2) % 64;
    let b1 = (y + r1) % 32;
    let b2 = (y + r2) % 32;
    if target_px(x, y, r1, c1) == target_px(x, y, r2, c2) {
        assert(a1 == a2 && b1 == b2);
        assert(y + r1 == 32 * ((y + r1) / 32) + b1);
        assert(y + r2 == 32 * ((y + r2) / 32) + b2);
        assert(r1 - r2 == 32 * ((y + r1) / 32 - (y + r2) / 32));
        assert(r1 == r2);
        assert(x + c1 == 64 * ((x + c1) / 64) + a1);
        assert(x + c2 == 64 * ((x + c2) / 64) + a2);
        assert(c1 - c2 == 64 * ((x + c1) / 64 - (x + c2) / 64));
        assert(c1 == c2);
        assert(false);
    }
}

/// No sprite bit processed before position (r, c) has landed on the cell
/// that the bit at (r, c) itself targets.
proof fn lemma_no_earlier_hit(mem: Seq<u8>, x: int, y: int, addr: int, r: int, c: int)
    requires
        x >= 0,
        y >= 0,
        0 <= r < 32,
        0 <= c < 8,
    ensures
        !hits_upto(mem, x, y, addr, r, c, target_px(x, y, r, c)),
{
    if hits_upto(mem, x, y, addr, r, c, target_px(x, y, r, c)) {
        let (row, col) = choose|row: int, col: int|
            in_upto(row, col, r, c) && #[trigger] sprite_pixel(mem, addr, row, col) && target_px(
                x,
                y,
                r,
                c,
            ) == target_px(x, y, row, col);
        assert(0 <= row < 32 && 0 <= col < 8);
        assert(!(row == r && col == c));
        lemma_target_px_injective(x, y, row, col, r, c);
        assert(false);
    }
}

/// Drawing a one-row sprite whose only on-bit is at column `c` toggles
/// exactly the cell at ((x + c) mod 64, y mod 32) and leaves every
/// other cell as it was, and the draw collides exactly when that cell
/// was already set.
pub proof fn lemma_draw_single_bit(d: Seq<bool>, mem: Seq<u8>, x: int, y: int, addr: int, c: int)
    requires
        d.len() == 2048,
        0 <= addr < 4096,
        x >= 0,
        y >= 0,
        0 <= c < 8,
        mem[addr] == (0x80u8 >> (c as u8)),
    ensures
        draw_result(d, mem, x, y, 1, addr)[target_px(x, y, 0, c)] == !d[target_px(x, y, 0, c)],
        forall|k: int|
            0 <= k < 2048 && k != target_px(x, y, 0, c) ==> draw_result(d, mem, x, y, 1, addr)[k]
                == d[k],
        draw_collides(d, mem, x, y, 1, addr) == d[target_px(x, y, 0, c)],
{
    let t = target_px(x, y, 0, c);
    let cu = c as u8;
    lemma_target_px_bounds(x, y, 0, c);
    assert(cu < 8 ==> ((0x80u8 >> cu) & (0x80u8 >> cu)) != 0) by (bit_vector);
    assert(sprite_pixel(mem, addr, 0, c));
    assert(in_upto(0, c, 1, 0));
    assert forall|k: int| sprite_hits(mem, x, y, 1, addr, k) == (k == t) by {
        if sprite_hits(mem, x, y, 1, addr, k) {
            let (row, col) = choose|row: int, col: int|
                in_upto(row, col, 1, 0) && #[trigger] sprite_pixel(mem, addr, row, col) && k
                    == target_px(x, y, row, col);
            assert(row == 0);
            let colu = col as u8;
            assert((((0x80u8 >> cu) & (0x80u8 >> colu)) != 0 && cu < 8 && colu < 8) ==> cu
                == colu) by (bit_vector);
            assert(col == c);
        }
        if k == t {
            assert(sprite_hits(mem, x, y, 1, addr, k));
        }
    }
    if draw_collides(d, mem, x, y, 1, addr) {
        let (row, col) = choose|row: int, col: int|
            in_upto(row, col, 1, 0) && #[trigger] sprite_pixel(mem, addr, row, col) && d[target_px(
                x,
                y,
                row,
                col,
            )];
        assert(row == 0);
        let colu = col as u8;
        assert((((0x80u8 >> cu) & (0x80u8 >> colu)) != 0 && cu < 8 && colu < 8) ==> cu == colu)
            by (bit_vector);
        assert(col == c);
        assert(d[t]);
    }
    if d[t] {
        assert(collides_upto(d, mem, x, y, addr, 1, 0));
    }
}

/// Drawing the same sprite twice at the same location restores the
/// display to its state before the first draw (XOR idempotence), and
/// the second draw reports a collision exactly when some on-bit of the
/// sprite lands on a cell that was unset before the first draw — the
/// first draw set every such cell.
pub proof fn lemma_draw_twice_restores(
    d: Seq<bool>,
    mem: Seq<u8>,
    x: int,
    y: int,
    n: int,
    addr: int,
)
    requires
        d.len() == 2048,
        x >= 0,
        y >= 0,
        0 <= n,
    ensures
        draw_result(draw_result(d, mem, x, y, n, addr), mem, x, y, n, addr) == d,
        draw_collides(draw_result(d, mem, x, y, n, addr), mem, x, y, n, addr) == (exists|
            row: int,
            col: int,
        |
            in_upto(row, col, n, 0) && #[trigger] sprite_pixel(mem, addr, row, col) && !d[target_px(
                x,
                y,
                row,
                col,
            )]),
{
    let d1 = draw_result(d, mem, x, y, n, addr);
    assert(draw_result(d1, mem, x, y, n, addr) =~= d);
    if draw_collides(d1, mem, x, y, n, addr) {
        let (row, col) = choose|row: int, col: int|
            in_upto(row, col, n, 0) && #[trigger] sprite_pixel(mem, addr, row, col) && d1[target_px(
                x,
                y,
                row,
                col,
            )];
        let t = target_px(x, y, row, col);
        lemma_target_px_bounds(x, y, row, col);
        assert(sprite_hits(mem, x, y, n, addr, t));
        assert(d1[t] == !d[t]);
        assert(!d[t]);
    }
    if exists|row: int, col: int|
        in_upto(row, col, n, 0) && #[trigger] sprite_pixel(mem, addr, row, col) && !d[target_px(
            x,
            y,
            row,
            col,
        )] {
        let (row, col) = choose|row: int, col: int|
            in_upto(row, col, n, 0) && #[trigger] sprite_pixel(mem, addr, row, col) && !d[target_px(
                x,
                y,
                row,
                col,
            )];
        let t = target_px(x, y, row, col);
        lemma_target_px_bounds(x, y, row, col);
        assert(sprite_hits(mem, x, y, n, addr, t));
        assert(d1[t]);
        assert(collides_upto(d1, mem, x, y, addr, n, 0));
    }
}

/// Mediates all interpreter access to memory and to the display, and
/// owns the sprite-blitting algorithm.
pub struct Bus {
    pub memory: Memory,
    pub display: Display,
}

impl Bus {
    /// The bytes currently in memory.
    pub open spec fn mem(&self) -> Seq<u8> {
        self.memory@
    }

    /// The cells currently on the display.
    pub open spec fn disp(&self) -> Seq<bool> {
        self.display@
    }

    /// Fresh bus: zeroed memory, cleared display.
    pub fn new() -> (r: Bus)
        ensures
            r.mem().len() == MEM_SIZE,
            forall|a: int| 0 <= a < MEM_SIZE ==> r.mem()[a] == 0u8,
            r.disp().len() == DISPLAY_SIZE,
            forall|k: int| 0 <= k < DISPLAY_SIZE ==> r.disp()[k] == false,
    {
        Bus { memory: Memory::new(), display: Display::new() }
    }

    /// Store one byte in memory; the display is untouched.
    pub fn write_mem_byte(&mut self, addr: u16, byte: u8)
        requires
            addr < MEM_SIZE,
        ensures
            final(self).mem() == old(self).mem().update(addr as int, byte),
            final(self).disp() == old(self).disp(),
    {
        self.memory.write_byte(addr, &byte);
    }

    /// Read one byte from memory.
    pub fn read_mem_byte(&mut self, addr: u16) -> (r: u8)
        requires
            addr < MEM_SIZE,
        ensures
            r == old(self).mem()[addr as int],
            *final(self) == *old(self),
    {
        self.memory.read_byte(addr)
    }

    /// Unset every display cell; memory is untouched.
    pub fn clear_display(&mut self)
        ensures
            final(self).mem() == old(self).mem(),
            final(self).disp().len() == DISPLAY_SIZE,
            forall|k: int| 0 <= k < DISPLAY_SIZE ==> final(self).disp()[k] == false,
    {
        self.display.clear();
    }

    /// Read-only view of the display cells for the host renderer.
    pub fn get_display_buffer(&self) -> (r: &[bool])
        ensures
            r@ == self.disp(),
    {
        self.display.get_buffer()
    }

    /// Draw the `n`-row sprite stored at `start_addr` at display
    /// coordinates (`x_coord`, `y_coord`). Each on-bit XOR-toggles the
    /// cell it lands on, with both coordinates wrapping; the result says
    /// whether any toggled cell was already set (standard VF collision).
    pub fn draw_sprite(&mut self, x_coord: u16, y_coord: u16, n: u8, start_addr: u16) -> (flipped:
        bool)
        requires
            n <= 15,
            n > 0 ==> start_addr as int + n as int <= MEM_SIZE,
        ensures
            final(self).mem() == old(self).mem(),
            final(self).disp() == draw_result(
                old(self).disp(),
                old(self).mem(),
                x_coord as int,
                y_coord as int,
                n as int,
                start_addr as int,
            ),
            flipped == draw_collides(
                old(self).disp(),
                old(self).mem(),
                x_coord as int,
                y_coord as int,
                n as int,
                start_addr as int,
            ),
    {
        let ghost d0 = self.disp();
        let ghost m0 = self.mem();
        let ghost xi = x_coord as int;
        let ghost yi = y_coord as int;
        let ghost ai = start_addr as int;
        let mut flipped = false;
        let mut row: u8 = 0;
        proof {
            assert(self.disp() =~= Seq::new(
                2048,
                |k: int| d0[k] != hits_upto(m0, xi, yi, ai, 0, 0, k),
            ));
        }
        #[verifier::loop_isolation(false)]
        while row < n
            invariant
                row <= n,
                self.mem() == m0,
                self.disp() == Seq::new(
                    2048,
                    |k: int| d0[k] != hits_upto(m0, xi, yi, ai, row as int, 0, k),
                ),
                flipped == collides_upto(d0, m0, xi, yi, ai, row as int, 0),
            decreases n - row,
        {
            let addr = start_addr + row as u16;
            let pixels = self.memory.read_byte(addr);
            let mut col: u8 = 0;
            #[verifier::loop_isolation(false)]
            while col < 8
                invariant
                    col <= 8,
                    row < n,
                    self.mem() == m0,
                    self.disp() == Seq::new(
                        2048,
                        |k: int| d0[k] != hits_upto(m0, xi, yi, ai, row as int, col as int, k),
                    ),
                    flipped == collides_upto(d0, m0, xi, yi, ai, row as int, col as int),
                decreases 8 - col,
            {
                if pixels & (0x80u8 >> col) != 0 {
                    let x = (x_coord as usize + col as usize) % DISPLAY_WIDTH;
                    let y = (y_coord as usize + row as usize) % DISPLAY_HEIGHT;
                    let index = x + y * DISPLAY_WIDTH;
                    proof {
                        assert(sprite_pixel(m0, ai, row as int, col as int));
                        lemma_target_px_bounds(xi, yi, row as int, col as int);
                        assert(index == target_px(xi, yi, row as int, col as int));
                        lemma_no_earlier_hit(m0, xi, yi, ai, row as int, col as int);
                        assert(self.disp()[index as int] == d0[index as int]);
                    }
                    flipped = flipped || self.display.get_pixel(index);
                    self.display.set_pixel(index);
                    proof {
                        assert forall|k: int| 0 <= k < 2048 implies self.disp()[k] == (d0[k]
                            != hits_upto(m0, xi, yi, ai, row as int, col as int + 1, k)) by {
                            lemma_hits_step(m0, xi, yi, ai, row as int, col as int, k);
                        }
                        assert(self.disp() =~= Seq::new(
                            2048,
                            |k: int| d0[k] != hits_upto(m0, xi, yi, ai, row as int, col as int + 1, k),
                        ));
                        lemma_collides_step(d0, m0, xi, yi, ai, row as int, col as int);
                    }
                } else {
                    proof {
                        assert(!sprite_pixel(m0, ai, row as int, col as int));
                        assert forall|k: int| 0 <= k < 2048 implies self.disp()[k] == (d0[k]
                            != hits_upto(m0, xi, yi, ai, row as int, col as int + 1, k)) by {
                            lemma_hits_step(m0, xi, yi, ai, row as int, col as int, k);
                        }
                        assert(self.disp() =~= Seq::new(
                            2048,
                            |k: int| d0[k] != hits_upto(m0, xi, yi, ai, row as int, col as int + 1, k),
                        ));
                        lemma_collides_step(d0, m0, xi, yi, ai, row as int, col as int);
                    }
                }
                col = col + 1;
            }
            proof {
                assert forall|k: int| 0 <= k < 2048 implies hits_upto(m0, xi, yi, ai, row as int, 8, k)
                    == hits_upto(m0, xi, yi, ai, row as int + 1, 0, k) by {
                    lemma_hits_row_wrap(m0, xi, yi, ai, row as int, k);
                }
                assert(self.disp() =~= Seq::new(
                    2048,
                    |k: int| d0[k] != hits_upto(m0, xi, yi, ai, row as int + 1, 0, k),
                ));
                lemma_collides_row_wrap(d0, m0, xi, yi, ai, row as int);
            }
            row = row + 1;
        }
        proof {
            assert(self.disp() =~= draw_result(d0, m0, xi, yi, n as int, ai));
        }
        flipped
    }
}

} // verus!
