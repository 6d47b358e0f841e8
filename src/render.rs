use crate::life::{Buff, Cell};
use vstd::arithmetic::div_mod::lemma_fundamental_div_mod;
use vstd::prelude::*;

verus! {

/// First code point of the Braille Patterns block.
pub const BRAILLE_BASE: u32 = 0x2800;

/// The glyph of a live cell in block mode.
pub const FULL_BLOCK: char = '\u{2588}';

/// The glyph of a dead cell in block mode.
pub const EMPTY: char = ' ';

/// Relies on `core::char::from_u32`: it returns the character with the given
/// code point, and `None` exactly on surrogates and values above `0x10FFFF`.
pub assume_specification[ core::char::from_u32 ](i: u32) -> (r: Option<char>)
    ensures
        r is Some <==> (i < 0xD800 || (0xE000 <= i && i <= 0x10FFFF)),
        r is Some ==> r->0 as u32 == i,
;

/// `n` items of size `k` fit in `w` exactly when `n` is at most `w / k`.
proof fn lemma_fits_by_division(n: int, w: int, k: int)
    requires
        0 <= n,
        0 <= w,
        0 < k,
    ensures
        n * k <= w <==> n <= w / k,
{
    lemma_fundamental_div_mod(w, k);
    let q = w / k;
    assert(n * k <= w <==> n <= q) by (nonlinear_arith)
        requires
            0 <= n,
            0 < k,
            w == k * q + w % k,
            0 <= w % k < k,
    ;
}

/// A block with all eight cells alive packs to 255.
pub proof fn lemma_braille_all_alive(b: &Buff, i: int, j: int)
    requires
        forall|k: int| 0 <= k < 8 ==> #[trigger] dot_alive(b, i, j, k),
    ensures
        braille_code(b, i, j) == 255,
        glyph(true, b, i, j) == BRAILLE_BASE + 255,
{
    reveal_with_fuel(braille_code_upto, 9);
    reveal_with_fuel(bit_weight, 8);
    assert(dot_alive(b, i, j, 0) && dot_alive(b, i, j, 1) && dot_alive(b, i, j, 2) && dot_alive(b, i, j, 3));
    assert(dot_alive(b, i, j, 4) && dot_alive(b, i, j, 5) && dot_alive(b, i, j, 6) && dot_alive(b, i, j, 7));
}

/// A block with all eight cells dead packs to 0.
pub proof fn lemma_braille_all_dead(b: &Buff, i: int, j: int)
    requires
        forall|k: int| 0 <= k < 8 ==> !#[trigger] dot_alive(b, i, j, k),
    ensures
        braille_code(b, i, j) == 0,
        glyph(true, b, i, j) == BRAILLE_BASE,
{
    reveal_with_fuel(braille_code_upto, 9);
    assert(!dot_alive(b, i, j, 0) && !dot_alive(b, i, j, 1) && !dot_alive(b, i, j, 2) && !dot_alive(b, i, j, 3));
    assert(!dot_alive(b, i, j, 4) && !dot_alive(b, i, j, 5) && !dot_alive(b, i, j, 6) && !dot_alive(b, i, j, 7));
}

/// Bringing exactly one cell `k` of a block to life raises the first `n`
/// bits' pattern by the weight of bit `k` when `k < n`, and leaves it when not.
proof fn lemma_braille_flip_upto(a: &Buff, b: &Buff, i: int, j: int, k: int, n: nat)
    requires
        0 <= k < 8,
        n <= 8,
        !dot_alive(a, i, j, k),
        dot_alive(b, i, j, k),
        forall|m: int| 0 <= m < 8 && m != k ==> #[trigger] dot_alive(a, i, j, m) == dot_alive(b, i, j, m),
    ensures
        braille_code_upto(b, i, j, n) == braille_code_upto(a, i, j, n) + if k < n {
            bit_weight(k as nat)
        } else {
            0
        },
    decreases n,
{
    if n > 0 {
        lemma_braille_flip_upto(a, b, i, j, k, (n - 1) as nat);
        if n - 1 != k {
            assert(dot_alive(a, i, j, n - 1) == dot_alive(b, i, j, n - 1));
        }
    }
}

/// Bringing exactly one cell of a block to life raises its code, and so its
/// glyph, by the weight of that cell's bit.
pub proof fn lemma_braille_flip(a: &Buff, b: &Buff, i: int, j: int, k: int)
    requires
        0 <= k < 8,
        !dot_alive(a, i, j, k),
        dot_alive(b, i, j, k),
        forall|m: int| 0 <= m < 8 && m != k ==> #[trigger] dot_alive(a, i, j, m) == dot_alive(b, i, j, m),
    ensures
        braille_code(b, i, j) == braille_code(a, i, j) + bit_weight(k as nat),
        glyph(true, b, i, j) == glyph(true, a, i, j) + bit_weight(k as nat),
{
    lemma_braille_flip_upto(a, b, i, j, k, 8);
}

/// How many cells one displayed character covers, as `(columns, rows)`.
pub open spec fn cells_per_char(braille: bool) -> (nat, nat) {
    if braille {
        (2, 4)
    } else {
        (1, 1)
    }
}

/// Position `(row, column)` inside a 2 by 4 block of the cell that sets bit
/// `k` of a Braille pattern: down the left column for dots 1-3, down the right
/// column for dots 4-6, then the bottom row for dots 7 and 8.
pub open spec fn dot_position(k: int) -> (int, int) {
    if k == 0 {
        (0, 0)
    } else if k == 1 {
        (1, 0)
    } else if k == 2 {
        (2, 0)
    } else if k == 3 {
        (0, 1)
    } else if k == 4 {
        (1, 1)
    } else if k == 5 {
        (2, 1)
    } else if k == 6 {
        (3, 0)
    } else {
        (3, 1)
    }
}

/// The value of bit `k`: two to the power `k`.
pub open spec fn bit_weight(k: nat) -> nat
    decreases k,
{
    if k == 0 {
        1
    } else {
        2 * bit_weight((k - 1) as nat)
    }
}

/// The weights of the eight bits stay within one byte.
proof fn lemma_bit_weight_byte(k: nat)
    requires
        k <= 8,
    ensures
        bit_weight(k) <= 256,
        k < 8 ==> bit_weight(k) <= 128,
{
    reveal_with_fuel(bit_weight, 9);
    assert(k == 0 || k == 1 || k == 2 || k == 3 || k == 4 || k == 5 || k == 6 || k == 7 || k == 8);
}

/// Whether the cell that sets bit `k` of the block at `(i, j)` is alive.
pub open spec fn dot_alive(b: &Buff, i: int, j: int, k: int) -> bool {
    b.at(i + dot_position(k).0, j + dot_position(k).1) == Cell::Alive
}

/// The pattern formed by the first `n` bits of the block at `(i, j)`.
pub open spec fn braille_code_upto(b: &Buff, i: int, j: int, n: nat) -> nat
    decreases n,
{
    if n == 0 {
        0
    } else {
        braille_code_upto(b, i, j, (n - 1) as nat) + if dot_alive(b, i, j, n - 1) {
            bit_weight((n - 1) as nat)
        } else {
            0
        }
    }
}

/// The 8-bit pattern of the 2 by 4 block whose top-left cell is `(i, j)`.
pub open spec fn braille_code(b: &Buff, i: int, j: int) -> nat {
    braille_code_upto(b, i, j, 8)
}

/// The glyph that shows the cells at `(i, j)`: the Braille pattern of the
/// block there, or a full block or a space for the single cell there.
pub open spec fn glyph(braille: bool, b: &Buff, i: int, j: int) -> int {
    if braille {
        BRAILLE_BASE + braille_code(b, i, j)
    } else if b.at(i, j) == Cell::Alive {
        FULL_BLOCK as u32 as int
    } else {
        EMPTY as u32 as int
    }
}

/// Whether a screen of `cols` columns and `rows` rows shows only cells of `b`.
pub open spec fn fits(braille: bool, b: &Buff, cols: nat, rows: nat) -> bool {
    &&& cols * cells_per_char(braille).0 <= b.width()
    &&& rows * cells_per_char(braille).1 <= b.height()
}

/// In Braille mode the grid divides into whole 2 by 4 blocks.
pub open spec fn block_aligned(braille: bool, b: &Buff) -> bool {
    braille ==> b.width() % 2 == 0 && b.height() % 4 == 0
}

/// `f` holds the glyphs of `rows` display rows of `cols` characters each, in
/// the given mode, row by row from the top and left to right.
pub open spec fn is_frame(braille: bool, b: &Buff, cols: nat, rows: nat, f: Seq<Vec<char>>) -> bool {
    &&& f.len() == rows
    &&& forall|r: int| 0 <= r < rows ==> (#[trigger] f[r])@.len() == cols
    &&& forall|r: int, c: int|
        0 <= r < rows && 0 <= c < cols ==> #[trigger] f[r]@[c] as u32 as int == glyph(
            braille,
            b,
            r * cells_per_char(braille).1,
            c * cells_per_char(braille).0,
        )
}

/// Renders a grid to characters, one cell per character in block mode or one
/// 2 by 4 block of cells per character in Braille mode.
pub struct TerminalRenderer {
    braille: bool,
}

/// The bit of a Braille pattern that a 2 by 4 block's cell `k` sets.
fn dot_offset(k: usize) -> (r: (usize, usize))
    requires
        k < 8,
    ensures
        r.0 as int == dot_position(k as int).0,
        r.1 as int == dot_position(k as int).1,
{
    match k {
        0 => (0, 0),
        1 => (1, 0),
        2 => (2, 0),
        3 => (0, 1),
        4 => (1, 1),
        5 => (2, 1),
        6 => (3, 0),
        _ => (3, 1),
    }
}

impl TerminalRenderer {
    /// Whether this renderer packs 2 by 4 blocks into Braille glyphs.
    pub closed spec fn is_braille(&self) -> bool {
        self.braille
    }

    /// A renderer in Braille mode when `braille` holds, else in block mode.
    pub fn new(braille: bool) -> (r: Self)
        ensures
            r.is_braille() == braille,
    {
        TerminalRenderer { braille }
    }

    /// How many cells one character covers, as `(columns, rows)`.
    pub fn char_size(&self) -> (r: (usize, usize))
        ensures
            r.0 == cells_per_char(self.is_braille()).0,
            r.1 == cells_per_char(self.is_braille()).1,
    {
        if self.braille {
            (2, 4)
        } else {
            (1, 1)
        }
    }

    /// The grid size, as `(width, height)`, that fills a screen of `cols`
    /// columns and `rows` rows.
    pub fn size(&self, cols: usize, rows: usize) -> (r: (usize, usize))
        requires
            cols * cells_per_char(self.is_braille()).0 <= usize::MAX,
            rows * cells_per_char(self.is_braille()).1 <= usize::MAX,
        ensures
            r.0 == cols * cells_per_char(self.is_braille()).0,
            r.1 == rows * cells_per_char(self.is_braille()).1,
    {
        let (ws, hs) = self.char_size();
        (cols * ws, rows * hs)
    }

    /// The characters of a screen of `cols` columns and `rows` rows, or `None`
    /// when such a screen would show cells beyond the grid, or when in Braille
    /// mode the grid does not divide into whole 2 by 4 blocks.
    pub fn frame(&self, b: &Buff, cols: usize, rows: usize) -> (r: Option<Vec<Vec<char>>>)
        requires
            b.wf(),
        ensures
            r is Some <==> fits(self.is_braille(), b, cols as nat, rows as nat) && block_aligned(
                self.is_braille(),
                b,
            ),
            r is Some ==> is_frame(self.is_braille(), b, cols as nat, rows as nat, r->0@),
    {
        let (w, h) = b.dims();
        let (ws, hs) = self.char_size();
        proof {
            lemma_fits_by_division(cols as int, w as int, ws as int);
            lemma_fits_by_division(rows as int, h as int, hs as int);
        }
        if self.braille && (w % 2 != 0 || h % 4 != 0) {
            return None;
        }
        if cols > w / ws || rows > h / hs {
            return None;
        }
        let mut f: Vec<Vec<char>> = Vec::new();
        let mut line: usize = 0;
        while line < rows
            invariant
                b.wf(),
                w == b.width(),
                h == b.height(),
                ws == cells_per_char(self.is_braille()).0,
                hs == cells_per_char(self.is_braille()).1,
                cols * ws <= w,
                rows * hs <= h,
                line <= rows,
                is_frame(self.is_braille(), b, cols as nat, line as nat, f@),
            decreases rows - line,
        {
            proof {
                assert(line * hs + hs <= rows * hs) by (nonlinear_arith)
                    requires line < rows, hs >= 0;
            }
            let i = line * hs;
            let mut chars: Vec<char> = Vec::new();
            let mut col: usize = 0;
            while col < cols
                invariant
                    b.wf(),
                    w == b.width(),
                    h == b.height(),
                    ws == cells_per_char(self.is_braille()).0,
                    hs == cells_per_char(self.is_braille()).1,
                    cols * ws <= w,
                    i + hs <= h,
                    i == line * hs,
                    col <= cols,
                    chars@.len() == col,
                    forall|c: int|
                        0 <= c < col ==> #[trigger] chars@[c] as u32 as int == glyph(
                            self.is_braille(),
                            b,
                            i as int,
                            c * ws,
                        ),
                decreases cols - col,
            {
                proof {
                    assert(col * ws + ws <= cols * ws) by (nonlinear_arith)
                        requires col < cols, ws >= 0;
                }
                let j = col * ws;
                let c = self.decide_char(b, i, j);
                chars.push(c);
                col = col + 1;
            }
            f.push(chars);
            line = line + 1;
        }
        Some(f)
    }

    /// The glyph for the cells whose top-left corner is `(i, j)`.
    pub fn decide_char(&self, b: &Buff, i: usize, j: usize) -> (r: char)
        requires
            b.wf(),
            b.in_bounds(i as int, j as int),
            self.is_braille() ==> b.in_bounds(i + 3, j + 1),
        ensures
            r as u32 as int == glyph(self.is_braille(), b, i as int, j as int),
    {
        if !self.braille {
            return if let Cell::Alive = b.index((i, j)) {
                FULL_BLOCK
            } else {
                EMPTY
            };
        }
        let (w, h) = b.dims();
        let mut braille_number: u32 = 0;
        let mut weight: u32 = 1;
        let mut k: usize = 0;
        while k < 8
            invariant
                b.wf(),
                b.in_bounds(i + 3, j + 1),
                w == b.width(),
                h == b.height(),
                k <= 8,
                weight == bit_weight(k as nat),
                weight <= 256,
                braille_number < weight,
                braille_number == braille_code_upto(b, i as int, j as int, k as nat),
            decreases 8 - k,
        {
            proof {
                lemma_bit_weight_byte(k as nat);
            }
            let (di, dj) = dot_offset(k);
            if let Cell::Alive = b.index((i + di, j + dj)) {
                braille_number = braille_number + weight;
            }
            weight = weight * 2;
            k = k + 1;
        }
        proof {
            lemma_bit_weight_byte(8);
        }
        match core::char::from_u32(BRAILLE_BASE + braille_number) {
            Some(c) => c,
            None => EMPTY,
        }
    }
}

impl Default for TerminalRenderer {
    /// A renderer in block mode.
    fn default() -> (r: Self)
        ensures
            !r.is_braille(),
    {
        Self::new(false)
    }
}

} // verus!
