use crate::array::{lemma_flat_index_bounds, Array2d};
use rand::Rng;
use vstd::arithmetic::div_mod::lemma_fundamental_div_mod_converse;
use vstd::prelude::*;

verus! {

/// The state of one cell.
#[derive(Clone, Copy, Debug, PartialEq, Eq, Structural)]
pub enum Cell {
    Dead,
    Alive,
}

/// A grid of cells.
pub type Buff = Array2d<Cell>;

/// `x + d` taken modulo `limit`, so that stepping off one edge enters at the
/// opposite one.
pub open spec fn wrap(x: int, d: int, limit: int) -> int {
    (x + d) % limit
}

/// The `k`-th of the eight Moore-neighbourhood offsets, as `(row, column)`.
pub open spec fn neighbor_offset(k: int) -> (int, int) {
    if k == 0 {
        (-1, -1)
    } else if k == 1 {
        (0, -1)
    } else if k == 2 {
        (1, -1)
    } else if k == 3 {
        (-1, 0)
    } else if k == 4 {
        (1, 0)
    } else if k == 5 {
        (-1, 1)
    } else if k == 6 {
        (0, 1)
    } else {
        (1, 1)
    }
}

/// The cell reached from `(i, j)` by the `k`-th offset, on the torus `b`.
pub open spec fn neighbor(b: &Buff, i: int, j: int, k: int) -> (int, int) {
    (
        wrap(i, neighbor_offset(k).0, b.height() as int),
        wrap(j, neighbor_offset(k).1, b.width() as int),
    )
}

/// 1 if the cell is alive, else 0.
pub open spec fn alive_count(c: Cell) -> nat {
    if c == Cell::Alive {
        1
    } else {
        0
    }
}

/// How many of the first `n` neighbours of `(i, j)` are alive.
pub open spec fn live_neighbors_upto(b: &Buff, i: int, j: int, n: int) -> nat
    decreases n,
{
    if n <= 0 {
        0
    } else {
        live_neighbors_upto(b, i, j, n - 1) + alive_count(
            b.at(neighbor(b, i, j, n - 1).0, neighbor(b, i, j, n - 1).1),
        )
    }
}

/// How many of the eight neighbours of `(i, j)` are alive.
pub open spec fn live_neighbors(b: &Buff, i: int, j: int) -> nat {
    live_neighbors_upto(b, i, j, 8)
}

/// The B3/S23 rule: a cell is alive in the next generation when it has three
/// live neighbours, or when it is alive and has two.
pub open spec fn rule(c: Cell, n: nat) -> Cell {
    if n == 3 || (c == Cell::Alive && n == 2) {
        Cell::Alive
    } else {
        Cell::Dead
    }
}

/// The state of cell `(i, j)` one generation after `b`.
pub open spec fn next_cell(b: &Buff, i: int, j: int) -> Cell {
    rule(b.at(i, j), live_neighbors(b, i, j))
}

/// `next` is the generation that follows `prev`: same dimensions, and every
/// cell given by the rule.
pub open spec fn is_next_generation(prev: &Buff, next: &Buff) -> bool {
    &&& next.wf()
    &&& next.width() == prev.width()
    &&& next.height() == prev.height()
    &&& forall|i: int, j: int| #[trigger]
        next.in_bounds(i, j) ==> next.at(i, j) == next_cell(prev, i, j)
}

/// On a `W` by `H` torus, the neighbour of `(0, 0)` at offset `(-1, -1)` is
/// `(H - 1, W - 1)`, and the neighbour of `(H - 1, W - 1)` at offset `(1, 1)`
/// is `(0, 0)`.
pub proof fn lemma_wrap_corners(b: &Buff)
    requires
        b.width() > 0,
        b.height() > 0,
    ensures
        neighbor_offset(0) == (-1int, -1int),
        neighbor_offset(7) == (1int, 1int),
        neighbor(b, 0, 0, 0) == (b.height() - 1, b.width() - 1),
        neighbor(b, b.height() - 1, b.width() - 1, 7) == (0int, 0int),
{
    let (w, h) = (b.width() as int, b.height() as int);
    lemma_fundamental_div_mod_converse(-1, h, -1, h - 1);
    lemma_fundamental_div_mod_converse(-1, w, -1, w - 1);
    lemma_fundamental_div_mod_converse(h, h, 1, 0);
    lemma_fundamental_div_mod_converse(w, w, 1, 0);
}

/// Every neighbour of a cell of a non-empty grid lies on the grid.
proof fn lemma_neighbor_in_bounds(b: &Buff, i: int, j: int, k: int)
    requires
        b.width() > 0,
        b.height() > 0,
    ensures
        b.in_bounds(neighbor(b, i, j, k).0, neighbor(b, i, j, k).1),
{
}

/// Neighbour counts read only cells on the grid, so two grids with the same
/// cells give the same counts.
proof fn lemma_live_neighbors_upto_same(a: &Buff, b: &Buff, i: int, j: int, n: int)
    requires
        a.same_as(b),
        a.width() > 0,
        a.height() > 0,
    ensures
        live_neighbors_upto(a, i, j, n) == live_neighbors_upto(b, i, j, n),
    decreases n,
{
    if n > 0 {
        lemma_live_neighbors_upto_same(a, b, i, j, n - 1);
        lemma_neighbor_in_bounds(a, i, j, n - 1);
        let p = neighbor(a, i, j, n - 1);
        assert(a.at(p.0, p.1) == b.at(p.0, p.1));
    }
}

/// The next generation is a function of the current one: from two grids with
/// the same cells, the generations that follow them have the same cells.
pub proof fn lemma_next_generation_deterministic(a: &Buff, b: &Buff, a_next: &Buff, b_next: &Buff)
    requires
        a.same_as(b),
        is_next_generation(a, a_next),
        is_next_generation(b, b_next),
    ensures
        a_next.same_as(b_next),
{
    assert forall|i: int, j: int| #[trigger] a_next.in_bounds(i, j) implies a_next.at(i, j) == b_next.at(i, j) by {
        assert(a.in_bounds(i, j));
        lemma_live_neighbors_upto_same(a, b, i, j, 8);
        assert(b_next.in_bounds(i, j));
    }
}

/// Stepping an on-ring position by -1, 0 or 1 lands on the ring, at most one
/// turn away from `x + d`.
proof fn lemma_wrap_step(x: int, d: int, limit: int)
    requires
        0 <= x < limit,
        -1 <= d <= 1,
    ensures
        0 <= wrap(x, d, limit) < limit,
        wrap(x, d, limit) == x + d || wrap(x, d, limit) == x + d + limit || wrap(x, d, limit) == x + d
            - limit,
{
    if x + d < 0 {
        lemma_fundamental_div_mod_converse(x + d, limit, -1, x + d + limit);
    } else if x + d >= limit {
        lemma_fundamental_div_mod_converse(x + d, limit, 1, x + d - limit);
    } else {
        lemma_fundamental_div_mod_converse(x + d, limit, 0, x + d);
    }
}

/// On a grid of at least 3 by 3 the eight neighbours of a cell are eight
/// different cells.
proof fn lemma_neighbors_distinct(b: &Buff, i: int, j: int, k1: int, k2: int)
    requires
        b.width() >= 3,
        b.height() >= 3,
        b.in_bounds(i, j),
        0 <= k1 < 8,
        0 <= k2 < 8,
        k1 != k2,
    ensures
        neighbor(b, i, j, k1) != neighbor(b, i, j, k2),
{
    let (w, h) = (b.width() as int, b.height() as int);
    lemma_wrap_step(i, neighbor_offset(k1).0, h);
    lemma_wrap_step(i, neighbor_offset(k2).0, h);
    lemma_wrap_step(j, neighbor_offset(k1).1, w);
    lemma_wrap_step(j, neighbor_offset(k2).1, w);
}

/// Around `(i, j)`, on a grid whose only live cell is `(r, c)`, at most one of
/// the first `n` neighbours is alive, and when one is, it is `(r, c)`.
proof fn lemma_lone_count_upto(b: &Buff, i: int, j: int, r: int, c: int, n: int)
    requires
        b.width() >= 3,
        b.height() >= 3,
        b.in_bounds(i, j),
        0 <= n <= 8,
        forall|x: int, y: int|
            b.in_bounds(x, y) ==> (#[trigger] b.at(x, y) == Cell::Alive <==> x == r && y == c),
    ensures
        live_neighbors_upto(b, i, j, n) <= 1,
        live_neighbors_upto(b, i, j, n) == 1 ==> exists|k: int|
            0 <= k < n && #[trigger] neighbor(b, i, j, k) == (r, c),
    decreases n,
{
    if n > 0 {
        lemma_lone_count_upto(b, i, j, r, c, n - 1);
        let p = neighbor(b, i, j, n - 1);
        lemma_wrap_step(i, neighbor_offset(n - 1).0, b.height() as int);
        lemma_wrap_step(j, neighbor_offset(n - 1).1, b.width() as int);
        assert(b.in_bounds(p.0, p.1));
        if live_neighbors_upto(b, i, j, n - 1) == 1 && b.at(p.0, p.1) == Cell::Alive {
            let k = choose|k: int| 0 <= k < n - 1 && #[trigger] neighbor(b, i, j, k) == (r, c);
            lemma_neighbors_distinct(b, i, j, k, n - 1);
        }
        if b.at(p.0, p.1) == Cell::Alive {
            assert(neighbor(b, i, j, n - 1) == (r, c));
        }
    }
}

/// On a grid of at least 3 by 3 with a single live cell, the next generation
/// is all dead: the live cell has no live neighbour, and no cell has three.
pub proof fn lemma_lone_cell_dies(prev: &Buff, next: &Buff, r: int, c: int)
    requires
        prev.width() >= 3,
        prev.height() >= 3,
        prev.in_bounds(r, c),
        forall|x: int, y: int|
            prev.in_bounds(x, y) ==> (#[trigger] prev.at(x, y) == Cell::Alive <==> x == r && y == c),
        is_next_generation(prev, next),
    ensures
        forall|i: int, j: int| #[trigger] next.in_bounds(i, j) ==> next.at(i, j) == Cell::Dead,
{
    assert forall|i: int, j: int| #[trigger] next.in_bounds(i, j) implies next.at(i, j) == Cell::Dead by {
        lemma_lone_count_upto(prev, i, j, r, c, 8);
    }
}

/// `x` is `a` or one step from it around a ring of `limit` positions.
pub open spec fn near(a: int, x: int, limit: int) -> bool {
    x == wrap(a, -1, limit) || x == a || x == wrap(a, 1, limit)
}

/// `q` is one of the eight cells around `(i, j)` on the torus `b`.
pub open spec fn adjacent(b: &Buff, i: int, j: int, q: (int, int)) -> bool {
    near(i, q.0, b.height() as int) && near(j, q.1, b.width() as int) && q != (i, j)
}

/// 1 when `q` is among the first `n` neighbours of `(i, j)`, else 0.
spec fn seen(b: &Buff, i: int, j: int, q: (int, int), n: int) -> nat {
    if exists|k: int| 0 <= k < n && #[trigger] neighbor(b, i, j, k) == q {
        1
    } else {
        0
    }
}

/// The index of the neighbour offset `(dx, dy)`.
spec fn offset_index(dx: int, dy: int) -> int {
    if dy == -1 {
        dx + 1
    } else if dy == 0 {
        if dx == -1 {
            3
        } else {
            4
        }
    } else {
        dx + 6
    }
}

/// On a grid of at least 3 by 3, the cells around `(i, j)` are exactly its
/// eight neighbours.
proof fn lemma_adjacent_is_neighbor(b: &Buff, i: int, j: int, q: (int, int))
    requires
        b.width() >= 3,
        b.height() >= 3,
        b.in_bounds(i, j),
    ensures
        adjacent(b, i, j, q) <==> seen(b, i, j, q, 8) == 1,
{
    let (w, h) = (b.width() as int, b.height() as int);
    lemma_wrap_step(i, -1, h);
    lemma_wrap_step(i, 0, h);
    lemma_wrap_step(i, 1, h);
    lemma_wrap_step(j, -1, w);
    lemma_wrap_step(j, 0, w);
    lemma_wrap_step(j, 1, w);
    if adjacent(b, i, j, q) {
        let dx: int = if q.0 == wrap(i, -1, h) { -1 } else if q.0 == i { 0 } else { 1 };
        let dy: int = if q.1 == wrap(j, -1, w) { -1 } else if q.1 == j { 0 } else { 1 };
        let k = offset_index(dx, dy);
        assert(neighbor(b, i, j, k) == q);
    }
    if seen(b, i, j, q, 8) == 1 {
        let k = choose|k: int| 0 <= k < 8 && #[trigger] neighbor(b, i, j, k) == q;
        lemma_wrap_step(i, neighbor_offset(k).0, h);
        lemma_wrap_step(j, neighbor_offset(k).1, w);
    }
}

/// Around `(i, j)`, on a grid whose live cells are exactly the three different
/// cells `p`, `q`, `s`, the live neighbours are those of the three that are
/// adjacent to `(i, j)`.
proof fn lemma_three_count_upto(b: &Buff, i: int, j: int, p: (int, int), q: (int, int), s: (int, int), n: int)
    requires
        b.width() >= 3,
        b.height() >= 3,
        b.in_bounds(i, j),
        0 <= n <= 8,
        p != q && q != s && p != s,
        forall|x: int, y: int|
            b.in_bounds(x, y) ==> (#[trigger] b.at(x, y) == Cell::Alive <==> (x, y) == p || (x, y) == q
                || (x, y) == s),
    ensures
        live_neighbors_upto(b, i, j, n) == seen(b, i, j, p, n) + seen(b, i, j, q, n) + seen(b, i, j, s, n),
    decreases n,
{
    if n > 0 {
        lemma_three_count_upto(b, i, j, p, q, s, n - 1);
        let t = neighbor(b, i, j, n - 1);
        lemma_wrap_step(i, neighbor_offset(n - 1).0, b.height() as int);
        lemma_wrap_step(j, neighbor_offset(n - 1).1, b.width() as int);
        assert(b.in_bounds(t.0, t.1));
        assert forall|z: (int, int)| #![auto]
            seen(b, i, j, z, n) == seen(b, i, j, z, n - 1) + (if t == z { 1nat } else { 0nat }) by {
            if seen(b, i, j, z, n - 1) == 1 {
                let k = choose|k: int| 0 <= k < n - 1 && #[trigger] neighbor(b, i, j, k) == z;
                lemma_neighbors_distinct(b, i, j, k, n - 1);
                assert(exists|k: int| 0 <= k < n && #[trigger] neighbor(b, i, j, k) == z);
            } else if t == z {
                assert(exists|k: int| 0 <= k < n && #[trigger] neighbor(b, i, j, k) == z) by {
                    assert(neighbor(b, i, j, n - 1) == z);
                }
            } else {
                assert forall|k: int| 0 <= k < n implies #[trigger] neighbor(b, i, j, k) != z by {
                    if k < n - 1 {
                        assert(!(exists|k: int| 0 <= k < n - 1 && #[trigger] neighbor(b, i, j, k) == z));
                    }
                }
            }
        }
        assert(seen(b, i, j, p, n) == seen(b, i, j, p, n - 1) + (if t == p { 1nat } else { 0nat }));
        assert(seen(b, i, j, q, n) == seen(b, i, j, q, n - 1) + (if t == q { 1nat } else { 0nat }));
        assert(seen(b, i, j, s, n) == seen(b, i, j, s, n - 1) + (if t == s { 1nat } else { 0nat }));
    }
}

/// The live cells of `b` are exactly the three cells `p`, `q` and `s`.
pub open spec fn live_exactly(b: &Buff, p: (int, int), q: (int, int), s: (int, int)) -> bool {
    forall|x: int, y: int|
        b.in_bounds(x, y) ==> (#[trigger] b.at(x, y) == Cell::Alive <==> (x, y) == p || (x, y) == q
            || (x, y) == s)
}

/// Three cells in a row centred on `(r, c)`.
pub open spec fn blinker_row(b: &Buff, r: int, c: int) -> ((int, int), (int, int), (int, int)) {
    ((r, wrap(c, -1, b.width() as int)), (r, c), (r, wrap(c, 1, b.width() as int)))
}

/// Three cells in a column centred on `(r, c)`.
pub open spec fn blinker_column(b: &Buff, r: int, c: int) -> ((int, int), (int, int), (int, int)) {
    ((wrap(r, -1, b.height() as int), c), (r, c), (wrap(r, 1, b.height() as int), c))
}

/// How many of `p`, `q`, `s` lie around `(i, j)`, when they are the only
/// live cells.
proof fn lemma_three_count(b: &Buff, i: int, j: int, p: (int, int), q: (int, int), s: (int, int))
    requires
        b.width() >= 3,
        b.height() >= 3,
        b.in_bounds(i, j),
        p != q && q != s && p != s,
        live_exactly(b, p, q, s),
    ensures
        live_neighbors(b, i, j) == (if adjacent(b, i, j, p) { 1nat } else { 0nat }) + (if adjacent(
            b,
            i,
            j,
            q,
        ) { 1nat } else { 0nat }) + (if adjacent(b, i, j, s) { 1nat } else { 0nat }),
{
    lemma_three_count_upto(b, i, j, p, q, s, 8);
    lemma_adjacent_is_neighbor(b, i, j, p);
    lemma_adjacent_is_neighbor(b, i, j, q);
    lemma_adjacent_is_neighbor(b, i, j, s);
}

/// A row of three becomes a column of three.
proof fn lemma_blinker_row_step(prev: &Buff, next: &Buff, r: int, c: int)
    requires
        prev.width() >= 4,
        prev.height() >= 3,
        prev.in_bounds(r, c),
        live_exactly(prev, blinker_row(prev, r, c).0, blinker_row(prev, r, c).1, blinker_row(prev, r, c).2),
        is_next_generation(prev, next),
    ensures
        live_exactly(next, blinker_column(prev, r, c).0, blinker_column(prev, r, c).1, blinker_column(prev, r, c).2),
{
    let (w, h) = (prev.width() as int, prev.height() as int);
    lemma_wrap_step(r, -1, h);
    lemma_wrap_step(r, 1, h);
    lemma_wrap_step(c, -1, w);
    lemma_wrap_step(c, 1, w);
    let (p, q, s) = blinker_row(prev, r, c);
    assert forall|i: int, j: int| next.in_bounds(i, j) implies (#[trigger] next.at(i, j) == Cell::Alive <==> (i, j)
        == blinker_column(prev, r, c).0 || (i, j) == blinker_column(prev, r, c).1 || (i, j) == blinker_column(prev, r, c).2) by {
        lemma_wrap_step(i, -1, h);
        lemma_wrap_step(i, 1, h);
        lemma_wrap_step(j, -1, w);
        lemma_wrap_step(j, 1, w);
        lemma_three_count(prev, i, j, p, q, s);
    }
}

/// A column of three becomes a row of three.
proof fn lemma_blinker_column_step(prev: &Buff, next: &Buff, r: int, c: int)
    requires
        prev.width() >= 3,
        prev.height() >= 4,
        prev.in_bounds(r, c),
        live_exactly(prev, blinker_column(prev, r, c).0, blinker_column(prev, r, c).1, blinker_column(prev, r, c).2),
        is_next_generation(prev, next),
    ensures
        live_exactly(next, blinker_row(prev, r, c).0, blinker_row(prev, r, c).1, blinker_row(prev, r, c).2),
{
    let (w, h) = (prev.width() as int, prev.height() as int);
    lemma_wrap_step(r, -1, h);
    lemma_wrap_step(r, 1, h);
    lemma_wrap_step(c, -1, w);
    lemma_wrap_step(c, 1, w);
    let (p, q, s) = blinker_column(prev, r, c);
    assert forall|i: int, j: int| next.in_bounds(i, j) implies (#[trigger] next.at(i, j) == Cell::Alive <==> (i, j)
        == blinker_row(prev, r, c).0 || (i, j) == blinker_row(prev, r, c).1 || (i, j) == blinker_row(prev, r, c).2) by {
        lemma_wrap_step(i, -1, h);
        lemma_wrap_step(i, 1, h);
        lemma_wrap_step(j, -1, w);
        lemma_wrap_step(j, 1, w);
        lemma_three_count(prev, i, j, p, q, s);
    }
}

/// A blinker, three live cells in a row on an otherwise dead grid of at least
/// 4 by 4, turns into a column of three and then back into the same row: two
/// generations later the grid is the one it started as.
pub proof fn lemma_blinker_period_two(start: &Buff, mid: &Buff, end: &Buff, r: int, c: int)
    requires
        start.width() >= 4,
        start.height() >= 4,
        start.in_bounds(r, c),
        live_exactly(start, blinker_row(start, r, c).0, blinker_row(start, r, c).1, blinker_row(start, r, c).2),
        is_next_generation(start, mid),
        is_next_generation(mid, end),
    ensures
        live_exactly(mid, blinker_column(start, r, c).0, blinker_column(start, r, c).1, blinker_column(start, r, c).2),
        end.same_as(start),
{
    lemma_blinker_row_step(start, mid, r, c);
    lemma_blinker_column_step(mid, end, r, c);
    assert forall|i: int, j: int| #[trigger] end.in_bounds(i, j) implies end.at(i, j) == start.at(i, j) by {
        assert(start.in_bounds(i, j));
    }
}

/// Two reads of the live generation with no step between them give the same
/// grid.
pub proof fn lemma_state_read_twice(g: &GameOfLife, first: &Buff, second: &Buff)
    requires
        *first == g.current(),
        *second == g.current(),
    ensures
        first == second,
        first.same_as(second),
{
}

/// Steps `x` by `dx` (one of -1, 0, 1) around a ring of `limit` positions.
fn move_wrapping(x: usize, dx: isize, limit: usize) -> (r: usize)
    requires
        x < limit,
        -1 <= dx <= 1,
    ensures
        r == wrap(x as int, dx as int, limit as int),
        r < limit,
{
    if dx < 0 {
        if x == 0 {
            proof {
                lemma_fundamental_div_mod_converse(-1, limit as int, -1, limit - 1);
            }
            limit - 1
        } else {
            proof {
                lemma_fundamental_div_mod_converse(x - 1, limit as int, 0, x - 1);
            }
            x - 1
        }
    } else {
        let y = x + dx as usize;
        if y == limit {
            proof {
                lemma_fundamental_div_mod_converse(limit as int, limit as int, 1, 0);
            }
            0
        } else {
            proof {
                lemma_fundamental_div_mod_converse(y as int, limit as int, 0, y as int);
            }
            y
        }
    }
}

/// The `k`-th neighbour offset as `(row, column)` steps.
fn neighbor_dir(k: usize) -> (r: (isize, isize))
    requires
        k < 8,
    ensures
        r.0 as int == neighbor_offset(k as int).0,
        r.1 as int == neighbor_offset(k as int).1,
{
    match k {
        0 => (-1, -1),
        1 => (0, -1),
        2 => (1, -1),
        3 => (-1, 0),
        4 => (1, 0),
        5 => (-1, 1),
        6 => (0, 1),
        _ => (1, 1),
    }
}

/// The `w` by `h` grid whose cell `(i, j)` is alive exactly when draw
/// `i * w + j` is `true`: the draws are laid out in row-major order.
pub fn buff_from_draws(w: usize, h: usize, draws: &Vec<bool>) -> (r: Buff)
    requires
        draws@.len() == w * h,
        w * h <= usize::MAX,
    ensures
        r.wf(),
        r.width() == w,
        r.height() == h,
        forall|i: int, j: int|
            r.in_bounds(i, j) ==> (#[trigger] r.at(i, j) == Cell::Alive <==> draws@[i * w + j]),
{
    let cell_of = |i: usize, j: usize| -> (c: Cell)
        requires
            i < h,
            j < w,
        ensures
            c == Cell::Alive <==> draws@[i * w + j],
        {
            proof {
                lemma_flat_index_bounds(w as int, h as int, i as int, j as int);
            }
            if draws[i * w + j] {
                Cell::Alive
            } else {
                Cell::Dead
            }
        };
    Buff::new_with(w, h, cell_of)
}

/// A `w` by `h` grid whose cells are each alive with probability
/// `numerator / denominator`, drawn one per cell in row-major order: all dead
/// when the numerator is 0, all alive when it equals the denominator.
pub fn random_buff(w: usize, h: usize, numerator: u32, denominator: u32) -> (r: Buff)
    requires
        w * h <= usize::MAX,
        0 < denominator,
        numerator <= denominator,
    ensures
        r.wf(),
        r.width() == w,
        r.height() == h,
        numerator == 0 ==> forall|i: int, j: int|
            r.in_bounds(i, j) ==> #[trigger] r.at(i, j) == Cell::Dead,
        numerator == denominator ==> forall|i: int, j: int|
            r.in_bounds(i, j) ==> #[trigger] r.at(i, j) == Cell::Alive,
{
    let n = w * h;
    let mut draws: Vec<bool> = Vec::with_capacity(n);
    let mut k: usize = 0;
    while k < n
        invariant
            0 < denominator,
            numerator <= denominator,
            k <= n,
            draws@.len() == k,
            numerator == 0 ==> forall|m: int| 0 <= m < k ==> !#[trigger] draws@[m],
            numerator == denominator ==> forall|m: int| 0 <= m < k ==> #[trigger] draws@[m],
        decreases n - k,
    {
        draws.push(random_ratio(numerator, denominator));
        k = k + 1;
    }
    let r = buff_from_draws(w, h, &draws);
    assert forall|i: int, j: int| #[trigger] r.in_bounds(i, j) implies 0 <= i * w + j < n by {
        lemma_flat_index_bounds(w as int, h as int, i, j);
    }
    r
}

/// Relies on rand's `Rng::gen_ratio` on the thread-local generator: `true`
/// with probability `numerator / denominator`. Its source returns `false`
/// when the numerator is 0 and `true` when it equals the denominator, and
/// panics when the denominator is 0 or below the numerator.
#[verifier::external_body]
fn random_ratio(numerator: u32, denominator: u32) -> (r: bool)
    requires
        0 < denominator,
        numerator <= denominator,
    ensures
        numerator == 0 ==> !r,
        numerator == denominator ==> r,
{
    rand::thread_rng().gen_ratio(numerator, denominator)
}

/// Two buffers of equal size, one holding the live generation and the other
/// the scratch space that the next generation is written into.
pub struct GameOfLife {
    buffs: (Buff, Buff),
    epoch_parity: bool,
}

impl GameOfLife {
    /// Whether the first buffer is the live one.
    pub closed spec fn parity(&self) -> bool {
        self.epoch_parity
    }

    /// The live generation.
    pub closed spec fn current(&self) -> Buff {
        if self.epoch_parity {
            self.buffs.0
        } else {
            self.buffs.1
        }
    }

    /// The buffer that the next generation is written into.
    pub closed spec fn scratch(&self) -> Buff {
        if self.epoch_parity {
            self.buffs.1
        } else {
            self.buffs.0
        }
    }

    /// Both buffers are well formed and share their dimensions.
    pub closed spec fn wf(&self) -> bool {
        &&& self.buffs.0.wf()
        &&& self.buffs.1.wf()
        &&& self.buffs.0.width() == self.buffs.1.width()
        &&& self.buffs.0.height() == self.buffs.1.height()
    }

    /// The state of cell `(i, j)` in the generation after `buff`.
    pub fn cell_evolution(buff: &Buff, i: usize, j: usize) -> (r: Cell)
        requires
            buff.wf(),
            buff.in_bounds(i as int, j as int),
        ensures
            r == next_cell(buff, i as int, j as int),
    {
        let (w, h) = buff.dims();
        let mut neighbor_count: u8 = 0;
        let mut k: usize = 0;
        while k < 8
            invariant
                buff.wf(),
                buff.in_bounds(i as int, j as int),
                w == buff.width(),
                h == buff.height(),
                k <= 8,
                neighbor_count <= k,
                neighbor_count == live_neighbors_upto(buff, i as int, j as int, k as int),
            decreases 8 - k,
        {
            let (dx, dy) = neighbor_dir(k);
            let pos = (move_wrapping(i, dx, h), move_wrapping(j, dy, w));
            match buff.index(pos) {
                Cell::Alive => neighbor_count = neighbor_count + 1,
                Cell::Dead => {},
            }
            k = k + 1;
        }
        match buff.index((i, j)) {
            // Birth
            Cell::Dead if neighbor_count == 3 => Cell::Alive,
            // Death by isolation
            Cell::Alive if neighbor_count < 2 => Cell::Dead,
            // Death by overpopulation
            Cell::Alive if neighbor_count > 3 => Cell::Dead,
            // Stable
            Cell::Alive => Cell::Alive,
            Cell::Dead => Cell::Dead,
        }
    }

    /// Starts from `start`, with an all-dead scratch buffer of the same size.
    pub fn new(start: Buff) -> (r: Self)
        requires
            start.wf(),
        ensures
            r.wf(),
            r.parity(),
            r.current() == start,
            r.scratch().wf(),
            r.scratch().width() == start.width(),
            r.scratch().height() == start.height(),
            forall|i: int, j: int|
                #[trigger] r.scratch().in_bounds(i, j) ==> r.scratch().at(i, j) == Cell::Dead,
    {
        let (w, h) = start.dims();
        let other = Buff::new(w, h, Cell::Dead);
        GameOfLife { buffs: (start, other), epoch_parity: true }
    }

    /// Writes into `next` the generation that follows `prev`.
    fn evolve_into(prev: &Buff, next: &mut Buff)
        requires
            prev.wf(),
            old(next).wf(),
            old(next).width() == prev.width(),
            old(next).height() == prev.height(),
        ensures
            is_next_generation(prev, &*final(next)),
    {
        let (w, h) = prev.dims();
        let mut i: usize = 0;
        while i < h
            invariant
                prev.wf(),
                next.wf(),
                w == prev.width() && w == next.width(),
                h == prev.height() && h == next.height(),
                i <= h,
                forall|a: int, b: int|
                    0 <= a < i && 0 <= b < w ==> #[trigger] next.at(a, b) == next_cell(prev, a, b),
            decreases h - i,
        {
            let mut j: usize = 0;
            while j < w
                invariant
                    prev.wf(),
                    next.wf(),
                    w == prev.width() && w == next.width(),
                    h == prev.height() && h == next.height(),
                    i < h,
                    j <= w,
                    forall|a: int, b: int|
                        (0 <= a < i && 0 <= b < w) || (a == i && 0 <= b < j) ==> #[trigger] next.at(a, b)
                            == next_cell(prev, a, b),
                decreases w - j,
            {
                let c = Self::cell_evolution(prev, i, j);
                next.set((i, j), c);
                j = j + 1;
            }
            i = i + 1;
        }
    }

    /// Advances one generation: the scratch buffer receives the next
    /// generation and becomes the live one.
    pub fn update(&mut self)
        requires
            old(self).wf(),
        ensures
            final(self).wf(),
            final(self).parity() == !old(self).parity(),
            final(self).current().width() == old(self).current().width(),
            final(self).current().height() == old(self).current().height(),
            is_next_generation(&old(self).current(), &final(self).current()),
    {
        if self.epoch_parity {
            Self::evolve_into(&self.buffs.0, &mut self.buffs.1);
        } else {
            Self::evolve_into(&self.buffs.1, &mut self.buffs.0);
        }
        self.epoch_parity = !self.epoch_parity;
    }

    /// The live generation.
    pub fn state(&self) -> (r: &Buff)
        ensures
            *r == self.current(),
    {
        if self.epoch_parity {
            &self.buffs.0
        } else {
            &self.buffs.1
        }
    }
}

} // verus!
