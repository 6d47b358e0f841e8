use vstd::prelude::*;

verus! {

/// A dense, row-major two-dimensional array of `h` rows and `w` columns.
pub struct Array2d<T> {
    w: usize,
    h: usize,
    v: Vec<T>,
}

/// Where cell `(i, j)` lives in the row-major storage of a grid `w` columns wide.
pub open spec fn flat_index(w: int, i: int, j: int) -> int {
    i * w + j
}

/// Every cell of a `w` by `h` grid has its own slot inside the storage.
pub proof fn lemma_flat_index_bounds(w: int, h: int, i: int, j: int)
    requires
        0 <= i < h,
        0 <= j < w,
    ensures
        0 <= flat_index(w, i, j) < w * h,
        0 <= i * w <= i * w + j,
{
    assert(0 <= i * w <= i * w + j < w * h) by (nonlinear_arith)
        requires
            0 <= i < h,
            0 <= j < w,
    ;
}

/// Two different cells never share a slot.
proof fn lemma_flat_index_injective(w: int, i1: int, j1: int, i2: int, j2: int)
    requires
        0 <= i1,
        0 <= i2,
        0 <= j1 < w,
        0 <= j2 < w,
        flat_index(w, i1, j1) == flat_index(w, i2, j2),
    ensures
        i1 == i2,
        j1 == j2,
{
    assert(i1 == i2) by (nonlinear_arith)
        requires
            0 <= i1,
            0 <= i2,
            0 <= j1 < w,
            0 <= j2 < w,
            i1 * w + j1 == i2 * w + j2,
    ;
}

impl<T> Array2d<T> {
    /// Number of columns.
    pub closed spec fn width(&self) -> nat {
        self.w as nat
    }

    /// Number of rows.
    pub closed spec fn height(&self) -> nat {
        self.h as nat
    }

    /// The value held at row `i`, column `j`.
    pub closed spec fn at(&self, i: int, j: int) -> T {
        self.v@[flat_index(self.w as int, i, j)]
    }

    /// The storage holds exactly one value for each cell.
    pub closed spec fn wf(&self) -> bool {
        &&& self.v@.len() == self.w * self.h
        &&& self.w * self.h <= usize::MAX
    }

    /// Whether `(i, j)` names a cell of the grid.
    pub open spec fn in_bounds(&self, i: int, j: int) -> bool {
        0 <= i < self.height() && 0 <= j < self.width()
    }

    /// Both grids have the same dimensions and hold the same value in every cell.
    pub open spec fn same_as(&self, other: &Array2d<T>) -> bool {
        &&& self.width() == other.width()
        &&& self.height() == other.height()
        &&& forall|i: int, j: int| #[trigger]
            self.in_bounds(i, j) ==> self.at(i, j) == other.at(i, j)
    }

    /// Builds a `w` by `h` grid whose cell `(i, j)` is `init(i, j)`, calling
    /// `init` for every cell in row-major order.
    pub fn new_with<F>(w: usize, h: usize, init: F) -> (r: Self) where F: Fn(usize, usize) -> T
        requires
            w * h <= usize::MAX,
            forall|i: usize, j: usize| i < h && j < w ==> #[trigger] init.requires((i, j)),
        ensures
            r.wf(),
            r.width() == w,
            r.height() == h,
            forall|i: int, j: int|
                r.in_bounds(i, j) ==> init.ensures((i as usize, j as usize), #[trigger] r.at(i, j)),
    {
        let mut v: Vec<T> = Vec::with_capacity(w * h);
        let mut i: usize = 0;
        while i < h
            invariant
                w * h <= usize::MAX,
                i <= h,
                v@.len() == i * w,
                forall|i: usize, j: usize| i < h && j < w ==> #[trigger] init.requires((i, j)),
                forall|a: int, b: int|
                    0 <= a < i && 0 <= b < w ==> init.ensures(
                        (a as usize, b as usize),
                        v@[#[trigger] flat_index(w as int, a, b)],
                    ),
            decreases h - i,
        {
            let mut j: usize = 0;
            while j < w
                invariant
                    w * h <= usize::MAX,
                    i < h,
                    j <= w,
                    v@.len() == i * w + j,
                    forall|i: usize, j: usize| i < h && j < w ==> #[trigger] init.requires((i, j)),
                    forall|a: int, b: int|
                        (0 <= a < i && 0 <= b < w) || (a == i && 0 <= b < j) ==> init.ensures(
                            (a as usize, b as usize),
                            v@[#[trigger] flat_index(w as int, a, b)],
                        ),
                decreases w - j,
            {
                let x = init(i, j);
                proof {
                    lemma_flat_index_bounds(w as int, h as int, i as int, j as int);
                    assert forall|a: int, b: int| 0 <= a < i && 0 <= b < w implies
                        #[trigger] flat_index(w as int, a, b) < flat_index(w as int, i as int, 0) by {
                        assert(a * w + b < i * w) by (nonlinear_arith)
                            requires 0 <= a < i, 0 <= b < w;
                    }
                }
                v.push(x);
                j = j + 1;
            }
            proof {
                assert((i + 1) * w == i * w + w) by (nonlinear_arith);
            }
            i = i + 1;
        }
        assert(v@.len() == w * h) by (nonlinear_arith)
            requires v@.len() == i * w, i == h;
        let r = Array2d { w, h, v };
        r
    }

    /// The dimensions `(width, height)`.
    pub fn dims(&self) -> (r: (usize, usize))
        ensures
            r.0 == self.width(),
            r.1 == self.height(),
            self.wf() ==> r.0 * r.1 <= usize::MAX,
    {
        (self.w, self.h)
    }

    /// The value at row `index.0`, column `index.1`.
    pub fn index(&self, index: (usize, usize)) -> (r: &T)
        requires
            self.wf(),
            self.in_bounds(index.0 as int, index.1 as int),
        ensures
            *r == self.at(index.0 as int, index.1 as int),
    {
        proof {
            lemma_flat_index_bounds(self.w as int, self.h as int, index.0 as int, index.1 as int);
        }
        &self.v[index.0 * self.w + index.1]
    }

    /// Replaces the value at row `index.0`, column `index.1`, leaving every
    /// other cell and the dimensions as they were.
    pub fn set(&mut self, index: (usize, usize), value: T)
        requires
            old(self).wf(),
            old(self).in_bounds(index.0 as int, index.1 as int),
        ensures
            final(self).wf(),
            final(self).width() == old(self).width(),
            final(self).height() == old(self).height(),
            final(self).at(index.0 as int, index.1 as int) == value,
            forall|i: int, j: int|
                #![trigger final(self).at(i, j)]
                old(self).in_bounds(i, j) && (i, j) != (index.0 as int, index.1 as int)
                    ==> final(self).at(i, j) == old(self).at(i, j),
    {
        proof {
            lemma_flat_index_bounds(self.w as int, self.h as int, index.0 as int, index.1 as int);
        }
        let k = index.0 * self.w + index.1;
        self.v.set(k, value);
        proof {
            assert forall|i: int, j: int|
                #![trigger self.at(i, j)]
                old(self).in_bounds(i, j) && (i, j) != (index.0 as int, index.1 as int)
                    implies self.at(i, j) == old(self).at(i, j) by {
                lemma_flat_index_bounds(self.w as int, self.h as int, i, j);
                if flat_index(self.w as int, i, j) == k {
                    lemma_flat_index_injective(self.w as int, i, j, index.0 as int, index.1 as int);
                }
            }
        }
    }
}

impl<T: Default> Array2d<T> {
    /// Builds a `w` by `h` grid with `T::default()` in every cell.
    pub fn new_default(w: usize, h: usize) -> (r: Self)
        requires
            w * h <= usize::MAX,
        ensures
            r.wf(),
            r.width() == w,
            r.height() == h,
            forall|i: int, j: int|
                r.in_bounds(i, j) ==> call_ensures(T::default, (), #[trigger] r.at(i, j)),
    {
        Self::new_with(w, h, |_i: usize, _j: usize| -> (d: T)
            ensures
                call_ensures(T::default, (), d),
            { T::default() })
    }
}

impl<T: Clone> Array2d<T> {
    /// Builds a `w` by `h` grid with a clone of `val` in every cell.
    pub fn new(w: usize, h: usize, val: T) -> (r: Self)
        requires
            w * h <= usize::MAX,
        ensures
            r.wf(),
            r.width() == w,
            r.height() == h,
            forall|i: int, j: int| r.in_bounds(i, j) ==> cloned(val, #[trigger] r.at(i, j)),
    {
        Self::new_with(w, h, |_i: usize, _j: usize| -> (c: T)
            ensures
                cloned(val, c),
            { val.clone() })
    }
}

} // verus!
