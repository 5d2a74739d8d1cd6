//! Numeric containers: the triangular matrix for per-class-pair scalars and
//! the vector-width-padded two-dimensional buffer.

use vstd::prelude::*;

use crate::util::{filled_vec, prefered_simd_size, spec_padded, lemma_padded_props, CLASS_LIMIT, SIMD_WIDTH};

verus! {

/// Error condition for a pair index outside the triangular range.
#[derive(Debug, PartialEq, Eq)]
pub struct IndexOutOfRange;

/// Number of slots taken by the rows before row `i` of a strictly-upper
/// triangular matrix over `n` items: row `r` holds `n - 1 - r` entries.
pub open spec fn tri_base(n: int, i: int) -> int
    decreases i,
{
    if i <= 0 {
        0
    } else {
        tri_base(n, i - 1) + (n - i)
    }
}

/// Linear slot of the pair `(i, j)` with `i < j`.
pub open spec fn tri_index(n: int, i: int, j: int) -> int {
    tri_base(n, i) + (j - i - 1)
}

/// Total number of slots for unordered pairs over `n` items.
pub open spec fn tri_total(n: int) -> int {
    if n <= 0 {
        0
    } else {
        tri_base(n, n - 1)
    }
}

/// Every item of a matrix over `n` items pairs with one item more than it
/// does in a matrix over `n - 1` items.
pub proof fn lemma_tri_base_shift(n: int, i: int)
    requires
        1 <= i,
    ensures
        tri_base(n, i) == tri_base(n - 1, i - 1) + (n - 1),
    decreases i,
{
    if i > 1 {
        lemma_tri_base_shift(n, i - 1);
    } else {
        assert(tri_base(n, 0) == 0);
        assert(tri_base(n - 1, 0) == 0);
        assert(tri_base(n, 1) == tri_base(n, 0) + (n - 1));
    }
}

/// Item `n - 1` adds one slot for each earlier item.
pub proof fn lemma_tri_total_step(n: int)
    requires
        1 <= n,
    ensures
        tri_total(n) == tri_total(n - 1) + (n - 1),
{
    if n >= 2 {
        lemma_tri_base_shift(n, n - 1);
    }
}

pub proof fn lemma_tri_total_doubled(n: int)
    requires
        0 <= n,
    ensures
        2 * tri_total(n) == n * (n - 1),
    decreases n,
{
    if n == 0 {
        assert(n * (n - 1) == 0) by (nonlinear_arith)
            requires
                n == 0,
        ;
    } else {
        lemma_tri_total_doubled(n - 1);
        lemma_tri_total_step(n);
        assert((n - 1) * ((n - 1) - 1) + 2 * (n - 1) == n * (n - 1)) by (nonlinear_arith);
    }
}

pub proof fn lemma_tri_base_mono(n: int, i1: int, i2: int)
    requires
        0 <= i1 <= i2 <= n,
    ensures
        tri_base(n, i1) <= tri_base(n, i2),
    decreases i2 - i1,
{
    if i1 < i2 {
        lemma_tri_base_mono(n, i1, i2 - 1);
    }
}

pub proof fn lemma_tri_index_bounds(n: int, i: int, j: int)
    requires
        0 <= i < j < n,
    ensures
        0 <= tri_base(n, i) <= tri_index(n, i, j),
        tri_index(n, i, j) < tri_base(n, i + 1),
        tri_index(n, i, j) < tri_total(n),
{
    lemma_tri_base_mono(n, 0, i);
    lemma_tri_base_mono(n, i + 1, n - 1);
}

pub proof fn lemma_tri_index_injective(n: int, i1: int, j1: int, i2: int, j2: int)
    requires
        0 <= i1 < j1 < n,
        0 <= i2 < j2 < n,
        tri_index(n, i1, j1) == tri_index(n, i2, j2),
    ensures
        i1 == i2 && j1 == j2,
{
    if i1 < i2 {
        lemma_tri_index_bounds(n, i1, j1);
        lemma_tri_base_mono(n, i1 + 1, i2);
        lemma_tri_index_bounds(n, i2, j2);
        assert(false);
    } else if i2 < i1 {
        lemma_tri_index_bounds(n, i2, j2);
        lemma_tri_base_mono(n, i2 + 1, i1);
        lemma_tri_index_bounds(n, i1, j1);
        assert(false);
    }
}

pub proof fn lemma_tri_total_closed(n: int)
    requires
        0 <= n,
    ensures
        tri_total(n) == n * (n - 1) / 2,
{
    lemma_tri_total_doubled(n);
    vstd::arithmetic::div_mod::lemma_div_multiples_vanish(tri_total(n), 2);
    assert(n * (n - 1) / 2 == (2 * tri_total(n)) / 2);
}

/// The slot count never exceeds what fits comfortably in a 32-bit index.
pub proof fn lemma_tri_total_bound(n: int)
    requires
        0 <= n <= CLASS_LIMIT,
    ensures
        tri_total(n) <= 2147450880,
{
    lemma_tri_total_doubled(n);
    assert(n * (n - 1) <= 65536 * 65535) by (nonlinear_arith)
        requires
            0 <= n <= 65536,
    ;
}

/// Computes the number of slots taken by the rows before row `i`.
fn tri_base_offset(n: usize, i: usize) -> (r: usize)
    requires
        i < n,
        n <= CLASS_LIMIT,
    ensures
        r == tri_base(n as int, i as int),
{
    proof {
        lemma_tri_total_bound(n as int);
    }
    let mut off: usize = 0;
    let mut row: usize = 0;
    while row < i
        invariant
            row <= i < n <= CLASS_LIMIT,
            off == tri_base(n as int, row as int),
            tri_total(n as int) <= 2147450880,
        decreases i - row,
    {
        proof {
            assert(tri_base(n as int, row as int + 1) == tri_base(n as int, row as int) + (n
                - (row + 1)));
            lemma_tri_base_mono(n as int, row as int + 1, n as int - 1);
        }
        off = off + (n - 1 - row);
        row = row + 1;
    }
    off
}

/// Computes the total number of pair slots over `n` items.
pub fn tri_slots(n: usize) -> (r: usize)
    requires
        n <= CLASS_LIMIT,
    ensures
        r == tri_total(n as int),
{
    if n == 0 {
        0
    } else {
        tri_base_offset(n, n - 1)
    }
}

/// Computes the linear slot of the canonical pair `(i, j)`, `i < j`.
pub fn tri_offset(n: usize, i: usize, j: usize) -> (r: usize)
    requires
        i < j < n,
        n <= CLASS_LIMIT,
    ensures
        r == tri_index(n as int, i as int, j as int),
{
    proof {
        lemma_tri_index_bounds(n as int, i as int, j as int);
        lemma_tri_total_bound(n as int);
    }
    tri_base_offset(n, i) + (j - i - 1)
}

/// Compact storage for one scalar per unordered pair `(i, j)`, `i != j`,
/// over `dimension` items; reads are symmetric in `i` and `j`.
#[derive(Clone, Debug)]
pub struct Triangular<T> {
    pub dimension: usize,
    pub data: Vec<T>,
}

impl<T: Copy> Triangular<T> {
    pub open spec fn spec_dim(self) -> int {
        self.dimension as int
    }

    pub open spec fn wf(self) -> bool {
        &&& self.dimension <= CLASS_LIMIT
        &&& self.data@.len() == tri_total(self.dimension as int)
    }

    /// The stored value for the unordered pair `{i, j}`.
    pub open spec fn pair_at(self, i: int, j: int) -> T {
        if i < j {
            self.data@[tri_index(self.spec_dim(), i, j)]
        } else {
            self.data@[tri_index(self.spec_dim(), j, i)]
        }
    }

    pub open spec fn valid_pair(self, i: int, j: int) -> bool {
        &&& 0 <= i < self.spec_dim()
        &&& 0 <= j < self.spec_dim()
        &&& i != j
    }

    /// Allocates `dimension * (dimension - 1) / 2` slots holding `fill`.
    pub fn new(dimension: usize, fill: T) -> (r: Triangular<T>)
        requires
            dimension <= CLASS_LIMIT,
        ensures
            r.wf(),
            r.spec_dim() == dimension,
            r.data@.len() == (dimension as int) * (dimension as int - 1) / 2,
            forall|i: int, j: int| r.valid_pair(i, j) ==> r.pair_at(i, j) == fill,
    {
        let len: usize = if dimension == 0 {
            0
        } else {
            tri_base_offset(dimension, dimension - 1)
        };
        proof {
            lemma_tri_total_closed(dimension as int);
        }
        let r = Triangular { dimension, data: filled_vec(len, fill) };
        proof {
            assert forall|i: int, j: int| r.valid_pair(i, j) implies r.pair_at(i, j) == fill by {
                if i < j {
                    lemma_tri_index_bounds(dimension as int, i, j);
                } else {
                    lemma_tri_index_bounds(dimension as int, j, i);
                }
            }
        }
        r
    }

    pub fn dimension(&self) -> (r: usize)
        ensures
            r == self.spec_dim(),
    {
        self.dimension
    }

    /// Symmetric read of the pair `{i, j}`.
    pub fn get(&self, i: usize, j: usize) -> (r: T)
        requires
            self.wf(),
            self.valid_pair(i as int, j as int),
        ensures
            r == self.pair_at(i as int, j as int),
    {
        let (lo, hi) = if i < j { (i, j) } else { (j, i) };
        proof {
            lemma_tri_index_bounds(self.spec_dim(), lo as int, hi as int);
        }
        let off = tri_offset(self.dimension, lo, hi);
        self.data[off]
    }

    /// Symmetric write of the pair `{i, j}`; every other pair keeps its value.
    pub fn set(&mut self, i: usize, j: usize, value: T)
        requires
            old(self).wf(),
            old(self).valid_pair(i as int, j as int),
        ensures
            final(self).wf(),
            final(self).spec_dim() == old(self).spec_dim(),
            final(self).pair_at(i as int, j as int) == value,
            final(self).pair_at(j as int, i as int) == value,
            forall|a: int, b: int|
                old(self).valid_pair(a, b) && !(a == i && b == j) && !(a == j && b == i)
                    ==> final(self).pair_at(a, b) == old(self).pair_at(a, b),
    {
        let (lo, hi) = if i < j { (i, j) } else { (j, i) };
        proof {
            lemma_tri_index_bounds(self.spec_dim(), lo as int, hi as int);
        }
        let off = tri_offset(self.dimension, lo, hi);
        self.data.set(off, value);
        proof {
            let n = self.spec_dim();
            assert forall|a: int, b: int|
                old(self).valid_pair(a, b) && !(a == i && b == j) && !(a == j && b == i)
                    implies self.pair_at(a, b) == old(self).pair_at(a, b) by {
                let (alo, ahi) = if a < b { (a, b) } else { (b, a) };
                lemma_tri_index_bounds(n, alo, ahi);
                if tri_index(n, alo, ahi) == tri_index(n, lo as int, hi as int) {
                    lemma_tri_index_injective(n, alo, ahi, lo as int, hi as int);
                }
            }
        }
    }

    /// Law: reading a pair is symmetric in its two indices.
    pub proof fn lemma_symmetric(self, i: int, j: int)
        requires
            self.valid_pair(i, j),
        ensures
            self.pair_at(i, j) == self.pair_at(j, i),
    {
    }

    /// Checked read: out-of-range or diagonal indices report
    /// [`IndexOutOfRange`] instead of a value.
    pub fn try_get(&self, i: usize, j: usize) -> (r: Result<T, IndexOutOfRange>)
        requires
            self.wf(),
        ensures
            match r {
                Ok(v) => self.valid_pair(i as int, j as int) && v == self.pair_at(
                    i as int,
                    j as int,
                ),
                Err(_) => !self.valid_pair(i as int, j as int),
            },
    {
        if i < self.dimension && j < self.dimension && i != j {
            Ok(self.get(i, j))
        } else {
            Err(IndexOutOfRange)
        }
    }

    /// Checked write: out-of-range or diagonal indices report
    /// [`IndexOutOfRange`] and leave the matrix unchanged.
    pub fn try_set(&mut self, i: usize, j: usize, value: T) -> (r: Result<(), IndexOutOfRange>)
        requires
            old(self).wf(),
        ensures
            final(self).wf(),
            final(self).spec_dim() == old(self).spec_dim(),
            match r {
                Ok(_) => old(self).valid_pair(i as int, j as int) && final(self).pair_at(
                    i as int,
                    j as int,
                ) == value && final(self).pair_at(j as int, i as int) == value && forall|
                    a: int,
                    b: int,
                |
                    old(self).valid_pair(a, b) && !(a == i && b == j) && !(a == j && b == i)
                        ==> final(self).pair_at(a, b) == old(self).pair_at(a, b),
                Err(_) => !old(self).valid_pair(i as int, j as int) && *final(self) == *old(self),
            },
    {
        if i < self.dimension && j < self.dimension && i != j {
            self.set(i, j, value);
            Ok(())
        } else {
            Err(IndexOutOfRange)
        }
    }
}

/// Row-major `rows x cols` buffer whose rows are padded to a multiple of the
/// vector width; padding cells exist but indexed access never reaches them.
#[derive(Clone, Debug)]
pub struct SimdOptimized<T> {
    pub rows: usize,
    pub cols: usize,
    pub padded_cols: usize,
    pub data: Vec<T>,
}

pub proof fn lemma_rowmajor_bound(r: int, c: int, rows: int, padded: int)
    requires
        0 <= r < rows,
        0 <= c < padded,
    ensures
        0 <= r * padded + c < rows * padded,
{
    assert(0 <= r * padded + c < rows * padded) by (nonlinear_arith)
        requires
            0 <= r < rows,
            0 <= c < padded,
    ;
}

pub proof fn lemma_rowmajor_injective(r1: int, c1: int, r2: int, c2: int, padded: int)
    requires
        0 <= c1 < padded,
        0 <= c2 < padded,
        0 <= r1,
        0 <= r2,
        r1 * padded + c1 == r2 * padded + c2,
    ensures
        r1 == r2 && c1 == c2,
{
    assert(r1 == r2 && c1 == c2) by (nonlinear_arith)
        requires
            0 <= c1 < padded,
            0 <= c2 < padded,
            0 <= r1,
            0 <= r2,
            r1 * padded + c1 == r2 * padded + c2,
    ;
}

impl<T: Copy> SimdOptimized<T> {
    pub open spec fn spec_rows(self) -> int {
        self.rows as int
    }

    pub open spec fn spec_cols(self) -> int {
        self.cols as int
    }

    pub open spec fn spec_padded_cols(self) -> int {
        self.padded_cols as int
    }

    pub open spec fn wf(self) -> bool {
        &&& self.padded_cols as int == spec_padded(self.cols as int)
        &&& self.data@.len() == self.rows as int * self.padded_cols as int
    }

    /// The cell in row `r` at (possibly padding) column `c`.
    pub open spec fn entry(self, r: int, c: int) -> T {
        self.data@[r * self.spec_padded_cols() + c]
    }

    /// Row `r` restricted to its logical columns.
    pub open spec fn row_seq(self, r: int) -> Seq<T> {
        Seq::new(self.cols as nat, |c: int| self.entry(r, c))
    }

    /// Allocates `rows` rows, each padded from `cols` up to the vector
    /// width, with every cell (padding included) holding `fill`.
    pub fn with_dimension(rows: usize, cols: usize, fill: T) -> (r: SimdOptimized<T>)
        requires
            cols + SIMD_WIDTH <= usize::MAX,
            rows * spec_padded(cols as int) <= usize::MAX,
        ensures
            r.wf(),
            r.spec_rows() == rows,
            r.spec_cols() == cols,
            forall|a: int, b: int|
                0 <= a < rows && 0 <= b < r.spec_padded_cols() ==> r.entry(a, b) == fill,
    {
        let padded_cols = prefered_simd_size(cols);
        proof {
            lemma_padded_props(cols as int);
        }
        let len = rows * padded_cols;
        let out = SimdOptimized { rows, cols, padded_cols, data: filled_vec(len, fill) };
        proof {
            assert forall|a: int, b: int|
                0 <= a < rows && 0 <= b < out.spec_padded_cols() implies out.entry(a, b)
                == fill by {
                lemma_rowmajor_bound(a, b, rows as int, out.spec_padded_cols());
            }
        }
        out
    }

    pub fn rows(&self) -> (r: usize)
        ensures
            r == self.spec_rows(),
    {
        self.rows
    }

    pub fn cols(&self) -> (r: usize)
        ensures
            r == self.spec_cols(),
    {
        self.cols
    }

    pub fn padded_cols(&self) -> (r: usize)
        ensures
            r == self.spec_padded_cols(),
    {
        self.padded_cols
    }

    /// Reads the cell at row `r`, logical column `c`; padding is out of
    /// range by contract.
    pub fn get(&self, r: usize, c: usize) -> (v: T)
        requires
            self.wf(),
            r < self.spec_rows(),
            c < self.spec_cols(),
        ensures
            v == self.entry(r as int, c as int),
    {
        let total = self.data.len();
        proof {
            lemma_padded_props(self.cols as int);
            lemma_rowmajor_bound(r as int, c as int, self.rows as int, self.padded_cols as int);
        }
        self.data[r * self.padded_cols + c]
    }

    /// Writes the cell at row `r`, logical column `c`; every other cell,
    /// padding included, keeps its value.
    pub fn set(&mut self, r: usize, c: usize, value: T)
        requires
            old(self).wf(),
            r < old(self).spec_rows(),
            c < old(self).spec_cols(),
        ensures
            final(self).wf(),
            final(self).spec_rows() == old(self).spec_rows(),
            final(self).spec_cols() == old(self).spec_cols(),
            final(self).spec_padded_cols() == old(self).spec_padded_cols(),
            final(self).entry(r as int, c as int) == value,
            forall|a: int, b: int|
                0 <= a < old(self).spec_rows() && 0 <= b < old(self).spec_padded_cols() && !(a
                    == r && b == c) ==> final(self).entry(a, b) == old(self).entry(a, b),
    {
        let total = self.data.len();
        proof {
            lemma_padded_props(self.cols as int);
            lemma_rowmajor_bound(r as int, c as int, self.rows as int, self.padded_cols as int);
        }
        let off = r * self.padded_cols + c;
        self.data.set(off, value);
        proof {
            let padded = self.spec_padded_cols();
            assert forall|a: int, b: int|
                0 <= a < old(self).spec_rows() && 0 <= b < old(self).spec_padded_cols() && !(a
                    == r && b == c) implies self.entry(a, b) == old(self).entry(a, b) by {
                lemma_rowmajor_bound(a, b, old(self).spec_rows(), padded);
                if a * padded + b == r as int * padded + c as int {
                    lemma_rowmajor_injective(a, b, r as int, c as int, padded);
                }
            }
        }
    }
}

} // verus!
