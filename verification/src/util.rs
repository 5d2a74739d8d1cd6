//! Shared constants, the padding rule for vector-width alignment, and a few
//! small arithmetic helpers used throughout the crate.

use vstd::prelude::*;

verus! {

/// Number of scalar lanes assumed per vector register; inner buffer
/// dimensions are rounded up to a multiple of this width.
pub const SIMD_WIDTH: usize = 8;

/// Largest accepted feature dimensionality.
pub const ATTR_LIMIT: usize = 1048576;

/// Largest accepted total number of support vectors in a model.
pub const SV_LIMIT: usize = 1073741824;

/// Largest accepted number of classes.
pub const CLASS_LIMIT: usize = 65536;

/// Bound on the magnitude of every feature and support-vector entry.
pub const VALUE_BOUND: i64 = 65536;

/// `VALUE_BOUND * VALUE_BOUND`: bound on the magnitude of a product of two
/// in-bound entries.
pub const VALUE_BOUND_SQ: i64 = 4294967296;

/// Bound on the magnitude of every kernel similarity value:
/// `ATTR_LIMIT * VALUE_BOUND_SQ`.
pub const KERNEL_BOUND: i64 = 4503599627370496;

/// Bound on the magnitude of every dual coefficient.
pub const COEF_BOUND: i64 = 1048576;

/// `size` rounded up to the next multiple of [`SIMD_WIDTH`].
pub open spec fn spec_padded(size: int) -> int {
    if size % (SIMD_WIDTH as int) == 0 {
        size
    } else {
        size + ((SIMD_WIDTH as int) - size % (SIMD_WIDTH as int))
    }
}

/// The padded size is the unique multiple of the vector width in
/// `[size, size + SIMD_WIDTH)`.
pub proof fn lemma_padded_props(size: int)
    requires
        0 <= size,
    ensures
        spec_padded(size) % (SIMD_WIDTH as int) == 0,
        size <= spec_padded(size) < size + (SIMD_WIDTH as int),
{
    let w = SIMD_WIDTH as int;
    if size % w != 0 {
        assert(spec_padded(size) % w == 0) by (nonlinear_arith)
            requires
                w == 8,
                0 <= size,
                spec_padded(size) == size + (w - size % w),
                size % w != 0,
        ;
    }
}

/// Rounds a size up to the preferred vector width, so that a row of that
/// many elements can be processed in whole vector registers.
pub fn prefered_simd_size(size: usize) -> (r: usize)
    requires
        size + SIMD_WIDTH <= usize::MAX,
    ensures
        r == spec_padded(size as int),
        r % SIMD_WIDTH == 0,
        size <= r < size + SIMD_WIDTH,
{
    proof {
        lemma_padded_props(size as int);
    }
    let rem = size % SIMD_WIDTH;
    if rem == 0 {
        size
    } else {
        size - rem + SIMD_WIDTH
    }
}

/// A vector of `len` copies of `fill`.
pub fn filled_vec<T: Copy>(len: usize, fill: T) -> (r: Vec<T>)
    ensures
        r@.len() == len,
        forall|k: int| 0 <= k < len ==> r@[k] == fill,
{
    let mut v: Vec<T> = Vec::new();
    let mut i: usize = 0;
    while i < len
        invariant
            i <= len,
            v@.len() == i,
            forall|k: int| 0 <= k < i ==> v@[k] == fill,
        decreases len - i,
    {
        v.push(fill);
        i = i + 1;
    }
    v
}

/// Bound on a product from bounds on its factors.
pub proof fn lemma_mul_bounds(a: int, b: int, m: int, n: int)
    requires
        -m <= a <= m,
        -n <= b <= n,
        0 <= m,
        0 <= n,
    ensures
        -(m * n) <= a * b <= m * n,
{
    assert(-(m * n) <= a * b <= m * n) by (nonlinear_arith)
        requires
            -m <= a <= m,
            -n <= b <= n,
            0 <= m,
            0 <= n,
    ;
}

} // verus!
