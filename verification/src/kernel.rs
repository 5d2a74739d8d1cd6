//! The kernel capability: computes similarity values between an input and
//! the support vectors of one class, one row of the kernel-value buffer at
//! a time. One concrete kernel, the linear (dot-product) kernel, is part of
//! the crate; further kernel families implement the same trait.

use vstd::prelude::*;

use crate::util::{ATTR_LIMIT, KERNEL_BOUND, VALUE_BOUND, VALUE_BOUND_SQ, lemma_mul_bounds};
use crate::vectors::SimdOptimized;

verus! {

/// Entry-wise magnitude bound over a sequence of scalars.
pub open spec fn seq_bounded(s: Seq<i64>, bound: int) -> bool {
    forall|k: int| 0 <= k < s.len() ==> -bound <= #[trigger] s[k] <= bound
}

/// Entry-wise magnitude bound over the logical cells of a buffer.
pub open spec fn matrix_bounded(m: SimdOptimized<i64>, bound: int) -> bool {
    forall|r: int, c: int|
        0 <= r < m.spec_rows() && 0 <= c < m.spec_cols() ==> -bound <= #[trigger] m.entry(r, c)
            <= bound
}

/// A kernel family. `sim` is the mathematical similarity of an input
/// against one support vector; `compute` evaluates it against every support
/// vector of a class, writing one value per vector into a caller-chosen row
/// of the kernel-value buffer.
pub trait Kernel: Sized {
    /// Similarity of input `x` against support vector `v`, both given over
    /// the logical (unpadded) attribute range, as a fixed-point scalar.
    /// Left unspecified until an implementation overrides it.
    open spec fn sim(&self, x: Seq<i64>, v: Seq<i64>) -> int {
        vstd::pervasive::arbitrary()
    }

    /// Fills `out[row][p]` with the similarity of `features` against row
    /// `p` of `svs`, for every `p`; touches nothing else, and keeps every
    /// similarity within [`KERNEL_BOUND`].
    fn compute(
        &self,
        features: &Vec<i64>,
        svs: &SimdOptimized<i64>,
        out: &mut SimdOptimized<i64>,
        row: usize,
    )
        requires
            svs.wf(),
            old(out).wf(),
            svs.spec_cols() <= ATTR_LIMIT,
            features@.len() >= svs.spec_cols(),
            seq_bounded(features@, VALUE_BOUND as int),
            matrix_bounded(*svs, VALUE_BOUND as int),
            row < old(out).spec_rows(),
            svs.spec_rows() <= old(out).spec_cols(),
        ensures
            final(out).wf(),
            final(out).spec_rows() == old(out).spec_rows(),
            final(out).spec_cols() == old(out).spec_cols(),
            final(out).spec_padded_cols() == old(out).spec_padded_cols(),
            forall|p: int|
                0 <= p < svs.spec_rows() ==> {
                    &&& #[trigger] final(out).entry(row as int, p) == self.sim(
                        features@.take(svs.spec_cols()),
                        svs.row_seq(p),
                    )
                    &&& -KERNEL_BOUND <= final(out).entry(row as int, p) <= KERNEL_BOUND
                },
            forall|a: int, b: int|
                0 <= a < old(out).spec_rows() && 0 <= b < old(out).spec_padded_cols() && !(a
                    == row && 0 <= b < svs.spec_rows()) ==> #[trigger] final(out).entry(a, b)
                    == old(out).entry(a, b),
    ;
}

/// Dot product of the first `k` entries of two sequences.
pub open spec fn dot_prefix(x: Seq<i64>, v: Seq<i64>, k: int) -> int
    decreases k,
{
    if k <= 0 {
        0
    } else {
        dot_prefix(x, v, k - 1) + x[k - 1] * v[k - 1]
    }
}

/// Dot product over the common length of two sequences.
pub open spec fn dot(x: Seq<i64>, v: Seq<i64>) -> int {
    dot_prefix(x, v, if x.len() <= v.len() { x.len() as int } else { v.len() as int })
}

/// The linear kernel: similarity is the plain dot product of the input and
/// the support vector.
#[derive(Clone, Copy, Debug)]
pub struct LinearKernel;

impl Kernel for LinearKernel {
    open spec fn sim(&self, x: Seq<i64>, v: Seq<i64>) -> int {
        dot(x, v)
    }

    fn compute(
        &self,
        features: &Vec<i64>,
        svs: &SimdOptimized<i64>,
        out: &mut SimdOptimized<i64>,
        row: usize,
    ) {
        let n_sv = svs.rows();
        let cols = svs.cols();
        let mut p: usize = 0;
        while p < n_sv
            invariant
                svs.wf(),
                out.wf(),
                svs.spec_cols() <= ATTR_LIMIT,
                features@.len() >= svs.spec_cols(),
                seq_bounded(features@, VALUE_BOUND as int),
                matrix_bounded(*svs, VALUE_BOUND as int),
                row < out.spec_rows(),
                svs.spec_rows() <= out.spec_cols(),
                n_sv == svs.spec_rows(),
                cols == svs.spec_cols(),
                p <= n_sv,
                out.spec_rows() == old(out).spec_rows(),
                out.spec_cols() == old(out).spec_cols(),
                out.spec_padded_cols() == old(out).spec_padded_cols(),
                forall|q: int|
                    0 <= q < p ==> {
                        &&& #[trigger] out.entry(row as int, q) == self.sim(
                            features@.take(svs.spec_cols()),
                            svs.row_seq(q),
                        )
                        &&& -KERNEL_BOUND <= out.entry(row as int, q) <= KERNEL_BOUND
                    },
                forall|a: int, b: int|
                    0 <= a < old(out).spec_rows() && 0 <= b < old(out).spec_padded_cols() && !(a
                        == row && 0 <= b < p) ==> #[trigger] out.entry(a, b) == old(out).entry(
                        a,
                        b,
                    ),
            decreases n_sv - p,
        {
            let ghost xt = features@.take(svs.spec_cols());
            let ghost vr = svs.row_seq(p as int);
            let mut acc: i64 = 0;
            let mut k: usize = 0;
            while k < cols
                invariant
                    svs.wf(),
                    svs.spec_cols() <= ATTR_LIMIT,
                    features@.len() >= svs.spec_cols(),
                    seq_bounded(features@, VALUE_BOUND as int),
                    matrix_bounded(*svs, VALUE_BOUND as int),
                    p < svs.spec_rows(),
                    cols == svs.spec_cols(),
                    k <= cols,
                    xt == features@.take(svs.spec_cols()),
                    vr == svs.row_seq(p as int),
                    acc == dot_prefix(xt, vr, k as int),
                    -(k as int) * (VALUE_BOUND_SQ as int) <= acc <= (k as int) * (
                    VALUE_BOUND_SQ as int),
                decreases cols - k,
            {
                let f = features[k];
                let s = svs.get(p, k);
                proof {
                    lemma_mul_bounds(f as int, s as int, VALUE_BOUND as int, VALUE_BOUND as int);
                    assert(dot_prefix(xt, vr, k as int + 1) == dot_prefix(xt, vr, k as int)
                        + xt[k as int] * vr[k as int]);
                    assert(xt[k as int] == features@[k as int]);
                    assert(vr[k as int] == svs.entry(p as int, k as int));
                }
                acc = acc + f * s;
                k = k + 1;
            }
            out.set(row, p, acc);
            p = p + 1;
        }
    }
}

} // verus!
