//! The trained model and the one-vs-one prediction pipeline: kernel values,
//! pairwise decision values, votes, and the winning label.

use vstd::prelude::*;

use rayon::iter::{IntoParallelRefMutIterator, ParallelIterator};

use crate::kernel::{matrix_bounded, seq_bounded, Kernel};
use crate::problem::Problem;
use crate::util::{ATTR_LIMIT, CLASS_LIMIT, COEF_BOUND, KERNEL_BOUND, SV_LIMIT, VALUE_BOUND,
    lemma_mul_bounds, prefered_simd_size, spec_padded};
use crate::vectors::{tri_index, tri_offset, tri_slots, tri_total, lemma_tri_index_bounds,
    lemma_tri_index_injective, lemma_tri_total_step, lemma_tri_total_closed, Triangular};

verus! {

/// `COEF_BOUND * KERNEL_BOUND`: bound on the magnitude of one summand of a
/// decision value.
pub const DEC_TERM_BOUND: i128 = 4722366482869645213696;

/// One label's worth of support vectors, with the dual coefficients of each
/// vector against every other class.
#[derive(Clone, Debug)]
pub struct Class {
    /// External label of this class.
    pub label: u32,
    /// One row per support vector, one logical column per attribute.
    pub support_vectors: crate::vectors::SimdOptimized<i64>,
    /// One row per opposing class (in class order, own class skipped), one
    /// entry per support vector.
    pub coefficients: Vec<Vec<i64>>,
}

impl Class {
    pub open spec fn spec_num_sv(self) -> int {
        self.support_vectors.spec_rows()
    }

    /// Shape and bounds of one class within a model of `num_classes`
    /// classes over `num_attributes` attributes.
    pub open spec fn wf(self, num_classes: int, num_attributes: int) -> bool {
        &&& self.support_vectors.wf()
        &&& self.support_vectors.spec_cols() == num_attributes
        &&& matrix_bounded(self.support_vectors, VALUE_BOUND as int)
        &&& self.coefficients@.len() == num_classes - 1
        &&& forall|o: int|
            0 <= o < num_classes - 1 ==> #[trigger] self.coefficients@[o]@.len()
                == self.spec_num_sv()
        &&& forall|o: int, p: int|
            0 <= o < num_classes - 1 && 0 <= p < self.spec_num_sv() ==> -COEF_BOUND
                <= #[trigger] self.coefficients@[o]@[p] <= COEF_BOUND
    }
}

/// Per-pair logistic calibration constants of a probability-trained model.
#[derive(Clone, Debug)]
pub struct Probabilities {
    pub a: Triangular<i64>,
    pub b: Triangular<i64>,
}

/// Error raised at model construction when the parts do not describe a
/// dense, contiguously-numbered attribute space of one common width, or
/// break one of the documented size and magnitude limits.
#[derive(Debug, PartialEq, Eq)]
pub enum InstantiationError {
    SvmAttributesUnordered,
}

/// Core support vector machine: the trained, immutable model.
#[derive(Clone, Debug)]
pub struct SVM<T: Kernel> {
    /// Total number of support vectors over all classes.
    pub num_total_sv: usize,
    /// Number of attributes per support vector.
    pub num_attributes: usize,
    /// One decision threshold per unordered class pair.
    pub rho: Triangular<i64>,
    /// Calibration constants, present iff the model supports probability
    /// estimates.
    pub probabilities: Option<Probabilities>,
    /// The kernel instance.
    pub kernel: T,
    /// All classes; their order defines class indices and pair order.
    pub classes: Vec<Class>,
}

/// Support vectors held by the first `c` classes.
pub open spec fn sv_total_prefix(classes: Seq<Class>, c: int) -> int
    decreases c,
{
    if c <= 0 {
        0
    } else {
        sv_total_prefix(classes, c - 1) + classes[c - 1].spec_num_sv()
    }
}

/// Prefixes of the support-vector count grow with the class index.
pub proof fn lemma_sv_total_mono(classes: Seq<Class>, a: int, b: int)
    requires
        0 <= a <= b,
    ensures
        sv_total_prefix(classes, a) <= sv_total_prefix(classes, b),
    decreases b - a,
{
    if a < b {
        lemma_sv_total_mono(classes, a, b - 1);
    }
}

/// Whether the given parts assemble into a well-formed model: at least one
/// class, every support-vector matrix dense over exactly the stated
/// attribute space, coefficient rows matching the class order, pair
/// matrices sized to the class count, and every scalar within its
/// documented bound.
pub open spec fn spec_parts_valid(
    num_attributes: usize,
    rho: Triangular<i64>,
    probabilities: Option<Probabilities>,
    classes: Seq<Class>,
) -> bool {
    let n = classes.len() as int;
    &&& 1 <= n <= CLASS_LIMIT
    &&& num_attributes <= ATTR_LIMIT
    &&& sv_total_prefix(classes, n) <= SV_LIMIT
    &&& n * spec_padded(sv_total_prefix(classes, n)) <= usize::MAX
    &&& rho.wf()
    &&& rho.spec_dim() == n
    &&& match probabilities {
        Some(pr) => pr.a.wf() && pr.a.spec_dim() == n && pr.b.wf() && pr.b.spec_dim() == n,
        None => true,
    }
    &&& forall|c: int| 0 <= c < n ==> #[trigger] classes[c].wf(n, num_attributes as int)
}

impl<T: Kernel> SVM<T> {
    pub open spec fn spec_num_classes(self) -> int {
        self.classes@.len() as int
    }

    /// Support vectors held by the classes before class `c`.
    pub open spec fn sv_count_prefix(self, c: int) -> int {
        sv_total_prefix(self.classes@, c)
    }

    /// Structural well-formedness of a model: consistent dimensions
    /// everywhere, and every stored scalar within its documented bound.
    pub open spec fn wf(self) -> bool {
        &&& 1 <= self.spec_num_classes() <= CLASS_LIMIT
        &&& self.num_attributes <= ATTR_LIMIT
        &&& self.num_total_sv <= SV_LIMIT
        &&& self.num_total_sv == self.sv_count_prefix(self.spec_num_classes())
        &&& self.spec_num_classes() * spec_padded(self.num_total_sv as int) <= usize::MAX
        &&& self.rho.wf()
        &&& self.rho.spec_dim() == self.spec_num_classes()
        &&& match self.probabilities {
            Some(pr) => pr.a.wf() && pr.a.spec_dim() == self.spec_num_classes() && pr.b.wf()
                && pr.b.spec_dim() == self.spec_num_classes(),
            None => true,
        }
        &&& forall|c: int|
            0 <= c < self.spec_num_classes() ==> #[trigger] self.classes@[c].wf(
                self.spec_num_classes(),
                self.num_attributes as int,
            )
    }

    pub proof fn lemma_sv_prefix_mono(self, a: int, b: int)
        requires
            0 <= a <= b,
        ensures
            self.sv_count_prefix(a) <= self.sv_count_prefix(b),
    {
        lemma_sv_total_mono(self.classes@, a, b);
    }

    /// No single class holds more support vectors than the model in total.
    pub proof fn lemma_class_sv_le_total(self, c: int)
        requires
            self.wf(),
            0 <= c < self.spec_num_classes(),
        ensures
            0 <= self.classes@[c].spec_num_sv(),
            self.sv_count_prefix(c) + self.classes@[c].spec_num_sv() <= self.num_total_sv,
            self.classes@[c].spec_num_sv() <= self.num_total_sv,
            0 <= self.sv_count_prefix(c),
    {
        self.lemma_sv_prefix_mono(0, c);
        self.lemma_sv_prefix_mono(c + 1, self.spec_num_classes());
        assert(self.sv_count_prefix(c + 1) == self.sv_count_prefix(c)
            + self.classes@[c].spec_num_sv());
    }

    /// Finds the class index for a given label: the first class carrying
    /// it, or `None` when no class does.
    pub fn class_index_for_label(&self, label: u32) -> (r: Option<usize>)
        ensures
            match r {
                Some(i) => {
                    &&& 0 <= i < self.spec_num_classes()
                    &&& self.classes@[i as int].label == label
                    &&& forall|j: int| 0 <= j < i ==> self.classes@[j].label != label
                },
                None => forall|j: int|
                    0 <= j < self.spec_num_classes() ==> self.classes@[j].label != label,
            },
    {
        let mut i: usize = 0;
        while i < self.classes.len()
            invariant
                i <= self.spec_num_classes(),
                forall|j: int| 0 <= j < i ==> self.classes@[j].label != label,
            decreases self.spec_num_classes() - i,
        {
            if self.classes[i].label == label {
                return Some(i);
            }
            i = i + 1;
        }
        None
    }
}

impl<T: Kernel> SVM<T> {
    /// Assembles and validates a model. Succeeds if and only if the parts
    /// are valid: in particular, every class's support vectors must cover
    /// the attributes `0 .. num_attributes` exactly (a dense matrix of that
    /// logical width); anything else is reported as
    /// [`InstantiationError::SvmAttributesUnordered`].
    pub fn new(
        num_attributes: usize,
        rho: Triangular<i64>,
        probabilities: Option<Probabilities>,
        kernel: T,
        classes: Vec<Class>,
    ) -> (r: Result<SVM<T>, InstantiationError>)
        ensures
            match r {
                Ok(svm) => {
                    &&& spec_parts_valid(num_attributes, rho, probabilities, classes@)
                    &&& svm.wf()
                    &&& svm.num_attributes == num_attributes
                    &&& svm.rho == rho
                    &&& svm.probabilities == probabilities
                    &&& svm.kernel == kernel
                    &&& svm.classes == classes
                    &&& svm.num_total_sv as int == sv_total_prefix(classes@, classes@.len() as int)
                },
                Err(e) => {
                    &&& e == InstantiationError::SvmAttributesUnordered
                    &&& !spec_parts_valid(num_attributes, rho, probabilities, classes@)
                },
            },
    {
        let n = classes.len();
        if n == 0 || n > CLASS_LIMIT {
            return Err(InstantiationError::SvmAttributesUnordered);
        }
        if num_attributes > ATTR_LIMIT {
            return Err(InstantiationError::SvmAttributesUnordered);
        }
        if rho.dimension() != n {
            return Err(InstantiationError::SvmAttributesUnordered);
        }
        let expected_pairs = tri_slots(n);
        if rho.data.len() != expected_pairs {
            return Err(InstantiationError::SvmAttributesUnordered);
        }
        match &probabilities {
            Some(pr) => {
                if pr.a.dimension() != n || pr.a.data.len() != expected_pairs {
                    return Err(InstantiationError::SvmAttributesUnordered);
                }
                if pr.b.dimension() != n || pr.b.data.len() != expected_pairs {
                    return Err(InstantiationError::SvmAttributesUnordered);
                }
            },
            None => {},
        }
        let padded_attrs = prefered_simd_size(num_attributes);
        let mut total: usize = 0;
        let mut c: usize = 0;
        while c < n
            invariant
                n == classes@.len(),
                1 <= n <= CLASS_LIMIT,
                num_attributes <= ATTR_LIMIT,
                padded_attrs == spec_padded(num_attributes as int),
                c <= n,
                total == sv_total_prefix(classes@, c as int),
                total <= SV_LIMIT,
                forall|d: int|
                    0 <= d < c ==> #[trigger] classes@[d].wf(n as int, num_attributes as int),
            decreases n - c,
        {
            let class = &classes[c];
            let sv = &class.support_vectors;
            if sv.cols() != num_attributes {
                proof {
                    if spec_parts_valid(num_attributes, rho, probabilities, classes@) {
                        assert(classes@[c as int].wf(classes@.len() as int, num_attributes as int));
                    }
                }
                return Err(InstantiationError::SvmAttributesUnordered);
            }
            if sv.padded_cols() != padded_attrs {
                proof {
                    if spec_parts_valid(num_attributes, rho, probabilities, classes@) {
                        assert(classes@[c as int].wf(classes@.len() as int, num_attributes as int));
                    }
                }
                return Err(InstantiationError::SvmAttributesUnordered);
            }
            proof {
                lemma_mul_bounds(
                    sv.spec_rows(),
                    sv.spec_padded_cols(),
                    0xffffffffffffffff,
                    0xffffffffffffffff,
                );
            }
            if (sv.rows() as u128) * (sv.padded_cols() as u128) != (sv.data.len() as u128) {
                proof {
                    if spec_parts_valid(num_attributes, rho, probabilities, classes@) {
                        assert(classes@[c as int].wf(classes@.len() as int, num_attributes as int));
                    }
                }
                return Err(InstantiationError::SvmAttributesUnordered);
            }
            proof {
                assert(sv.wf());
            }
            if sv.rows() > SV_LIMIT - total {
                proof {
                    if spec_parts_valid(num_attributes, rho, probabilities, classes@) {
                        lemma_sv_total_mono(classes@, c as int + 1, n as int);
                        assert(sv_total_prefix(classes@, c as int + 1) == sv_total_prefix(
                            classes@,
                            c as int,
                        ) + classes@[c as int].spec_num_sv());
                    }
                }
                return Err(InstantiationError::SvmAttributesUnordered);
            }
            let rows = sv.rows();
            let mut rr: usize = 0;
            while rr < rows
                invariant
                    sv.wf(),
                    rows == sv.spec_rows(),
                    sv.spec_cols() == num_attributes,
                    c < n == classes@.len(),
                    classes@[c as int].support_vectors == *sv,
                    rr <= rows,
                    forall|x: int, y: int|
                        0 <= x < rr && 0 <= y < sv.spec_cols() ==> -VALUE_BOUND
                            <= #[trigger] sv.entry(x, y) <= VALUE_BOUND,
                decreases rows - rr,
            {
                let mut cc: usize = 0;
                while cc < num_attributes
                    invariant
                        sv.wf(),
                        rows == sv.spec_rows(),
                        sv.spec_cols() == num_attributes,
                        c < n == classes@.len(),
                        classes@[c as int].support_vectors == *sv,
                        rr < rows,
                        cc <= num_attributes,
                        forall|x: int, y: int|
                            0 <= x < rr && 0 <= y < sv.spec_cols() ==> -VALUE_BOUND
                                <= #[trigger] sv.entry(x, y) <= VALUE_BOUND,
                        forall|y: int|
                            0 <= y < cc ==> -VALUE_BOUND <= #[trigger] sv.entry(rr as int, y)
                                <= VALUE_BOUND,
                    decreases num_attributes - cc,
                {
                    let e = sv.get(rr, cc);
                    if e > VALUE_BOUND || e < -VALUE_BOUND {
                        proof {
                            assert(!matrix_bounded(*sv, VALUE_BOUND as int));
                            if spec_parts_valid(num_attributes, rho, probabilities, classes@) {
                        assert(classes@[c as int].wf(classes@.len() as int, num_attributes as int));
                    }
                        }
                        return Err(InstantiationError::SvmAttributesUnordered);
                    }
                    cc = cc + 1;
                }
                rr = rr + 1;
            }
            if class.coefficients.len() != n - 1 {
                proof {
                    if spec_parts_valid(num_attributes, rho, probabilities, classes@) {
                        assert(classes@[c as int].wf(classes@.len() as int, num_attributes as int));
                    }
                }
                return Err(InstantiationError::SvmAttributesUnordered);
            }
            let mut o: usize = 0;
            while o < n - 1
                invariant
                    sv.wf(),
                    rows == sv.spec_rows(),
                    classes@[c as int].support_vectors == *sv,
                    class.coefficients@.len() == n - 1,
                    classes@[c as int] == *class,
                    c < n == classes@.len(),
                    1 <= n,
                    num_attributes <= ATTR_LIMIT,
                    o <= n - 1,
                    forall|x: int|
                        0 <= x < o ==> #[trigger] class.coefficients@[x]@.len() == rows,
                    forall|x: int, y: int|
                        0 <= x < o && 0 <= y < rows ==> -COEF_BOUND
                            <= #[trigger] class.coefficients@[x]@[y] <= COEF_BOUND,
                decreases n - 1 - o,
            {
                let row = &class.coefficients[o];
                if row.len() != rows {
                    proof {
                        if spec_parts_valid(num_attributes, rho, probabilities, classes@) {
                            assert(classes@[c as int].wf(
                                classes@.len() as int,
                                num_attributes as int,
                            ));
                            assert(classes@[c as int].coefficients@[o as int]@.len()
                                == classes@[c as int].spec_num_sv());
                            assert(false);
                        }
                    }
                    return Err(InstantiationError::SvmAttributesUnordered);
                }
                let mut p: usize = 0;
                while p < rows
                    invariant
                        c < n == classes@.len(),
                        classes@[c as int] == *class,
                        class.coefficients@.len() == n - 1,
                        o < n - 1,
                        rows == sv.spec_rows(),
                        classes@[c as int].support_vectors == *sv,
                        row@ == class.coefficients@[o as int]@,
                        row@.len() == rows,
                        p <= rows,
                        forall|x: int|
                            0 <= x < o ==> #[trigger] class.coefficients@[x]@.len() == rows,
                        forall|x: int, y: int|
                            0 <= x < o && 0 <= y < rows ==> -COEF_BOUND
                                <= #[trigger] class.coefficients@[x]@[y] <= COEF_BOUND,
                        forall|y: int|
                            0 <= y < p ==> -COEF_BOUND <= #[trigger] row@[y] <= COEF_BOUND,
                    decreases rows - p,
                {
                    let v = row[p];
                    if v > COEF_BOUND || v < -COEF_BOUND {
                        proof {
                            if spec_parts_valid(num_attributes, rho, probabilities, classes@) {
                                assert(classes@[c as int].wf(
                                    classes@.len() as int,
                                    num_attributes as int,
                                ));
                                assert(-COEF_BOUND
                                    <= classes@[c as int].coefficients@[o as int]@[p as int]
                                    <= COEF_BOUND);
                                assert(false);
                            }
                        }
                        return Err(InstantiationError::SvmAttributesUnordered);
                    }
                    p = p + 1;
                }
                o = o + 1;
            }
            proof {
                assert(classes@[c as int].wf(n as int, num_attributes as int));
                assert(sv_total_prefix(classes@, c as int + 1) == sv_total_prefix(
                    classes@,
                    c as int,
                ) + classes@[c as int].spec_num_sv());
            }
            total = total + sv.rows();
            c = c + 1;
        }
        let padded_total = prefered_simd_size(total);
        proof {
            lemma_mul_bounds(n as int, padded_total as int, 0xffffffffffffffff, 0xffffffffffffffff);
        }
        if (n as u128) * (padded_total as u128) > (usize::MAX as u128) {
            return Err(InstantiationError::SvmAttributesUnordered);
        }
        Ok(
            SVM {
                num_total_sv: total,
                num_attributes,
                rho,
                probabilities,
                kernel,
                classes,
            },
        )
    }
}

/// Which coefficient row of class `a` speaks about opponent class `b`:
/// opponents keep class order, the own class is skipped.
pub open spec fn coef_slot(a: int, b: int) -> int {
    if b < a {
        b
    } else {
        b - 1
    }
}

/// Did class `c` win its pair against class `o`? The pair's decision value
/// is oriented towards the lower index: non-negative means the lower index
/// wins.
pub open spec fn wins(dv: Seq<i128>, n: int, c: int, o: int) -> bool {
    if c < o {
        dv[tri_index(n, c, o)] >= 0
    } else {
        dv[tri_index(n, o, c)] < 0
    }
}

/// Number of opponents with index below `m` beaten by class `c`.
pub open spec fn wins_upto(dv: Seq<i128>, n: int, c: int, m: int) -> int
    decreases m,
{
    if m <= 0 {
        0
    } else {
        wins_upto(dv, n, c, m - 1) + if m - 1 != c && wins(dv, n, c, m - 1) {
            1int
        } else {
            0int
        }
    }
}

/// Index of the first maximum among the first `m` entries.
pub open spec fn argmax_prefix(v: Seq<u32>, m: int) -> int
    decreases m,
{
    if m <= 1 {
        0
    } else {
        let w = argmax_prefix(v, m - 1);
        if v[m - 1] > v[w] {
            m - 1
        } else {
            w
        }
    }
}

/// Index of the first maximum of a vote vector.
pub open spec fn argmax(v: Seq<u32>) -> int {
    argmax_prefix(v, v.len() as int)
}

/// The first maximum is a maximum, and strictly above every entry before
/// it.
pub proof fn lemma_argmax_props(v: Seq<u32>, m: int)
    requires
        1 <= m <= v.len(),
    ensures
        0 <= argmax_prefix(v, m) < m,
        forall|c: int| 0 <= c < m ==> #[trigger] v[c] <= v[argmax_prefix(v, m)],
        forall|c: int| 0 <= c < argmax_prefix(v, m) ==> #[trigger] v[c] < v[argmax_prefix(v, m)],
    decreases m,
{
    if m > 1 {
        lemma_argmax_props(v, m - 1);
    }
}

impl<T: Kernel> SVM<T> {
    /// Similarity of the logical prefix of the input against support
    /// vector `p` of class `c`.
    pub open spec fn sim_of(self, f: Seq<i64>, c: int, p: int) -> int {
        self.kernel.sim(
            f.take(self.num_attributes as int),
            self.classes@[c].support_vectors.row_seq(p),
        )
    }

    /// Weighted kernel sum of class `a` against class `b` over the first
    /// `k` support vectors of class `a`.
    pub open spec fn pair_sum_prefix(self, f: Seq<i64>, a: int, b: int, k: int) -> int
        decreases k,
    {
        if k <= 0 {
            0
        } else {
            self.pair_sum_prefix(f, a, b, k - 1) + self.classes@[a].coefficients@[coef_slot(
                a,
                b,
            )]@[k - 1] * self.sim_of(f, a, k - 1)
        }
    }

    /// Weighted kernel sum of class `a` against class `b` over all support
    /// vectors of class `a`.
    pub open spec fn pair_sum(self, f: Seq<i64>, a: int, b: int) -> int {
        self.pair_sum_prefix(f, a, b, self.classes@[a].spec_num_sv())
    }

    /// Decision value of the pair `(i, j)`, `i < j`: the two signed
    /// weighted kernel sums minus the pair's threshold.
    pub open spec fn spec_dec(self, f: Seq<i64>, i: int, j: int) -> int {
        self.pair_sum(f, i, j) + self.pair_sum(f, j, i) - self.rho.pair_at(i, j)
    }

    /// Precondition of a prediction: the workspace matches the model's
    /// dimensions and the input entries are in bound.
    pub open spec fn predict_ok(self, p: Problem) -> bool {
        &&& p.shaped(self.num_total_sv as int, self.spec_num_classes(), self.num_attributes as int)
        &&& seq_bounded(p.features@, VALUE_BOUND as int)
    }

    /// Everything a prediction promises about the workspace afterwards:
    /// kernel values, decision values, votes and the label are all pinned
    /// as functions of the model and the input features.
    pub open spec fn predict_post(self, before: Problem, after: Problem) -> bool {
        let n = self.spec_num_classes();
        let f = before.features@;
        &&& after.features@ == before.features@
        &&& after.kernel_values.wf()
        &&& after.kernel_values.spec_rows() == n
        &&& after.kernel_values.spec_cols() == self.num_total_sv
        &&& forall|c: int, p: int|
            0 <= c < n && 0 <= p < self.classes@[c].spec_num_sv()
                ==> #[trigger] after.kernel_values.entry(c, p) == self.sim_of(f, c, p)
        &&& after.decision_values@.len() == tri_total(n)
        &&& forall|i: int, j: int|
            0 <= i < j < n ==> #[trigger] after.decision_values@[tri_index(n, i, j)] as int
                == self.spec_dec(f, i, j)
        &&& after.vote@.len() == n
        &&& forall|c: int|
            0 <= c < n ==> #[trigger] after.vote@[c] as int == wins_upto(
                after.decision_values@,
                n,
                c,
                n,
            )
        &&& after.label == self.classes@[argmax(after.vote@)].label
    }

    /// Fills every class's row of the kernel-value buffer with the
    /// similarities of the input against that class's support vectors.
    fn fill_kernel_values(&self, problem: &mut Problem)
        requires
            self.wf(),
            self.predict_ok(*old(problem)),
        ensures
            self.predict_ok(*final(problem)),
            final(problem).features == old(problem).features,
            final(problem).vote == old(problem).vote,
            final(problem).decision_values == old(problem).decision_values,
            final(problem).label == old(problem).label,
            forall|c: int, p: int|
                0 <= c < self.spec_num_classes() && 0 <= p < self.classes@[c].spec_num_sv()
                    ==> {
                    &&& #[trigger] final(problem).kernel_values.entry(c, p) == self.sim_of(
                        old(problem).features@,
                        c,
                        p,
                    )
                    &&& -KERNEL_BOUND <= final(problem).kernel_values.entry(c, p) <= KERNEL_BOUND
                },
    {
        let n = self.classes.len();
        let mut c: usize = 0;
        while c < n
            invariant
                self.wf(),
                n == self.spec_num_classes(),
                c <= n,
                self.predict_ok(*problem),
                problem.features == old(problem).features,
                problem.vote == old(problem).vote,
                problem.decision_values == old(problem).decision_values,
                problem.label == old(problem).label,
                forall|d: int, p: int|
                    0 <= d < c && 0 <= p < self.classes@[d].spec_num_sv() ==> {
                        &&& #[trigger] problem.kernel_values.entry(d, p) == self.sim_of(
                            old(problem).features@,
                            d,
                            p,
                        )
                        &&& -KERNEL_BOUND <= problem.kernel_values.entry(d, p) <= KERNEL_BOUND
                    },
            decreases n - c,
        {
            proof {
                self.lemma_class_sv_le_total(c as int);
                crate::util::lemma_padded_props(self.num_attributes as int);
                assert(self.classes@[c as int].wf(
                    self.spec_num_classes(),
                    self.num_attributes as int,
                ));
            }
            let class = &self.classes[c];
            self.kernel.compute(
                &problem.features,
                &class.support_vectors,
                &mut problem.kernel_values,
                c,
            );
            proof {
                crate::util::lemma_padded_props(problem.kernel_values.spec_cols());
                assert forall|d: int, p: int|
                    0 <= d < c + 1 && 0 <= p < self.classes@[d].spec_num_sv() implies {
                    &&& #[trigger] problem.kernel_values.entry(d, p) == self.sim_of(
                        old(problem).features@,
                        d,
                        p,
                    )
                    &&& -KERNEL_BOUND <= problem.kernel_values.entry(d, p) <= KERNEL_BOUND
                } by {
                    self.lemma_class_sv_le_total(d);
                    assert(self.classes@[d].wf(
                        self.spec_num_classes(),
                        self.num_attributes as int,
                    ));
                }
            }
            c = c + 1;
        }
    }

    /// Weighted kernel sum of class `a` against class `b`, read from the
    /// filled kernel-value buffer.
    fn pair_sum_exec(
        &self,
        kv: &crate::vectors::SimdOptimized<i64>,
        f: Ghost<Seq<i64>>,
        a: usize,
        b: usize,
    ) -> (r: i128)
        requires
            self.wf(),
            a < self.spec_num_classes(),
            b < self.spec_num_classes(),
            a != b,
            kv.wf(),
            kv.spec_rows() == self.spec_num_classes(),
            kv.spec_cols() == self.num_total_sv,
            forall|p: int|
                0 <= p < self.classes@[a as int].spec_num_sv() ==> {
                    &&& #[trigger] kv.entry(a as int, p) == self.sim_of(f@, a as int, p)
                    &&& -KERNEL_BOUND <= kv.entry(a as int, p) <= KERNEL_BOUND
                },
        ensures
            r as int == self.pair_sum(f@, a as int, b as int),
            -(SV_LIMIT as int) * (DEC_TERM_BOUND as int) <= r as int <= (SV_LIMIT as int) * (
            DEC_TERM_BOUND as int),
    {
        proof {
            self.lemma_class_sv_le_total(a as int);
            assert(self.classes@[a as int].wf(self.spec_num_classes(), self.num_attributes as int));
        }
        let slot: usize = if b < a {
            b
        } else {
            b - 1
        };
        let class = &self.classes[a];
        let n_sv = class.support_vectors.rows();
        let coefs = &class.coefficients[slot];
        let mut sum: i128 = 0;
        let mut p: usize = 0;
        while p < n_sv
            invariant
                self.wf(),
                a < self.spec_num_classes(),
                b < self.spec_num_classes(),
                a != b,
                kv.wf(),
                kv.spec_rows() == self.spec_num_classes(),
                kv.spec_cols() == self.num_total_sv,
                forall|q: int|
                    0 <= q < self.classes@[a as int].spec_num_sv() ==> {
                        &&& #[trigger] kv.entry(a as int, q) == self.sim_of(f@, a as int, q)
                        &&& -KERNEL_BOUND <= kv.entry(a as int, q) <= KERNEL_BOUND
                    },
                slot == coef_slot(a as int, b as int),
                coefs@ == self.classes@[a as int].coefficients@[slot as int]@,
                n_sv == self.classes@[a as int].spec_num_sv(),
                n_sv <= SV_LIMIT,
                p <= n_sv,
                sum as int == self.pair_sum_prefix(f@, a as int, b as int, p as int),
                -(p as int) * (DEC_TERM_BOUND as int) <= sum as int <= (p as int) * (
                DEC_TERM_BOUND as int),
            decreases n_sv - p,
        {
            proof {
                self.lemma_class_sv_le_total(a as int);
                assert(self.classes@[a as int].wf(
                    self.spec_num_classes(),
                    self.num_attributes as int,
                ));
            }
            let coef = coefs[p];
            let kvv = kv.get(a, p);
            proof {
                lemma_mul_bounds(coef as int, kvv as int, COEF_BOUND as int, KERNEL_BOUND as int);
                assert((COEF_BOUND as int) * (KERNEL_BOUND as int) == DEC_TERM_BOUND as int);
                assert(self.pair_sum_prefix(f@, a as int, b as int, p as int + 1)
                    == self.pair_sum_prefix(f@, a as int, b as int, p as int)
                    + self.classes@[a as int].coefficients@[coef_slot(a as int, b as int)]@[
                    p as int] * self.sim_of(f@, a as int, p as int));
            }
            sum = sum + (coef as i128) * (kvv as i128);
            p = p + 1;
        }
        sum
    }

    /// Computes every pair's decision value from the filled kernel rows.
    fn fill_decision_values(&self, problem: &mut Problem)
        requires
            self.wf(),
            self.predict_ok(*old(problem)),
            forall|c: int, p: int|
                0 <= c < self.spec_num_classes() && 0 <= p < self.classes@[c].spec_num_sv()
                    ==> {
                    &&& #[trigger] old(problem).kernel_values.entry(c, p) == self.sim_of(
                        old(problem).features@,
                        c,
                        p,
                    )
                    &&& -KERNEL_BOUND <= old(problem).kernel_values.entry(c, p) <= KERNEL_BOUND
                },
        ensures
            self.predict_ok(*final(problem)),
            final(problem).features == old(problem).features,
            final(problem).vote == old(problem).vote,
            final(problem).label == old(problem).label,
            final(problem).kernel_values == old(problem).kernel_values,
            final(problem).decision_values@.len() == old(problem).decision_values@.len(),
            forall|i: int, j: int|
                0 <= i < j < self.spec_num_classes()
                    ==> #[trigger] final(problem).decision_values@[tri_index(
                    self.spec_num_classes(),
                    i,
                    j,
                )] as int
                    == self.spec_dec(old(problem).features@, i, j),
    {
        let n = self.classes.len();
        let ghost f = problem.features@;
        let mut i: usize = 0;
        while i < n
            invariant
                self.wf(),
                self.predict_ok(*problem),
                n == self.spec_num_classes(),
                i <= n,
                f == old(problem).features@,
                problem.features == old(problem).features,
                problem.vote == old(problem).vote,
                problem.label == old(problem).label,
                problem.kernel_values == old(problem).kernel_values,
                problem.decision_values@.len() == old(problem).decision_values@.len(),
                forall|c: int, p: int|
                    0 <= c < n && 0 <= p < self.classes@[c].spec_num_sv() ==> {
                        &&& #[trigger] problem.kernel_values.entry(c, p) == self.sim_of(f, c, p)
                        &&& -KERNEL_BOUND <= problem.kernel_values.entry(c, p) <= KERNEL_BOUND
                    },
                forall|a: int, b: int|
                    0 <= a < b < n && a < i ==> #[trigger] problem.decision_values@[tri_index(
                        n as int,
                        a,
                        b,
                    )] as int == self.spec_dec(f, a, b),
            decreases n - i,
        {
            let mut j: usize = i + 1;
            while j < n
                invariant
                    self.wf(),
                    self.predict_ok(*problem),
                    n == self.spec_num_classes(),
                    i < n,
                    i < j <= n,
                    f == old(problem).features@,
                    problem.features == old(problem).features,
                    problem.vote == old(problem).vote,
                    problem.label == old(problem).label,
                    problem.kernel_values == old(problem).kernel_values,
                    problem.decision_values@.len() == old(problem).decision_values@.len(),
                    forall|c: int, p: int|
                        0 <= c < n && 0 <= p < self.classes@[c].spec_num_sv() ==> {
                            &&& #[trigger] problem.kernel_values.entry(c, p) == self.sim_of(
                                f,
                                c,
                                p,
                            )
                            &&& -KERNEL_BOUND <= problem.kernel_values.entry(c, p)
                                <= KERNEL_BOUND
                        },
                    forall|a: int, b: int|
                        0 <= a < b < n && (a < i || (a == i && b < j))
                            ==> #[trigger] problem.decision_values@[tri_index(n as int, a, b)]
                            as int == self.spec_dec(f, a, b),
                decreases n - j,
            {
                let si = self.pair_sum_exec(&problem.kernel_values, Ghost(f), i, j);
                let sj = self.pair_sum_exec(&problem.kernel_values, Ghost(f), j, i);
                let rv = self.rho.get(i, j);
                let dec = si + sj - (rv as i128);
                proof {
                    lemma_tri_index_bounds(n as int, i as int, j as int);
                }
                let off = tri_offset(n, i, j);
                problem.decision_values.set(off, dec);
                proof {
                    assert forall|a: int, b: int|
                        0 <= a < b < n && (a < i || (a == i && b < j + 1))
                            implies #[trigger] problem.decision_values@[tri_index(
                            n as int,
                            a,
                            b,
                        )] as int == self.spec_dec(f, a, b) by {
                        lemma_tri_index_bounds(n as int, a, b);
                        if a == i && b == j {
                        } else if tri_index(n as int, a, b) == tri_index(
                            n as int,
                            i as int,
                            j as int,
                        ) {
                            lemma_tri_index_injective(n as int, a, b, i as int, j as int);
                        }
                    }
                }
                j = j + 1;
            }
            i = i + 1;
        }
    }

    /// Counts, for every class, the pairs it won.
    fn tally_votes(&self, problem: &mut Problem)
        requires
            self.wf(),
            self.predict_ok(*old(problem)),
        ensures
            self.predict_ok(*final(problem)),
            final(problem).features == old(problem).features,
            final(problem).label == old(problem).label,
            final(problem).kernel_values == old(problem).kernel_values,
            final(problem).decision_values == old(problem).decision_values,
            final(problem).vote@.len() == old(problem).vote@.len(),
            forall|c: int|
                0 <= c < self.spec_num_classes() ==> #[trigger] final(problem).vote@[c] as int
                    == wins_upto(
                    old(problem).decision_values@,
                    self.spec_num_classes(),
                    c,
                    self.spec_num_classes(),
                ),
    {
        let n = self.classes.len();
        let mut c: usize = 0;
        while c < n
            invariant
                self.wf(),
                self.predict_ok(*problem),
                n == self.spec_num_classes(),
                c <= n,
                problem.features == old(problem).features,
                problem.label == old(problem).label,
                problem.kernel_values == old(problem).kernel_values,
                problem.decision_values == old(problem).decision_values,
                problem.vote@.len() == old(problem).vote@.len(),
                forall|d: int|
                    0 <= d < c ==> #[trigger] problem.vote@[d] as int == wins_upto(
                        problem.decision_values@,
                        n as int,
                        d,
                        n as int,
                    ),
            decreases n - c,
        {
            let mut cnt: u32 = 0;
            let mut o: usize = 0;
            while o < n
                invariant
                    self.wf(),
                    self.predict_ok(*problem),
                    n == self.spec_num_classes(),
                    c < n,
                    o <= n,
                    cnt <= o,
                    cnt as int == wins_upto(
                        problem.decision_values@,
                        n as int,
                        c as int,
                        o as int,
                    ),
                decreases n - o,
            {
                let ghost dv = problem.decision_values@;
                if o != c {
                    let won: bool;
                    if c < o {
                        proof {
                            lemma_tri_index_bounds(n as int, c as int, o as int);
                        }
                        let off = tri_offset(n, c, o);
                        won = problem.decision_values[off] >= 0;
                    } else {
                        proof {
                            lemma_tri_index_bounds(n as int, o as int, c as int);
                        }
                        let off = tri_offset(n, o, c);
                        won = problem.decision_values[off] < 0;
                    }
                    proof {
                        assert(won == wins(dv, n as int, c as int, o as int));
                    }
                    if won {
                        cnt = cnt + 1;
                    }
                }
                proof {
                    assert(wins_upto(dv, n as int, c as int, o as int + 1) == wins_upto(
                        dv,
                        n as int,
                        c as int,
                        o as int,
                    ) + if o as int != c as int && wins(dv, n as int, c as int, o as int) {
                        1int
                    } else {
                        0int
                    });
                }
                o = o + 1;
            }
            problem.vote.set(c, cnt);
            c = c + 1;
        }
    }

    /// Resolves the label: the class with the most votes, the lowest index
    /// winning ties.
    fn resolve_label(&self, problem: &mut Problem)
        requires
            self.wf(),
            self.predict_ok(*old(problem)),
        ensures
            self.predict_ok(*final(problem)),
            final(problem).features == old(problem).features,
            final(problem).kernel_values == old(problem).kernel_values,
            final(problem).decision_values == old(problem).decision_values,
            final(problem).vote == old(problem).vote,
            final(problem).label == self.classes@[argmax(old(problem).vote@)].label,
    {
        let n = self.classes.len();
        let mut best: usize = 0;
        let mut c: usize = 1;
        while c < n
            invariant
                self.wf(),
                self.predict_ok(*problem),
                n == self.spec_num_classes(),
                1 <= c <= n,
                best < c,
                *problem == *old(problem),
                best as int == argmax_prefix(problem.vote@, c as int),
            decreases n - c,
        {
            let ghost v = problem.vote@;
            proof {
                assert(argmax_prefix(v, c as int + 1) == {
                    let w = argmax_prefix(v, c as int);
                    if v[c as int] > v[w] {
                        c as int
                    } else {
                        w
                    }
                });
            }
            if problem.vote[c] > problem.vote[best] {
                best = c;
            }
            c = c + 1;
        }
        problem.label = self.classes[best].label;
    }

    /// Runs one prediction: kernel values, pairwise decision values, one
    /// vote per pair, and the winning class's label, all written into the
    /// workspace.
    fn predict_one(&self, problem: &mut Problem)
        requires
            self.wf(),
            self.predict_ok(*old(problem)),
        ensures
            self.predict_ok(*final(problem)),
            self.predict_post(*old(problem), *final(problem)),
    {
        self.fill_kernel_values(problem);
        self.fill_decision_values(problem);
        self.tally_votes(problem);
        self.resolve_label(problem);
        proof {
            lemma_argmax_props(problem.vote@, self.spec_num_classes());
        }
    }
}

/// Sum of the first `m` vote counters.
pub open spec fn sum_votes_prefix(v: Seq<u32>, m: int) -> int
    decreases m,
{
    if m <= 0 {
        0
    } else {
        sum_votes_prefix(v, m - 1) + v[m - 1]
    }
}

/// Sum over the first `k` classes of the opponents below `m` they beat.
pub open spec fn cross_prefix(dv: Seq<i128>, n: int, k: int, m: int) -> int
    decreases k,
{
    if k <= 0 {
        0
    } else {
        cross_prefix(dv, n, k - 1, m) + wins_upto(dv, n, k - 1, m)
    }
}

/// Number of classes below `k` that beat class `m`.
pub open spec fn losses_upto(dv: Seq<i128>, n: int, m: int, k: int) -> int
    decreases k,
{
    if k <= 0 {
        0
    } else {
        losses_upto(dv, n, m, k - 1) + if k - 1 != m && wins(dv, n, k - 1, m) {
            1int
        } else {
            0int
        }
    }
}

/// Widening the opponent range of every class by one opponent `m` adds one
/// win for each class that beats `m`.
proof fn lemma_cross_extend(dv: Seq<i128>, n: int, k: int, m: int)
    requires
        0 <= k,
        0 <= m,
    ensures
        cross_prefix(dv, n, k, m + 1) == cross_prefix(dv, n, k, m) + losses_upto(dv, n, m, k),
    decreases k,
{
    if k > 0 {
        lemma_cross_extend(dv, n, k - 1, m);
        assert(wins_upto(dv, n, k - 1, m + 1) == wins_upto(dv, n, k - 1, m) + if m != k - 1
            && wins(dv, n, k - 1, m) {
            1int
        } else {
            0int
        });
    }
}

/// Each pair between `m` and a class below `k <= m` has exactly one
/// winner.
proof fn lemma_win_loss_split(dv: Seq<i128>, n: int, m: int, k: int)
    requires
        0 <= k <= m,
    ensures
        losses_upto(dv, n, m, k) + wins_upto(dv, n, m, k) == k,
    decreases k,
{
    if k > 0 {
        lemma_win_loss_split(dv, n, m, k - 1);
    }
}

/// Taking class `m` into the square adds its `m` pairs.
proof fn lemma_cross_square_step(dv: Seq<i128>, n: int, m: int)
    requires
        0 <= m,
    ensures
        cross_prefix(dv, n, m + 1, m + 1) == cross_prefix(dv, n, m, m) + m,
{
    lemma_cross_extend(dv, n, m, m);
    lemma_win_loss_split(dv, n, m, m);
    assert(cross_prefix(dv, n, m + 1, m + 1) == cross_prefix(dv, n, m, m + 1) + wins_upto(
        dv,
        n,
        m,
        m + 1,
    ));
    assert(wins_upto(dv, n, m, m + 1) == wins_upto(dv, n, m, m));
}

/// All pair wins among the first `m` classes total the number of their
/// pairs.
proof fn lemma_cross_total(dv: Seq<i128>, n: int, m: int)
    requires
        0 <= m,
    ensures
        cross_prefix(dv, n, m, m) == tri_total(m),
    decreases m,
{
    if m > 0 {
        lemma_cross_total(dv, n, m - 1);
        lemma_cross_square_step(dv, n, m - 1);
        lemma_tri_total_step(m);
    }
}

/// The vote sum matches the win sum, class by class.
proof fn lemma_sum_matches(dv: Seq<i128>, v: Seq<u32>, n: int, k: int)
    requires
        0 <= k <= n == v.len(),
        forall|c: int| 0 <= c < n ==> #[trigger] v[c] as int == wins_upto(dv, n, c, n),
    ensures
        sum_votes_prefix(v, k) == cross_prefix(dv, n, k, n),
    decreases k,
{
    if k > 0 {
        lemma_sum_matches(dv, v, n, k - 1);
    }
}

/// Law: every class pair casts exactly one vote, so the vote counters sum
/// to `n * (n - 1) / 2` for `n` classes.
pub proof fn lemma_vote_total(dv: Seq<i128>, v: Seq<u32>, n: int)
    requires
        0 <= n == v.len(),
        forall|c: int| 0 <= c < n ==> #[trigger] v[c] as int == wins_upto(dv, n, c, n),
    ensures
        sum_votes_prefix(v, n) == n * (n - 1) / 2,
{
    lemma_sum_matches(dv, v, n, n);
    lemma_cross_total(dv, n, n);
    lemma_tri_total_closed(n);
}

/// Law: after a prediction, the vote counters sum to one vote per class
/// pair, `n * (n - 1) / 2` in all.
pub proof fn lemma_predict_vote_total<T: Kernel>(svm: SVM<T>, before: Problem, after: Problem)
    requires
        svm.wf(),
        svm.predict_post(before, after),
    ensures
        sum_votes_prefix(after.vote@, svm.spec_num_classes()) == svm.spec_num_classes() * (
        svm.spec_num_classes() - 1) / 2,
{
    lemma_vote_total(after.decision_values@, after.vote@, svm.spec_num_classes());
}

/// Law: the resulting label belongs to the winning class: a valid index
/// whose vote count no class beats, and which no earlier class ties.
pub proof fn lemma_predict_label_valid<T: Kernel>(svm: SVM<T>, before: Problem, after: Problem)
    requires
        svm.wf(),
        svm.predict_post(before, after),
    ensures
        0 <= argmax(after.vote@) < svm.spec_num_classes(),
        after.label == svm.classes@[argmax(after.vote@)].label,
        forall|c: int|
            0 <= c < svm.spec_num_classes() ==> #[trigger] after.vote@[c] <= after.vote@[argmax(
                after.vote@,
            )],
        forall|c: int|
            0 <= c < argmax(after.vote@) ==> #[trigger] after.vote@[c] < after.vote@[argmax(
                after.vote@,
            )],
{
    lemma_argmax_props(after.vote@, svm.spec_num_classes());
}

/// The win count reads the decision values only at pair slots, so two
/// value vectors that agree there count alike.
proof fn lemma_wins_upto_congruent(dv1: Seq<i128>, dv2: Seq<i128>, n: int, c: int, m: int)
    requires
        forall|a: int, b: int|
            0 <= a < b < n ==> #[trigger] dv1[tri_index(n, a, b)] == dv2[tri_index(n, a, b)],
        0 <= c < n,
        0 <= m <= n,
    ensures
        wins_upto(dv1, n, c, m) == wins_upto(dv2, n, c, m),
    decreases m,
{
    if m > 0 {
        lemma_wins_upto_congruent(dv1, dv2, n, c, m - 1);
        if m - 1 != c {
            if c < m - 1 {
                assert(dv1[tri_index(n, c, m - 1)] == dv2[tri_index(n, c, m - 1)]);
            } else {
                assert(dv1[tri_index(n, m - 1, c)] == dv2[tri_index(n, m - 1, c)]);
            }
        }
    }
}

/// Law: a prediction is a pure function of the model and the input
/// features. Two runs over equal features end with equal decision values
/// on every pair, equal votes, and an equal label.
pub proof fn lemma_predict_deterministic<T: Kernel>(
    svm: SVM<T>,
    before1: Problem,
    after1: Problem,
    before2: Problem,
    after2: Problem,
)
    requires
        svm.wf(),
        svm.predict_post(before1, after1),
        svm.predict_post(before2, after2),
        before1.features@ == before2.features@,
    ensures
        forall|i: int, j: int|
            0 <= i < j < svm.spec_num_classes() ==> #[trigger] after1.decision_values@[tri_index(
                svm.spec_num_classes(),
                i,
                j,
            )] == after2.decision_values@[tri_index(svm.spec_num_classes(), i, j)],
        after1.vote@ == after2.vote@,
        after1.label == after2.label,
{
    let n = svm.spec_num_classes();
    let dv1 = after1.decision_values@;
    let dv2 = after2.decision_values@;
    assert forall|i: int, j: int| 0 <= i < j < n implies #[trigger] dv1[tri_index(n, i, j)]
        == dv2[tri_index(n, i, j)] by {
        assert(dv1[tri_index(n, i, j)] as int == svm.spec_dec(before1.features@, i, j));
        assert(dv2[tri_index(n, i, j)] as int == svm.spec_dec(before2.features@, i, j));
    }
    assert forall|c: int| 0 <= c < n implies #[trigger] after1.vote@[c] == after2.vote@[c] by {
        lemma_wins_upto_congruent(dv1, dv2, n, c, n);
    }
    assert(after1.vote@ =~= after2.vote@);
}

/// Batch dispatch of single-value predictions across workers.
///
/// Relies on rayon's `par_iter_mut().for_each(op)`: the parallel iterator
/// yields exactly the elements of the vector, each element exactly once and
/// to exactly one worker, and `for_each` runs `op` once on each element;
/// the vector's length does not change. Each element is therefore rewritten
/// by one independent call of the verified single prediction.
#[verifier::external_body]
fn par_predict_values<T: Kernel + Send + Sync>(svm: &SVM<T>, problems: &mut Vec<Problem>)
    requires
        svm.wf(),
        forall|k: int|
            0 <= k < old(problems)@.len() ==> svm.predict_ok(#[trigger] old(problems)@[k]),
    ensures
        final(problems)@.len() == old(problems)@.len(),
        forall|k: int|
            0 <= k < old(problems)@.len() ==> svm.predict_post(
                old(problems)@[k],
                #[trigger] final(problems)@[k],
            ),
{
    problems.par_iter_mut().for_each(|problem| svm.predict_one(problem));
}

/// Predicting problems against a trained model.
pub trait PredictProblem: Sized {
    /// Does this predictor accept the problem: the workspace fits and the
    /// input is usable.
    spec fn accepts(&self, p: Problem) -> bool;

    /// What one prediction writes into the workspace.
    spec fn prediction(&self, before: Problem, after: Problem) -> bool;

    /// Predict a single value for a problem.
    fn predict_value(&self, problem: &mut Problem)
        requires
            self.accepts(*old(problem)),
        ensures
            self.accepts(*final(problem)),
            self.prediction(*old(problem), *final(problem)),
    ;

    /// Predicts all values for a set of problems, in parallel: each
    /// problem is rewritten independently, exactly as `predict_value`
    /// rewrites it.
    fn predict_values(&self, problems: &mut Vec<Problem>)
        requires
            forall|k: int|
                0 <= k < old(problems)@.len() ==> self.accepts(#[trigger] old(problems)@[k]),
        ensures
            final(problems)@.len() == old(problems)@.len(),
            forall|k: int|
                0 <= k < old(problems)@.len() ==> self.prediction(
                    old(problems)@[k],
                    #[trigger] final(problems)@[k],
                ),
    ;
}

impl<T: Kernel + Send + Sync> PredictProblem for SVM<T> {
    open spec fn accepts(&self, p: Problem) -> bool {
        self.wf() && self.predict_ok(p)
    }

    open spec fn prediction(&self, before: Problem, after: Problem) -> bool {
        self.predict_post(before, after)
    }

    fn predict_value(&self, problem: &mut Problem) {
        self.predict_one(problem);
    }

    fn predict_values(&self, problems: &mut Vec<Problem>) {
        if problems.len() > 0 {
            proof {
                assert(self.accepts(problems@[0]));
            }
            par_predict_values(self, problems);
        }
    }
}

} // verus!
