//! The per-inference workspace: feature vector, kernel-value buffer, votes,
//! decision values and the result label, sized once for a model shape and
//! reused destructively across predictions.

use vstd::prelude::*;

use crate::kernel::Kernel;
use crate::svm::SVM;
use crate::util::{filled_vec, prefered_simd_size, spec_padded, ATTR_LIMIT, CLASS_LIMIT, SV_LIMIT};
use crate::vectors::{tri_slots, tri_total, SimdOptimized};

verus! {

/// A single problem to classify against a model of matching dimensions.
#[derive(Clone, Debug)]
pub struct Problem {
    /// The input, padded to the vector width; padding entries stay zero.
    pub features: Vec<i64>,
    /// One row of kernel values per class, one column per support vector.
    pub kernel_values: SimdOptimized<i64>,
    /// One vote counter per class.
    pub vote: Vec<u32>,
    /// One decision value per unordered class pair.
    pub decision_values: Vec<i128>,
    /// The computed label; 0 until a prediction sets it.
    pub label: u32,
}

impl Problem {
    /// Dimensional compatibility with a model shape.
    pub open spec fn shaped(self, total_sv: int, num_classes: int, num_attributes: int) -> bool {
        &&& self.features@.len() == spec_padded(num_attributes)
        &&& self.kernel_values.wf()
        &&& self.kernel_values.spec_rows() == num_classes
        &&& self.kernel_values.spec_cols() == total_sv
        &&& self.vote@.len() == num_classes
        &&& self.decision_values@.len() == tri_total(num_classes)
    }

    /// Creates a zeroed problem for the given dimensions, with the feature
    /// row and the kernel-value rows padded to the vector width.
    pub fn with_dimension(total_sv: usize, num_classes: usize, num_attributes: usize) -> (r:
        Problem)
        requires
            1 <= num_classes <= CLASS_LIMIT,
            total_sv <= SV_LIMIT,
            num_attributes <= ATTR_LIMIT,
            num_classes * spec_padded(total_sv as int) <= usize::MAX,
        ensures
            r.shaped(total_sv as int, num_classes as int, num_attributes as int),
            forall|k: int| 0 <= k < r.features@.len() ==> r.features@[k] == 0,
            forall|a: int, b: int|
                0 <= a < num_classes && 0 <= b < r.kernel_values.spec_padded_cols()
                    ==> r.kernel_values.entry(a, b) == 0,
            forall|c: int| 0 <= c < num_classes ==> r.vote@[c] == 0,
            forall|k: int| 0 <= k < r.decision_values@.len() ==> r.decision_values@[k] == 0,
            r.label == 0,
    {
        let num_decision_values = tri_slots(num_classes);
        let preferred_attributes = prefered_simd_size(num_attributes);
        Problem {
            features: filled_vec(preferred_attributes, 0i64),
            kernel_values: SimdOptimized::with_dimension(num_classes, total_sv, 0i64),
            decision_values: filled_vec(num_decision_values, 0i128),
            vote: filled_vec(num_classes, 0u32),
            label: 0,
        }
    }

    /// Creates a zeroed problem matching the dimensions of the given model.
    pub fn from_svm<T: Kernel>(svm: &SVM<T>) -> (r: Problem)
        requires
            svm.wf(),
        ensures
            r.shaped(
                svm.num_total_sv as int,
                svm.spec_num_classes(),
                svm.num_attributes as int,
            ),
            forall|k: int| 0 <= k < r.features@.len() ==> r.features@[k] == 0,
            forall|a: int, b: int|
                0 <= a < svm.spec_num_classes() && 0 <= b < r.kernel_values.spec_padded_cols()
                    ==> r.kernel_values.entry(a, b) == 0,
            forall|c: int| 0 <= c < svm.spec_num_classes() ==> r.vote@[c] == 0,
            forall|k: int| 0 <= k < r.decision_values@.len() ==> r.decision_values@[k] == 0,
            r.label == 0,
    {
        Problem::with_dimension(svm.num_total_sv, svm.classes.len(), svm.num_attributes)
    }
}

} // verus!
