use ffsvm::{Class, IndexOutOfRange, InstantiationError, Kernel, LinearKernel, PredictProblem,
    Probabilities, Problem, SimdOptimized, Triangular, SVM};

/// Fixed-point scale used by the tests: 4096 units stand for 1.0.
const SCALE: i64 = 4096;
const SCALE_F: f64 = 4096.0;

/// A radial-basis-function kernel over the fixed-point scalars, computed in
/// floating point and scaled back.
struct RbfKernel {
    gamma: f64,
}

impl Kernel for RbfKernel {
    fn compute(
        &self,
        features: &Vec<i64>,
        svs: &SimdOptimized<i64>,
        out: &mut SimdOptimized<i64>,
        row: usize,
    ) {
        let mut p: usize = 0;
        while p < svs.rows() {
            let mut d2: f64 = 0.0;
            let mut k: usize = 0;
            while k < svs.cols() {
                let d: f64 = ((features[k] - svs.get(p, k)) as f64) / SCALE_F;
                d2 += d * d;
                k += 1;
            }
            let sim: f64 = (-self.gamma * d2).exp();
            out.set(row, p, (sim * SCALE_F) as i64);
            p += 1;
        }
    }
}

fn matrix(rows: &[Vec<i64>], cols: usize) -> SimdOptimized<i64> {
    let mut m = SimdOptimized::with_dimension(rows.len(), cols, 0i64);
    let mut r: usize = 0;
    while r < rows.len() {
        let mut c: usize = 0;
        while c < rows[r].len() {
            m.set(r, c, rows[r][c]);
            c += 1;
        }
        r += 1;
    }
    m
}

fn set_features(problem: &mut Problem, values: &[i64]) {
    let mut k: usize = 0;
    while k < values.len() {
        problem.features[k] = values[k];
        k += 1;
    }
}

/// A two-class RBF model, one support vector per class, rho = 0,
/// coefficients +1 / -1 at the fixed-point scale.
fn two_class_rbf_model() -> SVM<RbfKernel> {
    let class0 = Class {
        label: 7,
        support_vectors: matrix(&[vec![SCALE, 0]], 2),
        coefficients: vec![vec![SCALE]],
    };
    let class1 = Class {
        label: 9,
        support_vectors: matrix(&[vec![0, SCALE]], 2),
        coefficients: vec![vec![-SCALE]],
    };
    let rho = Triangular::new(2, 0i64);
    SVM::new(2, rho, None, RbfKernel { gamma: 0.5 }, vec![class0, class1]).unwrap()
}

/// A three-class model with no support vectors whose thresholds force one
/// win per class: an all-tied vote.
fn three_class_tied_model() -> SVM<LinearKernel> {
    let no_vectors: Vec<Vec<i64>> = Vec::new();
    let mut classes: Vec<Class> = Vec::new();
    let mut i: usize = 0;
    while i < 3 {
        classes.push(Class {
            label: (10 + i) as u32,
            support_vectors: matrix(&no_vectors, 1),
            coefficients: vec![Vec::new(), Vec::new()],
        });
        i += 1;
    }
    let mut rho = Triangular::new(3, 0i64);
    rho.set(0, 1, -1); // decision 0 vs 1 is +1: class 0 wins
    rho.set(1, 2, -1); // decision 1 vs 2 is +1: class 1 wins
    rho.set(0, 2, 1); // decision 0 vs 2 is -1: class 2 wins
    SVM::new(1, rho, None, LinearKernel, classes).unwrap()
}

#[test]
fn triangular_set_get_symmetric() {
    let mut t = Triangular::new(4, 0i64);
    t.set(1, 3, 42);
    assert_eq!(t.get(1, 3), 42);
    assert_eq!(t.get(3, 1), 42);
    t.set(3, 1, -7);
    assert_eq!(t.get(1, 3), -7);
    assert_eq!(t.get(0, 1), 0);
    assert_eq!(t.data.len(), 6);
}

#[test]
fn triangular_out_of_range() {
    let mut t = Triangular::new(3, 0i64);
    assert!(matches!(t.try_get(0, 0), Err(IndexOutOfRange)));
    assert!(t.try_get(0, 3).is_err());
    assert!(t.try_set(5, 1, 9).is_err());
    assert!(t.try_set(0, 2, 5).is_ok());
    assert_eq!(t.try_get(2, 0).unwrap(), 5);
}

#[test]
fn padding_rounds_up() {
    assert_eq!(ffsvm::util::prefered_simd_size(0), 0);
    assert_eq!(ffsvm::util::prefered_simd_size(5), 8);
    assert_eq!(ffsvm::util::prefered_simd_size(8), 8);
    assert_eq!(ffsvm::util::prefered_simd_size(9), 16);
    let m = SimdOptimized::with_dimension(2, 5, 0i64);
    assert_eq!(m.rows(), 2);
    assert_eq!(m.cols(), 5);
    assert_eq!(m.padded_cols(), 8);
    let p = Problem::with_dimension(2, 2, 5);
    assert_eq!(p.features.len(), 8);
    assert_eq!(p.decision_values.len(), 1);
    assert_eq!(p.vote.len(), 2);
    assert_eq!(p.label, 0);
}

#[test]
fn linear_kernel_dot_product() {
    let svs = matrix(&[vec![2, 3], vec![-1, 4]], 2);
    let features: Vec<i64> = vec![4, 5];
    let mut out = SimdOptimized::with_dimension(1, 2, 0i64);
    LinearKernel.compute(&features, &svs, &mut out, 0);
    assert_eq!(out.get(0, 0), 23);
    assert_eq!(out.get(0, 1), 16);
}

#[test]
fn two_class_rbf_scenario() {
    let svm = two_class_rbf_model();
    let mut problem = Problem::from_svm(&svm);
    set_features(&mut problem, &[SCALE, 0]);
    svm.predict_value(&mut problem);
    // The input equals class 0's support vector: its pair decision must be
    // strictly positive and the label must be class 0's.
    assert!(problem.decision_values[0] > 0);
    assert_eq!(problem.label, 7);
}

#[test]
fn tie_break_picks_lowest_index() {
    let svm = three_class_tied_model();
    let mut problem = Problem::from_svm(&svm);
    svm.predict_value(&mut problem);
    assert_eq!(problem.vote, vec![1u32, 1, 1]);
    assert_eq!(problem.label, 10);
}

#[test]
fn vote_total_is_pair_count() {
    let svm = three_class_tied_model();
    let mut problem = Problem::from_svm(&svm);
    svm.predict_value(&mut problem);
    let mut sum: u32 = 0;
    let mut c: usize = 0;
    while c < problem.vote.len() {
        sum += problem.vote[c];
        c += 1;
    }
    assert_eq!(sum, 3); // 3 * (3 - 1) / 2
}

#[test]
fn label_is_a_class_label() {
    let svm = two_class_rbf_model();
    let mut problem = Problem::from_svm(&svm);
    set_features(&mut problem, &[100, -3000]);
    svm.predict_value(&mut problem);
    assert!(problem.label == 7 || problem.label == 9);
}

#[test]
fn prediction_is_deterministic() {
    let svm = two_class_rbf_model();
    let mut p1 = Problem::from_svm(&svm);
    let mut p2 = Problem::from_svm(&svm);
    set_features(&mut p1, &[123, 456]);
    set_features(&mut p2, &[123, 456]);
    svm.predict_value(&mut p1);
    svm.predict_value(&mut p2);
    assert_eq!(p1.decision_values, p2.decision_values);
    assert_eq!(p1.vote, p2.vote);
    assert_eq!(p1.label, p2.label);
}

#[test]
fn batch_matches_single_prediction() {
    let svm = two_class_rbf_model();
    let mut single = Problem::from_svm(&svm);
    set_features(&mut single, &[SCALE, 0]);
    svm.predict_value(&mut single);

    let mut problems: Vec<Problem> = Vec::new();
    let mut i: usize = 0;
    while i < 100 {
        let mut p = Problem::from_svm(&svm);
        set_features(&mut p, &[SCALE, 0]);
        problems.push(p);
        i += 1;
    }
    svm.predict_values(&mut problems);
    assert_eq!(problems.len(), 100);
    let mut k: usize = 0;
    while k < problems.len() {
        assert_eq!(problems[k].label, single.label);
        assert_eq!(problems[k].label, 7);
        assert_eq!(problems[k].decision_values, single.decision_values);
        k += 1;
    }
}

#[test]
fn class_index_lookup() {
    let svm = three_class_tied_model();
    assert_eq!(svm.class_index_for_label(10), Some(0));
    assert_eq!(svm.class_index_for_label(12), Some(2));
    assert_eq!(svm.class_index_for_label(99), None);
}

#[test]
fn model_construction_accepts_probabilities() {
    let class0 = Class {
        label: 1,
        support_vectors: matrix(&[vec![1, 2]], 2),
        coefficients: vec![vec![10]],
    };
    let class1 = Class {
        label: 2,
        support_vectors: matrix(&[vec![3, 4]], 2),
        coefficients: vec![vec![-10]],
    };
    let probabilities = Probabilities { a: Triangular::new(2, 0i64), b: Triangular::new(2, 0i64) };
    let svm = SVM::new(
        2,
        Triangular::new(2, 0i64),
        Some(probabilities),
        LinearKernel,
        vec![class0, class1],
    )
        .unwrap();
    assert_eq!(svm.num_total_sv, 2);
    assert!(svm.probabilities.is_some());
}

#[test]
fn model_construction_rejects_bad_parts() {
    // A support-vector matrix whose width does not cover the stated
    // attribute space.
    let class0 = Class {
        label: 1,
        support_vectors: matrix(&[vec![1]], 1),
        coefficients: vec![vec![10]],
    };
    let class1 = Class {
        label: 2,
        support_vectors: matrix(&[vec![3, 4]], 2),
        coefficients: vec![vec![-10]],
    };
    let r = SVM::new(2, Triangular::new(2, 0i64), None, LinearKernel, vec![class0, class1]);
    assert!(matches!(r, Err(InstantiationError::SvmAttributesUnordered)));

    // No classes at all.
    let r2 = SVM::new(2, Triangular::new(0, 0i64), None, LinearKernel, Vec::new());
    assert!(matches!(r2, Err(InstantiationError::SvmAttributesUnordered)));

    // A threshold matrix of the wrong dimension.
    let class2 = Class {
        label: 1,
        support_vectors: matrix(&[vec![1, 2]], 2),
        coefficients: vec![vec![10]],
    };
    let class3 = Class {
        label: 2,
        support_vectors: matrix(&[vec![3, 4]], 2),
        coefficients: vec![vec![-10]],
    };
    let r3 = SVM::new(2, Triangular::new(3, 0i64), None, LinearKernel, vec![class2, class3]);
    assert!(matches!(r3, Err(InstantiationError::SvmAttributesUnordered)));
}

#[test]
fn workspace_reuse_overwrites_state() {
    let svm = two_class_rbf_model();
    let mut problem = Problem::from_svm(&svm);
    set_features(&mut problem, &[SCALE, 0]);
    svm.predict_value(&mut problem);
    assert_eq!(problem.label, 7);
    set_features(&mut problem, &[0, SCALE]);
    svm.predict_value(&mut problem);
    assert_eq!(problem.label, 9);
}
