// Gate and state scenarios run with double-precision complex amplitudes.
use ternary_quantum::entangle::is_entangled;
use ternary_quantum::gates::{cnot_gate, h_gate, pauli_x, qft_single, qft_two, x2_gate, x_gate, z_gate};
use ternary_quantum::matrix::Matrix3;
use ternary_quantum::state::{bell_state_0, bell_state_1, Qutrit, TwoQutrit};

#[derive(Clone, Copy, Debug, PartialEq)]
struct C {
    re: f64,
    im: f64,
}

const ZERO: C = C { re: 0.0, im: 0.0 };
const ONE: C = C { re: 1.0, im: 0.0 };

fn add(a: C, b: C) -> C {
    C { re: a.re + b.re, im: a.im + b.im }
}

fn sub(a: C, b: C) -> C {
    C { re: a.re - b.re, im: a.im - b.im }
}

fn mul(a: C, b: C) -> C {
    C { re: a.re * b.re - a.im * b.im, im: a.re * b.im + a.im * b.re }
}

fn norm_sq(a: C) -> f64 {
    a.re * a.re + a.im * a.im
}

fn plus_r(a: f64, b: f64) -> f64 {
    a + b
}

fn significant(d: C) -> bool {
    norm_sq(d) > 1e-10
}

fn omega() -> C {
    C { re: -0.5, im: (3.0_f64).sqrt() / 2.0 }
}

fn inv_sqrt3() -> C {
    C { re: 1.0 / 3.0_f64.sqrt(), im: 0.0 }
}

fn approx_eq(a: f64, b: f64) -> bool {
    (a - b).abs() < 1e-9
}

fn h() -> Matrix3<C> {
    h_gate(inv_sqrt3(), omega(), &mul)
}

fn basis(k: u8) -> Qutrit<C> {
    Qutrit::new(k, ZERO, ONE)
}

fn total3(q: &Qutrit<C>) -> f64 {
    q.total_probability(0.0, &plus_r, &norm_sq)
}

fn total9(q: &TwoQutrit<C>) -> f64 {
    q.total_probability(0.0, &plus_r, &norm_sq)
}

#[test]
fn test_matrix_identity() {
    let id = Matrix3::identity(ZERO, ONE);
    let state = [ONE, ZERO, ZERO];
    let result = id.apply(&state, ZERO, &add, &mul);
    assert!(approx_eq(norm_sq(result[0]), 1.0));
}

#[test]
fn test_x_gate() {
    let x = x_gate(ZERO, ONE);
    let mut state = [ONE, ZERO, ZERO];
    state = x.apply(&state, ZERO, &add, &mul);
    assert!(approx_eq(norm_sq(state[1]), 1.0)); // |0> -> |1>
    state = x.apply(&state, ZERO, &add, &mul);
    assert!(approx_eq(norm_sq(state[2]), 1.0)); // |1> -> |2>
    state = x.apply(&state, ZERO, &add, &mul);
    assert!(approx_eq(norm_sq(state[0]), 1.0)); // |2> -> |0>
}

#[test]
fn test_z_gate_phase() {
    let z = z_gate(ZERO, ONE, omega(), &mul);
    let state = [ZERO, ONE, ZERO];
    let result = z.apply(&state, ZERO, &add, &mul);
    // Z|1> = omega|1>
    assert!(approx_eq(norm_sq(result[1]), 1.0));
    assert!(result[1].re < 0.0); // omega has negative real part
}

#[test]
fn test_qutrit_basis() {
    let q = basis(0);
    assert!(approx_eq(q.probability(0, &norm_sq), 1.0));
    assert!(approx_eq(q.probability(1, &norm_sq), 0.0));
    assert!(approx_eq(total3(&q), 1.0));
}

#[test]
fn test_qutrit_uniform() {
    let q = Qutrit::uniform(inv_sqrt3());
    assert!(approx_eq(q.probability(0, &norm_sq), 1.0 / 3.0));
    assert!(approx_eq(total3(&q), 1.0));
}

#[test]
fn test_qutrit_apply_x() {
    let mut q = basis(0);
    q.apply(&x_gate(ZERO, ONE), ZERO, &add, &mul);
    assert!(approx_eq(q.probability(1, &norm_sq), 1.0));
}

#[test]
fn test_qutrit_apply_h() {
    let mut q = basis(0);
    q.apply(&h(), ZERO, &add, &mul);
    assert!(approx_eq(total3(&q), 1.0));
    // All probabilities should be 1/3
    for k in 0..3u8 {
        assert!(approx_eq(q.probability(k, &norm_sq), 1.0 / 3.0));
    }
}

#[test]
fn test_two_qutrit_product() {
    let a = basis(0);
    let b = basis(1);
    let ab = TwoQutrit::from_qutrits(&a, &b, ZERO, &mul);
    assert!(approx_eq(total9(&ab), 1.0));
    assert!(approx_eq(ab.probability(1, &norm_sq), 1.0)); // |01> = index 1
}

#[test]
fn test_bell_state_0() {
    let bell = bell_state_0(ZERO, inv_sqrt3());
    assert!(approx_eq(total9(&bell), 1.0));
    assert!(approx_eq(bell.probability(0, &norm_sq), 1.0 / 3.0)); // |00>
    assert!(approx_eq(bell.probability(4, &norm_sq), 1.0 / 3.0)); // |11>
    assert!(approx_eq(bell.probability(8, &norm_sq), 1.0 / 3.0)); // |22>
}

#[test]
fn test_bell_state_entangled() {
    let bell = bell_state_0(ZERO, inv_sqrt3());
    assert!(is_entangled(&bell, &sub, &mul, &significant));
}

#[test]
fn test_product_state_not_entangled() {
    let a = basis(0);
    let b = basis(1);
    let ab = TwoQutrit::from_qutrits(&a, &b, ZERO, &mul);
    assert!(!is_entangled(&ab, &sub, &mul, &significant));
}

#[test]
fn test_cnot_gate() {
    let mut state = TwoQutrit::from_qutrits(&basis(0), &basis(1), ZERO, &mul);
    state.apply(&cnot_gate(ZERO, ONE), ZERO, &add, &mul);
    // |0,1> -> |0, (0+1)%3> = |0,1>
    assert!(approx_eq(state.probability(1, &norm_sq), 1.0));
}

#[test]
fn test_cnot_gate_entangle() {
    let mut q = basis(0);
    q.apply(&h(), ZERO, &add, &mul); // superposition
    let mut two = TwoQutrit::from_qutrits(&q, &basis(0), ZERO, &mul);
    two.apply(&cnot_gate(ZERO, ONE), ZERO, &add, &mul);
    assert!(is_entangled(&two, &sub, &mul, &significant));
}

#[test]
fn test_pauli_x_squared() {
    let x = pauli_x(ZERO, ONE);
    let x2 = x.mul(&x, ZERO, &add, &mul);
    let x3 = x2.mul(&x, ZERO, &add, &mul);
    // X^3 = I
    for i in 0..3 {
        for j in 0..3 {
            let expected = if i == j { ONE } else { ZERO };
            assert!(approx_eq(norm_sq(sub(x3.data[i][j], expected)), 0.0));
        }
    }
}

#[test]
fn test_qft_preserves_probability() {
    let mut q = basis(1);
    q.apply(&qft_single(inv_sqrt3(), omega(), &mul), ZERO, &add, &mul);
    assert!(approx_eq(total3(&q), 1.0));
}

#[test]
fn test_qft_two_preserves_probability() {
    let two = TwoQutrit::from_qutrits(&basis(0), &basis(1), ZERO, &mul);
    let qft = qft_two(ZERO, ONE, omega(), C { re: 1.0 / 3.0, im: 0.0 }, &mul);
    let mut state = [ZERO; 9];
    for i in 0..9 {
        for j in 0..9 {
            state[i] = add(state[i], mul(qft[i][j], two.state[j]));
        }
    }
    let total: f64 = state.iter().map(|c| norm_sq(*c)).sum();
    assert!(approx_eq(total, 1.0));
}

#[test]
fn test_x2_gate() {
    let x2 = x2_gate(ZERO, ONE, &add, &mul);
    let state = [ONE, ZERO, ZERO];
    let result = x2.apply(&state, ZERO, &add, &mul);
    assert!(approx_eq(norm_sq(result[2]), 1.0)); // |0> -> |2>
}

#[test]
fn test_bell_state_1() {
    let bell = bell_state_1(ZERO, inv_sqrt3());
    assert!(approx_eq(total9(&bell), 1.0));
    assert!(approx_eq(bell.probability(1, &norm_sq), 1.0 / 3.0));
}
