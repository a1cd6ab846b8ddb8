// The kernels run with exact integer amplitudes, so that results can be
// compared exactly.
use ternary_quantum::entangle::is_entangled;
use ternary_quantum::gates::{
    cnot_gate, h_gate, pauli_y, pauli_z, qft_two, x2_gate, x_gate, z_gate,
};
use ternary_quantum::matrix::Matrix3;
use ternary_quantum::state::{bell_state_0, bell_state_1, bell_state_2, Qutrit, TwoQutrit};

fn add(a: i64, b: i64) -> i64 {
    a + b
}

fn sub(a: i64, b: i64) -> i64 {
    a - b
}

fn mul(a: i64, b: i64) -> i64 {
    a * b
}

fn square(a: i64) -> i64 {
    a * a
}

fn nonzero(a: i64) -> bool {
    a != 0
}

fn less(a: i64, b: i64) -> bool {
    a < b
}

fn basis9(k: usize) -> [i64; 9] {
    let mut s = [0; 9];
    s[k] = 1;
    s
}

#[test]
fn identity_and_zero_matrices() {
    let id = Matrix3::identity(0i64, 1);
    assert_eq!(id.data, [[1, 0, 0], [0, 1, 0], [0, 0, 1]]);
    let z = Matrix3::zero(0i64);
    assert_eq!(z.data, [[0; 3]; 3]);
}

#[test]
fn matrix_product_exact_value() {
    let a = Matrix3 { data: [[1i64, 2, 3], [4, 5, 6], [7, 8, 9]] };
    let b = Matrix3 { data: [[9i64, 8, 7], [6, 5, 4], [3, 2, 1]] };
    let p = a.mul(&b, 0, &add, &mul);
    assert_eq!(p.data, [[30, 24, 18], [84, 69, 54], [138, 114, 90]]);
}

#[test]
fn matrix_apply_exact_value() {
    let a = Matrix3 { data: [[1i64, 2, 3], [4, 5, 6], [7, 8, 9]] };
    assert_eq!(a.apply(&[1, 0, -1], 0, &add, &mul), [-2, -2, -2]);
}

#[test]
fn tensor_places_products_by_kronecker_index() {
    let a = Matrix3 { data: [[1i64, 2, 3], [4, 5, 6], [7, 8, 9]] };
    let b = Matrix3 { data: [[10i64, 20, 30], [40, 50, 60], [70, 80, 90]] };
    let t = a.tensor(&b, 0, &mul);
    for r in 0..9 {
        for c in 0..9 {
            assert_eq!(t[r][c], a.data[r / 3][c / 3] * b.data[r % 3][c % 3]);
        }
    }
    assert_eq!(t[4][5], 5 * 60);
}

#[test]
fn x_gate_cubed_is_identity() {
    let x = x_gate(0i64, 1);
    assert_eq!(x.data, [[0, 0, 1], [1, 0, 0], [0, 1, 0]]);
    let x3 = x.mul(&x, 0, &add, &mul).mul(&x, 0, &add, &mul);
    assert_eq!(x3.data, Matrix3::identity(0i64, 1).data);
}

#[test]
fn x_gate_shifts_every_basis_state() {
    let x = x_gate(0i64, 1);
    let x2 = x2_gate(0i64, 1, &add, &mul);
    for k in 0..3u8 {
        let q = Qutrit::new(k, 0i64, 1);
        let once = x.apply(&q.state, 0, &add, &mul);
        let twice = x2.apply(&q.state, 0, &add, &mul);
        assert_eq!(once, Qutrit::new((k + 1) % 3, 0i64, 1).state);
        assert_eq!(twice, Qutrit::new((k + 2) % 3, 0i64, 1).state);
    }
}

#[test]
fn z_and_pauli_z_place_phases_on_the_diagonal() {
    let z = z_gate(0i64, 1, 5, &mul);
    assert_eq!(z.data, [[1, 0, 0], [0, 5, 0], [0, 0, 25]]);
    assert_eq!(pauli_z(0i64, 1, 5, &mul).data, z.data);
}

#[test]
fn pauli_y_is_x_times_z() {
    let y = pauli_y(0i64, 1, 5, &add, &mul);
    assert_eq!(y.data, [[0, 0, 25], [1, 0, 0], [0, 5, 0]]);
}

#[test]
fn h_gate_entries() {
    let h = h_gate(7i64, 5, &mul);
    assert_eq!(h.data, [[7, 7, 7], [7, 35, 175], [7, 175, 35]]);
}

#[test]
fn qft_two_entries_follow_the_exponent_table() {
    let q = qft_two(0i64, 1, 5, 7, &mul);
    for r in 0..9 {
        for c in 0..9 {
            let e = ((r / 3) * (c / 3) + (r % 3) * (c % 3)) % 3;
            let phase = [1, 5, 25][e];
            assert_eq!(q[r][c], 7 * phase);
        }
    }
    assert_eq!(q[4][4], 7 * 25);
}

#[test]
fn cnot_maps_every_basis_state() {
    let g = cnot_gate(0i64, 1);
    for a in 0..3usize {
        for b in 0..3usize {
            let mut s = TwoQutrit { state: basis9(3 * a + b) };
            s.apply(&g, 0, &add, &mul);
            assert_eq!(s.state, basis9(3 * a + (a + b) % 3));
        }
    }
}

#[test]
fn product_of_basis_states_is_a_basis_state() {
    for a in 0..3u8 {
        for b in 0..3u8 {
            let s = TwoQutrit::from_qutrits(
                &Qutrit::new(a, 0i64, 1),
                &Qutrit::new(b, 0i64, 1),
                0,
                &mul,
            );
            assert_eq!(s.state, basis9(3 * a as usize + b as usize));
            assert!(!is_entangled(&s, &sub, &mul, &nonzero));
        }
    }
}

#[test]
fn product_state_amplitudes() {
    let a = Qutrit { state: [1i64, 2, 3] };
    let b = Qutrit { state: [4i64, 5, 6] };
    let s = TwoQutrit::from_qutrits(&a, &b, 0, &mul);
    assert_eq!(s.state, [4, 5, 6, 8, 10, 12, 12, 15, 18]);
    // A general product state has rank one.
    assert!(!is_entangled(&s, &sub, &mul, &nonzero));
}

#[test]
fn bell_states_are_entangled() {
    let b0 = bell_state_0(0i64, 1);
    let b1 = bell_state_1(0i64, 1);
    let b2 = bell_state_2(0i64, 1);
    assert_eq!(b0.state, [1, 0, 0, 0, 1, 0, 0, 0, 1]);
    assert_eq!(b1.state, [0, 1, 0, 0, 0, 1, 1, 0, 0]);
    assert_eq!(b2.state, [0, 0, 1, 1, 0, 0, 0, 1, 0]);
    assert!(is_entangled(&b0, &sub, &mul, &nonzero));
    assert!(is_entangled(&b1, &sub, &mul, &nonzero));
    assert!(is_entangled(&b2, &sub, &mul, &nonzero));
}

#[test]
fn entanglement_found_only_in_last_minor() {
    // Rows 0 and 1 are proportional; only rows 1, 2 (columns 1, 2) differ.
    let s = TwoQutrit { state: [1i64, 1, 1, 2, 2, 2, 3, 3, 4] };
    assert!(is_entangled(&s, &sub, &mul, &nonzero));
    let never = |_d: i64| false;
    assert!(!is_entangled(&s, &sub, &mul, &never));
}

#[test]
fn probabilities_and_totals() {
    let q = Qutrit { state: [1i64, -2, 3] };
    assert_eq!(q.probability(1, &square), 4);
    assert_eq!(q.total_probability(0, &add, &square), 14);
    let t = TwoQutrit { state: [1i64, 2, 3, 4, 5, 6, 7, 8, 9] };
    assert_eq!(t.probability(8, &square), 81);
    assert_eq!(t.total_probability(0, &add, &square), 285);
}

#[test]
fn uniform_state() {
    let q = Qutrit::uniform(3i64);
    assert_eq!(q.state, [3, 3, 3]);
}

#[test]
fn measure_basis_states_is_certain() {
    // Norms scaled by 10: a roll of 5 stands for 0.5.
    let norm = |a: i64| 10 * a * a;
    for k in 0..3u8 {
        let mut q = Qutrit::new(k, 0i64, 1);
        let outcome = q.measure(0, 1, 5, &add, &less, &norm);
        assert_eq!(outcome, k);
        assert_eq!(q.state, Qutrit::new(k, 0i64, 1).state);
    }
}

#[test]
fn measure_uniform_state_collapses_to_one() {
    // Probabilities 1/3 each: 0.5 is not below 1/3 but below 2/3.
    let mut q = Qutrit::uniform(1i64);
    let norm = |a: i64| 2 * a * a; // 2/6 each; roll 3/6
    let outcome = q.measure(0, 1, 3, &add, &less, &norm);
    assert_eq!(outcome, 1);
    assert_eq!(q.state, [0, 1, 0]);
}

#[test]
fn measure_falls_through_to_two() {
    let mut q = Qutrit { state: [0i64, 0, 5] };
    let outcome = q.measure(0, 1, 1, &add, &less, &square);
    assert_eq!(outcome, 2);
    assert_eq!(q.state, [0, 0, 1]);
}


#[test]
fn identity_is_a_unit() {
    let a = Matrix3 { data: [[1i64, 2, 3], [4, 5, 6], [7, 8, 9]] };
    let id = Matrix3::identity(0i64, 1);
    assert_eq!(id.mul(&a, 0, &add, &mul).data, a.data);
    assert_eq!(a.mul(&id, 0, &add, &mul).data, a.data);
    assert_eq!(id.apply(&[4, -5, 6], 0, &add, &mul), [4, -5, 6]);
}

fn add7(a: i64, b: i64) -> i64 {
    (a + b) % 7
}

fn mul7(a: i64, b: i64) -> i64 {
    (a * b) % 7
}

#[test]
fn z_cubed_is_identity_modulo_seven() {
    // 2 is a primitive cube root of one modulo 7.
    let z = z_gate(0i64, 1, 2, &mul7);
    assert_eq!(z.data, [[1, 0, 0], [0, 2, 0], [0, 0, 4]]);
    let z3 = z.mul(&z, 0, &add7, &mul7).mul(&z, 0, &add7, &mul7);
    assert_eq!(z3.data, Matrix3::identity(0i64, 1).data);
}

#[test]
fn h_on_zero_is_uniform() {
    let h = h_gate(7i64, 5, &mul);
    let q = Qutrit::new(0, 0i64, 1);
    assert_eq!(h.apply(&q.state, 0, &add, &mul), [7, 7, 7]);
}

#[test]
fn x_moves_every_amplitude() {
    let x = x_gate(0i64, 1);
    assert_eq!(x.apply(&[10, 20, 30], 0, &add, &mul), [30, 10, 20]);
}

fn mul9(a: &[[i64; 9]; 9], b: &[[i64; 9]; 9]) -> [[i64; 9]; 9] {
    let mut r = [[0i64; 9]; 9];
    for i in 0..9 {
        for j in 0..9 {
            for k in 0..9 {
                r[i][j] += a[i][k] * b[k][j];
            }
        }
    }
    r
}

fn identity9() -> [[i64; 9]; 9] {
    let mut r = [[0i64; 9]; 9];
    for i in 0..9 {
        r[i][i] = 1;
    }
    r
}

#[test]
fn cnot_cubed_is_identity() {
    let g = cnot_gate(0i64, 1);
    assert_eq!(mul9(&mul9(&g, &g), &g), identity9());
}

#[test]
fn identity_tensor_identity_fixes_states() {
    let id = Matrix3::identity(0i64, 1);
    let t = id.tensor(&id, 0, &mul);
    assert_eq!(t, identity9());
    let mut s = TwoQutrit { state: [1i64, -2, 3, -4, 5, -6, 7, -8, 9] };
    s.apply(&t, 0, &add, &mul);
    assert_eq!(s.state, [1, -2, 3, -4, 5, -6, 7, -8, 9]);
}

#[test]
fn qft_two_is_h_tensor_h_modulo_seven() {
    // omega = 2 is a cube root of one modulo 7; take 1/sqrt(3) = 1 and 1/3 = 1.
    let h = h_gate(1i64, 2, &mul7);
    let t = h.tensor(&h, 0, &mul7);
    let q = qft_two(0i64, 1, 2, 1, &mul7);
    assert_eq!(q, t);
}

#[test]
fn h_then_sum_gives_bell_state() {
    let mut q = Qutrit::new(0, 0i64, 1);
    q.apply(&h_gate(7i64, 5, &mul), 0, &add, &mul);
    let mut two = TwoQutrit::from_qutrits(&q, &Qutrit::new(0, 0i64, 1), 0, &mul);
    two.apply(&cnot_gate(0i64, 1), 0, &add, &mul);
    assert_eq!(two.state, bell_state_0(0i64, 7).state);
}

#[test]
fn total_probability_is_the_sum_of_the_three() {
    let q = Qutrit { state: [2i64, 3, 4] };
    let total = q.total_probability(0, &add, &square);
    assert_eq!(total, (q.probability(0, &square) + q.probability(1, &square)) + q.probability(2, &square));
}

#[test]
fn measurement_avoids_null_outcomes() {
    // Probabilities (in sixths) 0, 6, 0 and (0, 0, 6) with roll 3.
    let mut q = Qutrit { state: [0i64, 1, 0] };
    let norm = |a: i64| 6 * a * a;
    assert_eq!(q.measure(0, 1, 3, &add, &less, &norm), 1);
    let mut r = Qutrit { state: [0i64, 0, 1] };
    assert_eq!(r.measure(0, 1, 3, &add, &less, &norm), 2);
}

#[test]
fn applying_a_product_applies_the_factors_in_turn() {
    let a = Matrix3 { data: [[1i64, -2, 3], [0, 4, -1], [2, 2, 5]] };
    let b = Matrix3 { data: [[3i64, 1, 0], [-1, 2, 7], [4, 0, 1]] };
    let v = [2i64, -3, 5];
    let ab = a.mul(&b, 0, &add, &mul);
    let once = ab.apply(&v, 0, &add, &mul);
    let twice = a.apply(&b.apply(&v, 0, &add, &mul), 0, &add, &mul);
    assert_eq!(once, twice);
}

#[test]
fn kronecker_gate_on_product_state() {
    let a = Matrix3 { data: [[1i64, -2, 3], [0, 4, -1], [2, 2, 5]] };
    let b = Matrix3 { data: [[3i64, 1, 0], [-1, 2, 7], [4, 0, 1]] };
    let p = Qutrit { state: [1i64, 2, -1] };
    let q = Qutrit { state: [0i64, 3, 2] };
    let mut s = TwoQutrit::from_qutrits(&p, &q, 0, &mul);
    s.apply(&a.tensor(&b, 0, &mul), 0, &add, &mul);
    let mut p2 = p.clone();
    let mut q2 = q.clone();
    p2.apply(&a, 0, &add, &mul);
    q2.apply(&b, 0, &add, &mul);
    assert_eq!(s.state, TwoQutrit::from_qutrits(&p2, &q2, 0, &mul).state);
}

#[test]
fn product_state_total_is_product_of_totals() {
    let p = Qutrit { state: [1i64, -2, 3] };
    let q = Qutrit { state: [2i64, 0, -1] };
    let s = TwoQutrit::from_qutrits(&p, &q, 0, &mul);
    let total = s.total_probability(0, &add, &square);
    assert_eq!(
        total,
        p.total_probability(0, &add, &square) * q.total_probability(0, &add, &square)
    );
}
