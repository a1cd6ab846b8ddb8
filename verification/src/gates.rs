//! The standard qutrit gates: generalized X, Z, H (single-qutrit QFT), the
//! ternary Pauli operators, the two-qutrit QFT and the SUM (CNOT) gate.
//!
//! The irrational constants (`omega = e^(2 pi i / 3)`, `1/sqrt(3)`, `1/3`)
//! are arguments: the kernels place them and multiply them.
use vstd::prelude::*;

use crate::matrix::{column, delta, mat_mul, rows9, Matrix3};
use crate::scalar::{call2, called2, dot_called, functional2, op2};

verus! {

/// The cyclic shift `|k> -> |k + 1 mod 3>`.
pub open spec fn shift(k: int) -> int {
    (k + 1) % 3
}

/// The X gate: entry `(row, col)` is `one` exactly when `row = col + 1 mod 3`.
pub open spec fn x_matrix<T>(zero: T, one: T) -> Seq<Seq<T>> {
    Seq::new(3, |i: int| Seq::new(3, |j: int| delta(i, shift(j), zero, one)))
}

/// Generalized X gate (cyclic shift): `X|0> = |1>`, `X|1> = |2>`, `X|2> = |0>`.
pub fn x_gate<T: Copy>(zero: T, one: T) -> (m: Matrix3<T>)
    ensures
        m@ =~~= x_matrix(zero, one),
{
    Matrix3 { data: [[zero, zero, one], [one, zero, zero], [zero, one, zero]] }
}

/// Generalized X^2 gate (shift by 2), computed as `X * X`.
pub fn x2_gate<T: Copy, P: Fn(T, T) -> T, M: Fn(T, T) -> T>(
    zero: T,
    one: T,
    plus: &P,
    times: &M,
) -> (m: Matrix3<T>)
    requires
        functional2(*plus),
        functional2(*times),
    ensures
        m@ =~~= mat_mul(*plus, *times, zero, 3, x_matrix(zero, one), x_matrix(zero, one)),
        forall|i: int, j: int|
            0 <= i < 3 && 0 <= j < 3 ==> #[trigger] dot_called(
                *plus,
                *times,
                zero,
                x_matrix(zero, one)[i],
                column(x_matrix(zero, one), 3, j),
                3,
            ),
{
    let x = x_gate(zero, one);
    x.mul(&x, zero, plus, times)
}

/// `omega^e` for `e` in `0..3`, where `omega^2` is computed as `omega * omega`.
pub open spec fn omega_power<T, M: Fn(T, T) -> T>(one: T, omega: T, times: M, e: int) -> T {
    if e == 0 {
        one
    } else if e == 1 {
        omega
    } else {
        op2(times, omega, omega)
    }
}

/// The Z gate: `diag(one, omega, omega * omega)`.
pub open spec fn z_matrix<T, M: Fn(T, T) -> T>(zero: T, one: T, omega: T, times: M) -> Seq<Seq<T>> {
    Seq::new(3, |i: int| Seq::new(3, |j: int| if i == j {
        omega_power(one, omega, times, i)
    } else {
        zero
    }))
}

/// Generalized Z gate (phase gate): `Z|k> = omega^k |k>`, with `omega = e^(2 pi i/3)`.
pub fn z_gate<T: Copy, M: Fn(T, T) -> T>(zero: T, one: T, omega: T, times: &M) -> (m: Matrix3<T>)
    requires
        functional2(*times),
    ensures
        m@ =~~= z_matrix(zero, one, omega, *times),
        called2(*times, omega, omega),
{
    let omega2 = call2(times, omega, omega);
    Matrix3 { data: [[one, zero, zero], [zero, omega, zero], [zero, zero, omega2]] }
}

/// `inv_sqrt3 * omega^e`, with `omega^0` left out (`e` in `0..3`).
pub open spec fn h_entry<T, M: Fn(T, T) -> T>(inv_sqrt3: T, omega: T, times: M, e: int) -> T {
    if e == 0 {
        inv_sqrt3
    } else if e == 1 {
        op2(times, inv_sqrt3, omega)
    } else {
        op2(times, inv_sqrt3, op2(times, omega, omega))
    }
}

/// The H gate: entry `(j, k)` is `inv_sqrt3 * omega^(j*k mod 3)`.
pub open spec fn h_matrix<T, M: Fn(T, T) -> T>(inv_sqrt3: T, omega: T, times: M) -> Seq<Seq<T>> {
    Seq::new(3, |i: int| Seq::new(3, |j: int| h_entry(inv_sqrt3, omega, times, (i * j) % 3)))
}

/// Generalized Hadamard gate (single-qutrit QFT over Z/3Z):
/// `H[j][k] = omega^(j*k) / sqrt(3)`.
pub fn h_gate<T: Copy, M: Fn(T, T) -> T>(inv_sqrt3: T, omega: T, times: &M) -> (m: Matrix3<T>)
    requires
        functional2(*times),
    ensures
        m@ =~~= h_matrix(inv_sqrt3, omega, *times),
        called2(*times, omega, omega),
        called2(*times, inv_sqrt3, omega),
        called2(*times, inv_sqrt3, op2(*times, omega, omega)),
{
    let omega2 = call2(times, omega, omega);
    let a = call2(times, inv_sqrt3, omega);
    let b = call2(times, inv_sqrt3, omega2);
    let m = Matrix3 {
        data: [[inv_sqrt3, inv_sqrt3, inv_sqrt3], [inv_sqrt3, a, b], [inv_sqrt3, b, a]],
    };
    assert forall|i: int, j: int| 0 <= i < 3 && 0 <= j < 3 implies m@[i][j] == h_matrix(
        inv_sqrt3,
        omega,
        *times,
    )[i][j] by {
        assert((i * j) % 3 == (if i == 0 || j == 0 {
            0int
        } else if i == j {
            1int
        } else {
            2int
        })) by (nonlinear_arith)
            requires
                0 <= i < 3,
                0 <= j < 3,
        ;
    }
    m
}

/// Ternary Pauli X operator (the X gate).
pub fn pauli_x<T: Copy>(zero: T, one: T) -> (m: Matrix3<T>)
    ensures
        m@ =~~= x_matrix(zero, one),
{
    x_gate(zero, one)
}

/// Ternary Pauli Z operator (the Z gate).
pub fn pauli_z<T: Copy, M: Fn(T, T) -> T>(zero: T, one: T, omega: T, times: &M) -> (m: Matrix3<T>)
    requires
        functional2(*times),
    ensures
        m@ =~~= z_matrix(zero, one, omega, *times),
        called2(*times, omega, omega),
{
    z_gate(zero, one, omega, times)
}

/// Ternary Pauli Y operator, `X * Z` (up to phase).
pub fn pauli_y<T: Copy, P: Fn(T, T) -> T, M: Fn(T, T) -> T>(
    zero: T,
    one: T,
    omega: T,
    plus: &P,
    times: &M,
) -> (m: Matrix3<T>)
    requires
        functional2(*plus),
        functional2(*times),
    ensures
        m@ =~~= mat_mul(
            *plus,
            *times,
            zero,
            3,
            x_matrix(zero, one),
            z_matrix(zero, one, omega, *times),
        ),
        called2(*times, omega, omega),
        forall|i: int, j: int|
            0 <= i < 3 && 0 <= j < 3 ==> #[trigger] dot_called(
                *plus,
                *times,
                zero,
                x_matrix(zero, one)[i],
                column(z_matrix(zero, one, omega, *times), 3, j),
                3,
            ),
{
    let x = x_gate(zero, one);
    let z = z_gate(zero, one, omega, times);
    x.mul(&z, zero, plus, times)
}

/// Quantum Fourier transform over Z/3Z for one qutrit (the H gate).
pub fn qft_single<T: Copy, M: Fn(T, T) -> T>(inv_sqrt3: T, omega: T, times: &M) -> (m: Matrix3<T>)
    requires
        functional2(*times),
    ensures
        m@ =~~= h_matrix(inv_sqrt3, omega, *times),
        called2(*times, omega, omega),
        called2(*times, inv_sqrt3, omega),
        called2(*times, inv_sqrt3, op2(*times, omega, omega)),
{
    h_gate(inv_sqrt3, omega, times)
}

/// The exponent of `omega` in entry `(row, col)` of the two-qutrit QFT:
/// `j1*k1 + j2*k2 mod 3` for `row = 3*j1 + j2`, `col = 3*k1 + k2`.
pub open spec fn qft_exponent(row: int, col: int) -> int {
    ((row / 3) * (col / 3) + (row % 3) * (col % 3)) % 3
}

/// The two-qutrit QFT: entry `(row, col)` is `inv3 * omega^qft_exponent(row, col)`.
pub open spec fn qft_two_matrix<T, M: Fn(T, T) -> T>(one: T, omega: T, inv3: T, times: M) -> Seq<
    Seq<T>,
> {
    Seq::new(
        9,
        |r: int|
            Seq::new(
                9,
                |c: int| op2(times, inv3, omega_power(one, omega, times, qft_exponent(r, c))),
            ),
    )
}

/// Entry `(r, c)` of `q` is that of the two-qutrit QFT, computed by a real call.
pub open spec fn qft_entry_done<T, M: Fn(T, T) -> T>(
    one: T,
    omega: T,
    inv3: T,
    times: M,
    q: [[T; 9]; 9],
    r: int,
    c: int,
) -> bool {
    &&& q[r][c] == qft_two_matrix(one, omega, inv3, times)[r][c]
    &&& called2(times, inv3, omega_power(one, omega, times, qft_exponent(r, c)))
}

/// Quantum Fourier transform over Z/3Z for two qutrits, as a 9x9 array.
pub fn qft_two<T: Copy, M: Fn(T, T) -> T>(zero: T, one: T, omega: T, inv3: T, times: &M) -> (r: [[T;
    9]; 9])
    requires
        functional2(*times),
    ensures
        rows9(r) =~~= qft_two_matrix(one, omega, inv3, *times),
        called2(*times, omega, omega),
        forall|row: int, col: int|
            0 <= row < 9 && 0 <= col < 9 ==> #[trigger] called2(
                *times,
                inv3,
                omega_power(one, omega, *times, qft_exponent(row, col)),
            ),
{
    let omega2 = call2(times, omega, omega);
    let mut result = [[zero; 9]; 9];
    for row in 0..9
        invariant
            functional2(*times),
            omega2 == op2(*times, omega, omega),
            forall|r: int, c: int|
                0 <= r < row && 0 <= c < 9 ==> #[trigger] qft_entry_done(
                    one,
                    omega,
                    inv3,
                    *times,
                    result,
                    r,
                    c,
                ),
    {
        for col in 0..9
            invariant
                functional2(*times),
                omega2 == op2(*times, omega, omega),
                0 <= row < 9,
                forall|r: int, c: int|
                    (0 <= r < row && 0 <= c < 9) || (r == row && 0 <= c < col)
                        ==> #[trigger] qft_entry_done(one, omega, inv3, *times, result, r, c),
        {
            let j1: usize = row / 3;
            let j2: usize = row % 3;
            let k1: usize = col / 3;
            let k2: usize = col % 3;
            assert(j1 * k1 <= 4 && j2 * k2 <= 4) by (nonlinear_arith)
                requires
                    j1 < 3,
                    k1 < 3,
                    j2 < 3,
                    k2 < 3,
            ;
            // Phase = omega^(j1*k1 + j2*k2)
            let exp: usize = j1 * k1 + j2 * k2;
            let phase = match exp % 3 {
                0 => one,
                1 => omega,
                _ => omega2,
            };
            let e = call2(times, inv3, phase);
            let ghost prev = result;
            result[row][col] = e;
            assert forall|r: int, c: int|
                (0 <= r < row && 0 <= c < 9) || (r == row && 0 <= c <= col)
                    implies #[trigger] qft_entry_done(one, omega, inv3, *times, result, r, c) by {
                if r != row || c != col {
                    assert(qft_entry_done(one, omega, inv3, *times, prev, r, c));
                }
            }
        }
    }
    assert forall|r: int, c: int| 0 <= r < 9 && 0 <= c < 9 implies rows9(result)[r][c]
        == qft_two_matrix(one, omega, inv3, *times)[r][c] by {
        assert(qft_entry_done(one, omega, inv3, *times, result, r, c));
    }
    assert forall|r: int, c: int| 0 <= r < 9 && 0 <= c < 9 implies #[trigger] called2(
        *times,
        inv3,
        omega_power(one, omega, *times, qft_exponent(r, c)),
    ) by {
        assert(qft_entry_done(one, omega, inv3, *times, result, r, c));
    }
    result
}

/// Where the SUM gate sends basis index `idx = 3a + b`: to `3a + (a + b) mod 3`.
pub open spec fn cnot_target(idx: int) -> int {
    3 * (idx / 3) + (idx / 3 + idx % 3) % 3
}

/// The SUM gate: entry `(row, col)` is `one` exactly when `row = cnot_target(col)`.
pub open spec fn cnot_matrix<T>(zero: T, one: T) -> Seq<Seq<T>> {
    Seq::new(9, |r: int| Seq::new(9, |c: int| delta(r, cnot_target(c), zero, one)))
}

/// CNOT gate for qutrits (SUM gate): `|a, b> -> |a, (a + b) mod 3>`.
pub fn cnot_gate<T: Copy>(zero: T, one: T) -> (g: [[T; 9]; 9])
    ensures
        rows9(g) =~~= cnot_matrix(zero, one),
{
    let mut gate = [[zero; 9]; 9];
    for a in 0..3u8
        invariant
            forall|r: int, c: int|
                0 <= r < 9 && 0 <= c < 9 ==> gate[r][c] == (if c / 3 < a && r == cnot_target(c) {
                    one
                } else {
                    zero
                }),
    {
        for b in 0..3u8
            invariant
                0 <= a < 3,
                forall|r: int, c: int|
                    0 <= r < 9 && 0 <= c < 9 ==> gate[r][c] == (if (c / 3 < a || (c / 3 == a && c
                        % 3 < b)) && r == cnot_target(c) {
                        one
                    } else {
                        zero
                    }),
        {
            let input_idx: usize = a as usize * 3 + b as usize;
            let output_b: usize = ((a + b) % 3) as usize;
            let output_idx: usize = a as usize * 3 + output_b;
            assert(input_idx as int / 3 == a && input_idx as int % 3 == b);
            assert(output_idx == cnot_target(input_idx as int));
            gate[output_idx][input_idx] = one;
        }
    }
    gate
}

} // verus!
