//! Laws of the gates and states, for any arithmetic that is exact on `zero`
//! and `one` (as IEEE doubles are on 0.0 and 1.0).
use vstd::prelude::*;

use crate::gates::{cnot_matrix, cnot_target, shift, x_matrix};
use crate::matrix::{column, delta, identity_matrix, kron, mat_apply, mat_mul};
use crate::entangle::{entangled, minor, significant_minor_on_rows};
use crate::scalar::{
    exact_on_bits, hit, is_bit_seq, lemma_dot_bits, op1, op2,
};
use crate::state::{basis_vector, bell_vector, measure_outcome, product_state, sum_norms};

verus! {

/// The identity map.
pub open spec fn id_fn() -> spec_fn(int) -> int {
    |j: int| j
}

/// The cyclic shift as a map.
pub open spec fn shift_fn() -> spec_fn(int) -> int {
    |j: int| shift(j)
}

/// The shift by two as a map.
pub open spec fn shift2_fn() -> spec_fn(int) -> int {
    |j: int| (j + 2) % 3
}

/// The SUM gate's action on basis indices as a map.
pub open spec fn cnot_fn() -> spec_fn(int) -> int {
    |j: int| cnot_target(j)
}

/// The `n x n` permutation matrix of `f`: entry `(i, j)` is `one` exactly when `i = f(j)`.
pub open spec fn perm_matrix<T>(n: nat, f: spec_fn(int) -> int, zero: T, one: T) -> Seq<Seq<T>> {
    Seq::new(n, |i: int| Seq::new(n, |j: int| delta(i, f(j), zero, one)))
}

/// The product of two permutation matrices is the permutation matrix of the composition.
pub proof fn lemma_perm_mul<T, P: Fn(T, T) -> T, M: Fn(T, T) -> T>(
    plus: P,
    times: M,
    zero: T,
    one: T,
    n: nat,
    f: spec_fn(int) -> int,
    g: spec_fn(int) -> int,
    h: spec_fn(int) -> int,
)
    requires
        exact_on_bits(plus, times, zero, one),
        forall|j: int| 0 <= j < n ==> 0 <= #[trigger] g(j) < n,
        forall|j: int| 0 <= j < n ==> #[trigger] h(j) == f(g(j)),
    ensures
        mat_mul(plus, times, zero, n, perm_matrix(n, f, zero, one), perm_matrix(n, g, zero, one))
            =~~= perm_matrix(n, h, zero, one),
{
    let a = perm_matrix(n, f, zero, one);
    let b = perm_matrix(n, g, zero, one);
    let prod = mat_mul(plus, times, zero, n, a, b);
    let hm = perm_matrix(n, h, zero, one);
    assert forall|i: int, j: int| 0 <= i < n && 0 <= j < n implies prod[i][j] == hm[i][j] by {
        let u = a[i];
        let v = column(b, n, j);
        assert(is_bit_seq(u, zero, one));
        assert(is_bit_seq(v, zero, one));
        lemma_dot_bits(plus, times, zero, one, u, v, n);
        let k = g(j);
        if i == f(k) {
            assert(hit(u, v, one, k));
        } else {
            assert forall|m: int| 0 <= m < n implies !hit(u, v, one, m) by {
                if hit(u, v, one, m) {
                    assert(v[m] == delta(m, g(j), zero, one));
                    assert(m == g(j));
                }
            }
        }
    }
    assert(prod =~~= hm);
}

/// A permutation matrix sends the basis vector `|k>` to `|f(k)>`.
pub proof fn lemma_perm_apply_basis<T, P: Fn(T, T) -> T, M: Fn(T, T) -> T>(
    plus: P,
    times: M,
    zero: T,
    one: T,
    n: nat,
    f: spec_fn(int) -> int,
    k: int,
)
    requires
        exact_on_bits(plus, times, zero, one),
        0 <= k < n,
    ensures
        mat_apply(plus, times, zero, n, perm_matrix(n, f, zero, one), basis_vector(n, k, zero, one))
            =~= basis_vector(n, f(k), zero, one),
{
    let a = perm_matrix(n, f, zero, one);
    let v = basis_vector(n, k, zero, one);
    let r = mat_apply(plus, times, zero, n, a, v);
    let e = basis_vector(n, f(k), zero, one);
    assert forall|i: int| 0 <= i < n implies r[i] == e[i] by {
        let u = a[i];
        assert(is_bit_seq(u, zero, one));
        assert(is_bit_seq(v, zero, one));
        lemma_dot_bits(plus, times, zero, one, u, v, n);
        if i == f(k) {
            assert(hit(u, v, one, k));
        } else {
            assert forall|m: int| 0 <= m < n implies !hit(u, v, one, m) by {
                if hit(u, v, one, m) {
                    assert(v[m] == delta(m, k, zero, one));
                }
            }
        }
    }
}

/// The identity matrix is the permutation matrix of the identity.
pub proof fn lemma_identity_is_perm<T>(n: nat, zero: T, one: T)
    ensures
        identity_matrix(n, zero, one) =~~= perm_matrix(n, id_fn(), zero, one),
{
}

/// The X gate is the permutation matrix of the cyclic shift.
pub proof fn lemma_x_is_perm<T>(zero: T, one: T)
    ensures
        x_matrix(zero, one) =~~= perm_matrix(3, shift_fn(), zero, one),
{
}

/// `X^2` shifts by two: `X^2 |k> = |k + 2 mod 3>`.
pub proof fn lemma_x_squared<T, P: Fn(T, T) -> T, M: Fn(T, T) -> T>(
    plus: P,
    times: M,
    zero: T,
    one: T,
)
    requires
        exact_on_bits(plus, times, zero, one),
    ensures
        mat_mul(plus, times, zero, 3, x_matrix(zero, one), x_matrix(zero, one)) =~~= perm_matrix(
            3,
            shift2_fn(),
            zero,
            one,
        ),
{
    lemma_x_is_perm(zero, one);
    lemma_perm_mul(
        plus,
        times,
        zero,
        one,
        3,
        shift_fn(),
        shift_fn(),
        shift2_fn(),
    );
}

/// The X gate has order three: `X * X * X` is the identity.
pub proof fn lemma_x_cubed<T, P: Fn(T, T) -> T, M: Fn(T, T) -> T>(
    plus: P,
    times: M,
    zero: T,
    one: T,
)
    requires
        exact_on_bits(plus, times, zero, one),
    ensures
        mat_mul(
            plus,
            times,
            zero,
            3,
            mat_mul(plus, times, zero, 3, x_matrix(zero, one), x_matrix(zero, one)),
            x_matrix(zero, one),
        ) =~~= identity_matrix(3, zero, one),
{
    lemma_x_is_perm(zero, one);
    lemma_x_squared(plus, times, zero, one);
    lemma_perm_mul(
        plus,
        times,
        zero,
        one,
        3,
        shift2_fn(),
        shift_fn(),
        id_fn(),
    );
    lemma_identity_is_perm(3, zero, one);
}

/// The X gate shifts basis states: `X |k> = |k + 1 mod 3>`.
pub proof fn lemma_x_shifts_basis<T, P: Fn(T, T) -> T, M: Fn(T, T) -> T>(
    plus: P,
    times: M,
    zero: T,
    one: T,
    k: int,
)
    requires
        exact_on_bits(plus, times, zero, one),
        0 <= k < 3,
    ensures
        mat_apply(plus, times, zero, 3, x_matrix(zero, one), basis_vector(3, k, zero, one))
            =~= basis_vector(3, shift(k), zero, one),
{
    lemma_x_is_perm(zero, one);
    lemma_perm_apply_basis(plus, times, zero, one, 3, shift_fn(), k);
}

/// The SUM gate is the permutation matrix of `cnot_target`.
pub proof fn lemma_cnot_is_perm<T>(zero: T, one: T)
    ensures
        cnot_matrix(zero, one) =~~= perm_matrix(9, cnot_fn(), zero, one),
{
}

/// The SUM gate acts on basis states as `|a, b> -> |a, (a + b) mod 3>`.
pub proof fn lemma_cnot_on_basis<T, P: Fn(T, T) -> T, M: Fn(T, T) -> T>(
    plus: P,
    times: M,
    zero: T,
    one: T,
    a: int,
    b: int,
)
    requires
        exact_on_bits(plus, times, zero, one),
        0 <= a < 3,
        0 <= b < 3,
    ensures
        mat_apply(plus, times, zero, 9, cnot_matrix(zero, one), basis_vector(9, 3 * a + b, zero, one))
            =~= basis_vector(9, 3 * a + (a + b) % 3, zero, one),
{
    lemma_cnot_is_perm(zero, one);
    lemma_perm_apply_basis(plus, times, zero, one, 9, cnot_fn(), 3 * a + b);
    assert(cnot_target(3 * a + b) == 3 * a + (a + b) % 3);
}

/// `X^2` sends `|k>` to `|k + 2 mod 3>`.
pub proof fn lemma_x2_shifts_basis<T, P: Fn(T, T) -> T, M: Fn(T, T) -> T>(
    plus: P,
    times: M,
    zero: T,
    one: T,
    k: int,
)
    requires
        exact_on_bits(plus, times, zero, one),
        0 <= k < 3,
    ensures
        mat_apply(
            plus,
            times,
            zero,
            3,
            mat_mul(plus, times, zero, 3, x_matrix(zero, one), x_matrix(zero, one)),
            basis_vector(3, k, zero, one),
        ) =~= basis_vector(3, (k + 2) % 3, zero, one),
{
    lemma_x_squared(plus, times, zero, one);
    lemma_perm_apply_basis(plus, times, zero, one, 3, shift2_fn(), k);
}

/// The identity matrix leaves basis states unchanged.
pub proof fn lemma_identity_fixes_basis<T, P: Fn(T, T) -> T, M: Fn(T, T) -> T>(
    plus: P,
    times: M,
    zero: T,
    one: T,
    k: int,
)
    requires
        exact_on_bits(plus, times, zero, one),
        0 <= k < 3,
    ensures
        mat_apply(plus, times, zero, 3, identity_matrix(3, zero, one), basis_vector(3, k, zero, one))
            =~= basis_vector(3, k, zero, one),
{
    lemma_identity_is_perm(3, zero, one);
    lemma_perm_apply_basis(plus, times, zero, one, 3, id_fn(), k);
}

/// The product of basis states `|a>` and `|b>` is the basis state `|a, b>` (index `3a + b`).
pub proof fn lemma_basis_product<T, P: Fn(T, T) -> T, M: Fn(T, T) -> T>(
    plus: P,
    times: M,
    zero: T,
    one: T,
    a: int,
    b: int,
)
    requires
        exact_on_bits(plus, times, zero, one),
        0 <= a < 3,
        0 <= b < 3,
    ensures
        product_state(times, basis_vector(3, a, zero, one), basis_vector(3, b, zero, one))
            =~= basis_vector(9, 3 * a + b, zero, one),
{
}

/// A product of basis states is not entangled, for any tolerance under which
/// `zero` is not significant and that subtracts `zero` from `zero` exactly.
pub proof fn lemma_basis_product_not_entangled<
    T,
    P: Fn(T, T) -> T,
    S: Fn(T, T) -> T,
    M: Fn(T, T) -> T,
    G: Fn(T) -> bool,
>(plus: P, minus: S, times: M, significant: G, zero: T, one: T, a: int, b: int)
    requires
        exact_on_bits(plus, times, zero, one),
        op2(minus, zero, zero) == zero,
        !op1(significant, zero),
        0 <= a < 3,
        0 <= b < 3,
    ensures
        !entangled(
            minus,
            times,
            significant,
            product_state(times, basis_vector(3, a, zero, one), basis_vector(3, b, zero, one)),
        ),
{
    let s = product_state(times, basis_vector(3, a, zero, one), basis_vector(3, b, zero, one));
    lemma_basis_product(plus, times, zero, one, a, b);
    assert forall|r1: int, r2: int, c1: int, c2: int|
        0 <= r1 < r2 < 3 && 0 <= c1 < c2 < 3 implies minor(minus, times, s, r1, r2, c1, c2)
        == zero by {
        assert(s[3 * r1 + c1] == zero || s[3 * r2 + c2] == zero);
        assert(s[3 * r1 + c2] == zero || s[3 * r2 + c1] == zero);
        assert(s[3 * r1 + c1] == zero || s[3 * r1 + c1] == one);
        assert(s[3 * r2 + c2] == zero || s[3 * r2 + c2] == one);
        assert(s[3 * r1 + c2] == zero || s[3 * r1 + c2] == one);
        assert(s[3 * r2 + c1] == zero || s[3 * r2 + c1] == one);
    }
    assert forall|r1: int, r2: int| 0 <= r1 < r2 < 3 implies !significant_minor_on_rows(
        minus,
        times,
        significant,
        s,
        r1,
        r2,
    ) by {
        assert forall|c1: int, c2: int| 0 <= c1 < c2 < 3 implies !op1(
            significant,
            minor(minus, times, s, r1, r2, c1, c2),
        ) by {
            assert(minor(minus, times, s, r1, r2, c1, c2) == zero);
        }
    }
}

/// Every ternary Bell state is entangled, for any tolerance under which
/// `amp^2 - 0*0` and `0*0 - amp^2` are significant.
pub proof fn lemma_bell_states_entangled<
    T,
    S: Fn(T, T) -> T,
    M: Fn(T, T) -> T,
    G: Fn(T) -> bool,
>(minus: S, times: M, significant: G, zero: T, amp: T, offset: int)
    requires
        op1(significant, op2(minus, op2(times, amp, amp), op2(times, zero, zero))),
        op1(significant, op2(minus, op2(times, zero, zero), op2(times, amp, amp))),
        0 <= offset < 3,
    ensures
        entangled(minus, times, significant, bell_vector(offset, zero, amp)),
{
    let s = bell_vector(offset, zero, amp);
    if offset == 0 {
        // rows 0, 1 and columns 0, 1: amp * amp - 0 * 0
        assert(op1(significant, minor(minus, times, s, 0, 1, 0, 1)));
        assert(significant_minor_on_rows(minus, times, significant, s, 0, 1));
    } else if offset == 1 {
        // rows 0, 1 and columns 1, 2: amp * amp - 0 * 0
        assert(op1(significant, minor(minus, times, s, 0, 1, 1, 2)));
        assert(significant_minor_on_rows(minus, times, significant, s, 0, 1));
    } else {
        // rows 0, 1 and columns 0, 2: 0 * 0 - amp * amp
        assert(op1(significant, minor(minus, times, s, 0, 1, 0, 2)));
        assert(significant_minor_on_rows(minus, times, significant, s, 0, 1));
    }
}

/// Measuring a basis state `|k>` gives `k` (and so leaves the state as it
/// was), for any roll that falls below the norm of `one`, below
/// `norm(0) + norm(1)`, and not below `norm(0)` or `norm(0) + norm(0)`.
pub proof fn lemma_measure_basis<
    T,
    R,
    P: Fn(R, R) -> R,
    L: Fn(R, R) -> bool,
    N: Fn(T) -> R,
>(plus: P, less: L, norm: N, roll: R, zero: T, one: T, k: int)
    requires
        zero != one,
        op2(less, roll, op1(norm, one)),
        !op2(less, roll, op1(norm, zero)),
        op2(less, roll, op2(plus, op1(norm, zero), op1(norm, one))),
        !op2(less, roll, op2(plus, op1(norm, zero), op1(norm, zero))),
        0 <= k < 3,
    ensures
        measure_outcome(
            plus,
            less,
            roll,
            op1(norm, basis_vector(3, k, zero, one)[0]),
            op1(norm, basis_vector(3, k, zero, one)[1]),
        ) == k,
{
}

/// The SUM gate applied twice, on basis indices.
pub open spec fn cnot2_fn() -> spec_fn(int) -> int {
    |j: int| cnot_target(cnot_target(j))
}

proof fn lemma_cnot_target_cycles(j: int)
    requires
        0 <= j < 9,
    ensures
        0 <= cnot_target(j) < 9,
        cnot_target(cnot_target(cnot_target(j))) == j,
{
    if j < 3 {
        assert(j / 3 == 0);
    } else if j < 6 {
        assert(j / 3 == 1);
    } else {
        assert(j / 3 == 2);
    }
}

/// The SUM gate has order three: `SUM * SUM * SUM` is the identity.
pub proof fn lemma_cnot_cubed<T, P: Fn(T, T) -> T, M: Fn(T, T) -> T>(
    plus: P,
    times: M,
    zero: T,
    one: T,
)
    requires
        exact_on_bits(plus, times, zero, one),
    ensures
        mat_mul(
            plus,
            times,
            zero,
            9,
            mat_mul(plus, times, zero, 9, cnot_matrix(zero, one), cnot_matrix(zero, one)),
            cnot_matrix(zero, one),
        ) =~~= identity_matrix(9, zero, one),
{
    assert forall|j: int| 0 <= j < 9 implies 0 <= #[trigger] cnot_fn()(j) < 9 by {
        lemma_cnot_target_cycles(j);
    }
    lemma_cnot_is_perm(zero, one);
    lemma_perm_mul(plus, times, zero, one, 9, cnot_fn(), cnot_fn(), cnot2_fn());
    assert forall|j: int| 0 <= j < 9 implies #[trigger] id_fn()(j) == cnot2_fn()(cnot_fn()(j)) by {
        lemma_cnot_target_cycles(j);
    }
    lemma_perm_mul(plus, times, zero, one, 9, cnot2_fn(), cnot_fn(), id_fn());
    lemma_identity_is_perm(9, zero, one);
}

/// The Kronecker product of two identities is the 9x9 identity.
pub proof fn lemma_tensor_identity<T, P: Fn(T, T) -> T, M: Fn(T, T) -> T>(
    plus: P,
    times: M,
    zero: T,
    one: T,
)
    requires
        exact_on_bits(plus, times, zero, one),
    ensures
        kron(times, identity_matrix(3, zero, one), identity_matrix(3, zero, one)) =~~= identity_matrix(
            9,
            zero,
            one,
        ),
{
    let k = kron(times, identity_matrix(3, zero, one), identity_matrix(3, zero, one));
    let id = identity_matrix(9, zero, one);
    assert forall|r: int, c: int| 0 <= r < 9 && 0 <= c < 9 implies k[r][c] == id[r][c] by {
        assert((r == c) == (r / 3 == c / 3 && r % 3 == c % 3));
    }
    assert(k =~~= id);
}

/// The total probability of a qutrit is `(p0 + p1) + p2`, when adding the
/// first norm to the starting `zero` leaves it unchanged.
pub proof fn lemma_total_probability<T, R, P: Fn(R, R) -> R, N: Fn(T) -> R>(
    plus: P,
    norm: N,
    zero: R,
    s: Seq<T>,
)
    requires
        s.len() == 3,
        op2(plus, zero, op1(norm, s[0])) == op1(norm, s[0]),
    ensures
        sum_norms(plus, norm, zero, s, 3) == op2(
            plus,
            op2(plus, op1(norm, s[0]), op1(norm, s[1])),
            op1(norm, s[2]),
        ),
{
    assert(sum_norms(plus, norm, zero, s, 0) == zero);
    assert(sum_norms(plus, norm, zero, s, 1) == op1(norm, s[0]));
    assert(sum_norms(plus, norm, zero, s, 2) == op2(plus, op1(norm, s[0]), op1(norm, s[1])));
}

/// The measurement never lands on an outcome whose probability is the null
/// value `z`, when the roll is not below `z`, adding `z` changes nothing, and
/// the roll is below the total `(p0 + p1) + p2`.
pub proof fn lemma_measure_avoids_null<R, P: Fn(R, R) -> R, L: Fn(R, R) -> bool>(
    plus: P,
    less: L,
    roll: R,
    p0: R,
    p1: R,
    p2: R,
    z: R,
)
    requires
        !op2(less, roll, z),
        op2(plus, p0, z) == p0,
        op2(plus, op2(plus, p0, p1), z) == op2(plus, p0, p1),
        op2(less, roll, op2(plus, op2(plus, p0, p1), p2)),
    ensures
        measure_outcome(plus, less, roll, p0, p1) == 0 ==> p0 != z,
        measure_outcome(plus, less, roll, p0, p1) == 1 ==> p1 != z,
        measure_outcome(plus, less, roll, p0, p1) == 2 ==> p2 != z,
{
}

} // verus!
