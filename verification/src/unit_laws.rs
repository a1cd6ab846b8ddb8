//! Laws of the gates and states for arithmetic in which `zero` and `one`
//! act as units on the amplitudes involved (see `unit_on`).  Every premise
//! is about finitely many named values, so a caller can establish it by
//! calling its closures on them.
use vstd::prelude::*;

use crate::entangle::{entangled, minor, significant_minor_on_rows};
use crate::gates::{
    cnot_matrix, cnot_target, h_entry, h_matrix, omega_power, qft_two_matrix, x_matrix, z_matrix,
};
use crate::laws::{
    cnot_fn, id_fn, lemma_cnot_is_perm, lemma_identity_is_perm, lemma_tensor_identity, lemma_x_is_perm,
    perm_matrix, shift_fn,
};
use crate::matrix::{column, identity_matrix, kron, mat_apply, mat_mul};
use crate::scalar::{exact_on_bits, lemma_dot_single_term, op1, op2, unit_on};
use crate::state::{basis_vector, bell_vector, product_state};

verus! {

/// A permutation matrix moves the amplitudes of any vector: amplitude `j`
/// lands at `f(j)`, so entry `i` of the result is `v[g(i)]` for the inverse `g`.
pub proof fn lemma_perm_apply<T, P: Fn(T, T) -> T, M: Fn(T, T) -> T>(
    plus: P,
    times: M,
    zero: T,
    one: T,
    n: nat,
    f: spec_fn(int) -> int,
    g: spec_fn(int) -> int,
    v: Seq<T>,
)
    requires
        v.len() == n,
        unit_on(plus, times, zero, one, zero),
        forall|k: int| 0 <= k < n ==> #[trigger] unit_on(plus, times, zero, one, v[k]),
        forall|j: int| 0 <= j < n ==> 0 <= #[trigger] f(j) < n && f(g(j)) == j,
        forall|j: int| 0 <= j < n ==> 0 <= #[trigger] g(j) < n && g(f(j)) == j,
    ensures
        mat_apply(plus, times, zero, n, perm_matrix(n, f, zero, one), v) =~= Seq::new(
            n,
            |i: int| v[g(i)],
        ),
{
    let a = perm_matrix(n, f, zero, one);
    assert forall|i: int| 0 <= i < n implies mat_apply(plus, times, zero, n, a, v)[i] == v[g(i)] by {
        let p = g(i);
        assert(f(p) == i);
        assert forall|k: int| 0 <= k < n && k != p implies #[trigger] op2(times, a[i][k], v[k])
            == zero by {
            assert(unit_on(plus, times, zero, one, v[k]));
            if f(k) == i {
                assert(g(f(k)) == k);
            }
            assert(a[i][k] == zero);
        }
        assert(unit_on(plus, times, zero, one, v[p]));
        assert(a[i][p] == one);
        lemma_dot_single_term(plus, times, zero, a[i], v, n, p);
    }
}

/// The identity matrix leaves every state vector unchanged.
pub proof fn lemma_identity_apply<T, P: Fn(T, T) -> T, M: Fn(T, T) -> T>(
    plus: P,
    times: M,
    zero: T,
    one: T,
    n: nat,
    v: Seq<T>,
)
    requires
        v.len() == n,
        unit_on(plus, times, zero, one, zero),
        forall|k: int| 0 <= k < n ==> #[trigger] unit_on(plus, times, zero, one, v[k]),
    ensures
        mat_apply(plus, times, zero, n, identity_matrix(n, zero, one), v) =~= v,
{
    lemma_identity_is_perm(n, zero, one);
    lemma_perm_apply(plus, times, zero, one, n, id_fn(), id_fn(), v);
}

/// X moves the amplitude of `|k>` to `|k + 1 mod 3>`: `X (v0, v1, v2) = (v2, v0, v1)`.
pub proof fn lemma_x_permutes<T, P: Fn(T, T) -> T, M: Fn(T, T) -> T>(
    plus: P,
    times: M,
    zero: T,
    one: T,
    v: Seq<T>,
)
    requires
        v.len() == 3,
        unit_on(plus, times, zero, one, zero),
        forall|k: int| 0 <= k < 3 ==> #[trigger] unit_on(plus, times, zero, one, v[k]),
    ensures
        mat_apply(plus, times, zero, 3, x_matrix(zero, one), v) =~= seq![v[2], v[0], v[1]],
{
    lemma_x_is_perm(zero, one);
    let g = |j: int| (j + 2) % 3;
    lemma_perm_apply(plus, times, zero, one, 3, shift_fn(), g, v);
}

/// The identity matrix is a left and a right unit of the matrix product.
pub proof fn lemma_identity_mul<T, P: Fn(T, T) -> T, M: Fn(T, T) -> T>(
    plus: P,
    times: M,
    zero: T,
    one: T,
    a: Seq<Seq<T>>,
)
    requires
        a.len() == 3,
        forall|i: int| 0 <= i < 3 ==> #[trigger] a[i].len() == 3,
        unit_on(plus, times, zero, one, zero),
        forall|i: int, j: int|
            0 <= i < 3 && 0 <= j < 3 ==> #[trigger] unit_on(plus, times, zero, one, a[i][j]),
    ensures
        mat_mul(plus, times, zero, 3, identity_matrix(3, zero, one), a) =~~= a,
        mat_mul(plus, times, zero, 3, a, identity_matrix(3, zero, one)) =~~= a,
{
    let id = identity_matrix(3, zero, one);
    let l = mat_mul(plus, times, zero, 3, id, a);
    let r = mat_mul(plus, times, zero, 3, a, id);
    assert forall|i: int, j: int| 0 <= i < 3 && 0 <= j < 3 implies l[i][j] == a[i][j] && r[i][j]
        == a[i][j] by {
        let col_a = column(a, 3, j);
        let col_id = column(id, 3, j);
        assert forall|k: int| 0 <= k < 3 && k != i implies #[trigger] op2(times, id[i][k], col_a[k])
            == zero by {
            assert(unit_on(plus, times, zero, one, a[k][j]));
        }
        assert(unit_on(plus, times, zero, one, a[i][j]));
        lemma_dot_single_term(plus, times, zero, id[i], col_a, 3, i);
        assert forall|k: int| 0 <= k < 3 && k != j implies #[trigger] op2(times, a[i][k], col_id[k])
            == zero by {
            assert(unit_on(plus, times, zero, one, a[i][k]));
        }
        lemma_dot_single_term(plus, times, zero, a[i], col_id, 3, j);
    }
    assert(l =~~= a);
    assert(r =~~= a);
}

/// The 3x3 diagonal matrix with diagonal `d`.
pub open spec fn diag_matrix<T>(d: Seq<T>, zero: T) -> Seq<Seq<T>> {
    Seq::new(3, |i: int| Seq::new(3, |j: int| if i == j {
        d[i]
    } else {
        zero
    }))
}

/// The product of two diagonal matrices is diagonal, with the products of the diagonals.
pub proof fn lemma_diag_mul<T, P: Fn(T, T) -> T, M: Fn(T, T) -> T>(
    plus: P,
    times: M,
    zero: T,
    one: T,
    d: Seq<T>,
    e: Seq<T>,
)
    requires
        unit_on(plus, times, zero, one, zero),
        forall|i: int|
            0 <= i < 3 ==> #[trigger] unit_on(plus, times, zero, one, d[i]) && unit_on(
                plus,
                times,
                zero,
                one,
                e[i],
            ) && unit_on(plus, times, zero, one, op2(times, d[i], e[i])),
    ensures
        mat_mul(plus, times, zero, 3, diag_matrix(d, zero), diag_matrix(e, zero)) =~~= diag_matrix(
            Seq::new(3, |i: int| op2(times, d[i], e[i])),
            zero,
        ),
{
    let a = diag_matrix(d, zero);
    let b = diag_matrix(e, zero);
    let prod = mat_mul(plus, times, zero, 3, a, b);
    let c = diag_matrix(Seq::new(3, |i: int| op2(times, d[i], e[i])), zero);
    assert forall|i: int, j: int| 0 <= i < 3 && 0 <= j < 3 implies prod[i][j] == c[i][j] by {
        let col = column(b, 3, j);
        assert(unit_on(plus, times, zero, one, d[i]));
        assert forall|k: int| 0 <= k < 3 && k != i implies #[trigger] op2(times, a[i][k], col[k])
            == zero by {
            assert(unit_on(plus, times, zero, one, d[k]));
            assert(unit_on(plus, times, zero, one, e[k]));
        }
        lemma_dot_single_term(plus, times, zero, a[i], col, 3, i);
    }
    assert(prod =~~= c);
}

/// `Z^3` is the identity whenever `omega` and `omega^2` are cube roots of one
/// and `zero`, `one` act as units on the powers of `omega` involved.
pub proof fn lemma_z_cubed<T, P: Fn(T, T) -> T, M: Fn(T, T) -> T>(
    plus: P,
    times: M,
    zero: T,
    one: T,
    omega: T,
)
    requires
        unit_on(plus, times, zero, one, zero),
        unit_on(plus, times, zero, one, one),
        unit_on(plus, times, zero, one, omega),
        unit_on(plus, times, zero, one, op2(times, omega, omega)),
        unit_on(
            plus,
            times,
            zero,
            one,
            op2(times, op2(times, omega, omega), op2(times, omega, omega)),
        ),
        op2(times, op2(times, omega, omega), omega) == one,
        op2(
            times,
            op2(times, op2(times, omega, omega), op2(times, omega, omega)),
            op2(times, omega, omega),
        ) == one,
    ensures
        mat_mul(
            plus,
            times,
            zero,
            3,
            mat_mul(
                plus,
                times,
                zero,
                3,
                z_matrix(zero, one, omega, times),
                z_matrix(zero, one, omega, times),
            ),
            z_matrix(zero, one, omega, times),
        ) =~~= identity_matrix(3, zero, one),
{
    let w2 = op2(times, omega, omega);
    let w4 = op2(times, w2, w2);
    let d = seq![one, omega, w2];
    let z = z_matrix(zero, one, omega, times);
    assert(z =~~= diag_matrix(d, zero));
    assert(op2(times, one, one) == one);
    let d2 = Seq::new(3, |i: int| op2(times, d[i], d[i]));
    assert(d2 =~= seq![one, w2, w4]);
    lemma_diag_mul(plus, times, zero, one, d, d);
    lemma_diag_mul(plus, times, zero, one, d2, d);
    let d3 = Seq::new(3, |i: int| op2(times, d2[i], d[i]));
    assert(d3 =~= seq![one, one, one]);
    assert(diag_matrix(d3, zero) =~~= identity_matrix(3, zero, one));
}

/// `H |0>` is the uniform superposition: every amplitude is `inv_sqrt3`.
pub proof fn lemma_h_on_zero_is_uniform<T, P: Fn(T, T) -> T, M: Fn(T, T) -> T>(
    plus: P,
    times: M,
    zero: T,
    one: T,
    inv_sqrt3: T,
    omega: T,
)
    requires
        unit_on(plus, times, zero, one, zero),
        forall|i: int, j: int|
            0 <= i < 3 && 0 <= j < 3 ==> #[trigger] unit_on(
                plus,
                times,
                zero,
                one,
                h_matrix(inv_sqrt3, omega, times)[i][j],
            ),
    ensures
        mat_apply(
            plus,
            times,
            zero,
            3,
            h_matrix(inv_sqrt3, omega, times),
            basis_vector(3, 0, zero, one),
        ) =~= seq![inv_sqrt3, inv_sqrt3, inv_sqrt3],
{
    let h = h_matrix(inv_sqrt3, omega, times);
    let e = basis_vector(3, 0, zero, one);
    assert forall|i: int| 0 <= i < 3 implies mat_apply(plus, times, zero, 3, h, e)[i]
        == inv_sqrt3 by {
        assert forall|k: int| 0 <= k < 3 && k != 0 implies #[trigger] op2(times, h[i][k], e[k])
            == zero by {
            assert(unit_on(plus, times, zero, one, h[i][k]));
        }
        assert(unit_on(plus, times, zero, one, h[i][0]));
        assert(h[i][0] == inv_sqrt3);
        lemma_dot_single_term(plus, times, zero, h[i], e, 3, 0);
    }
}

/// The product `(a[i1] * b[j1]) * (a[i2] * b[j2])` of two amplitudes of a product state.
pub open spec fn cross<T, M: Fn(T, T) -> T>(
    times: M,
    a: Seq<T>,
    b: Seq<T>,
    i1: int,
    i2: int,
    j1: int,
    j2: int,
) -> T {
    op2(times, op2(times, a[i1], b[j1]), op2(times, a[i2], b[j2]))
}

/// No product state is entangled, when multiplication commutes and
/// associates on the amplitudes of `a` and `b` (so that swapping the columns
/// of a minor's second product leaves it unchanged), `x - x` is `zero` for
/// those products, and `zero` is not significant.
pub proof fn lemma_product_not_entangled<
    T,
    S: Fn(T, T) -> T,
    M: Fn(T, T) -> T,
    G: Fn(T) -> bool,
>(minus: S, times: M, significant: G, zero: T, a: Seq<T>, b: Seq<T>)
    requires
        forall|i1: int, i2: int, j1: int, j2: int|
            0 <= i1 < 3 && 0 <= i2 < 3 && 0 <= j1 < 3 && 0 <= j2 < 3 ==> #[trigger] cross(
                times,
                a,
                b,
                i1,
                i2,
                j1,
                j2,
            ) == cross(times, a, b, i1, i2, j2, j1) && op2(
                minus,
                cross(times, a, b, i1, i2, j1, j2),
                cross(times, a, b, i1, i2, j1, j2),
            ) == zero,
        !op1(significant, zero),
    ensures
        !entangled(minus, times, significant, product_state(times, a, b)),
{
    let s = product_state(times, a, b);
    assert forall|r1: int, r2: int| 0 <= r1 < r2 < 3 implies !significant_minor_on_rows(
        minus,
        times,
        significant,
        s,
        r1,
        r2,
    ) by {
        assert forall|c1: int, c2: int| 0 <= c1 < c2 < 3 implies !#[trigger] op1(
            significant,
            minor(minus, times, s, r1, r2, c1, c2),
        ) by {
            assert(s[3 * r1 + c1] == op2(times, a[r1], b[c1]));
            assert(s[3 * r2 + c2] == op2(times, a[r2], b[c2]));
            assert(s[3 * r1 + c2] == op2(times, a[r1], b[c2]));
            assert(s[3 * r2 + c1] == op2(times, a[r2], b[c1]));
            assert(cross(times, a, b, r1, r2, c1, c2) == cross(times, a, b, r1, r2, c2, c1));
            assert(minor(minus, times, s, r1, r2, c1, c2) == zero);
        }
    }
}

/// The inverse of the SUM gate on basis indices: `3a + c -> 3a + (c - a) mod 3`.
pub open spec fn cnot_source(idx: int) -> int {
    3 * (idx / 3) + (idx % 3 + 2 * (idx / 3)) % 3
}

/// `cnot_source` undoes `cnot_target` on basis indices, and the other way round.
pub proof fn lemma_cnot_source_inverts(j: int)
    requires
        0 <= j < 9,
    ensures
        0 <= cnot_target(j) < 9,
        0 <= cnot_source(j) < 9,
        cnot_target(cnot_source(j)) == j,
        cnot_source(cnot_target(j)) == j,
{
    assert(j / 3 == 0 || j / 3 == 1 || j / 3 == 2);
}

/// The SUM gate brings `|a, 0>` to `|i>` exactly when `i = |a, a>`.
proof fn lemma_source_in_first_column(i: int)
    requires
        0 <= i < 9,
    ensures
        (cnot_source(i) % 3 == 0) == ((i / 3 + 0) % 3 == i % 3),
{
    if i < 3 {
        assert(i / 3 == 0);
    } else if i < 6 {
        assert(i / 3 == 1);
    } else {
        assert(i / 3 == 2);
    }
}

/// The uniform qutrit times `|0>` has `amp` on `|a, 0>` and `zero` elsewhere.
proof fn lemma_uniform_times_zero_state<T, P: Fn(T, T) -> T, M: Fn(T, T) -> T>(
    plus: P,
    times: M,
    zero: T,
    one: T,
    amp: T,
)
    requires
        unit_on(plus, times, zero, one, amp),
    ensures
        product_state(times, seq![amp, amp, amp], basis_vector(3, 0, zero, one)) =~= Seq::new(
            9,
            |k: int| if k % 3 == 0 {
                amp
            } else {
                zero
            },
        ),
{
}

/// The SUM gate sends `amp (|00> + |10> + |20>)` to `amp (|00> + |11> + |22>)`.
pub proof fn lemma_sum_entangles_first_column<T, P: Fn(T, T) -> T, M: Fn(T, T) -> T>(
    plus: P,
    times: M,
    zero: T,
    one: T,
    amp: T,
)
    requires
        unit_on(plus, times, zero, one, zero),
        unit_on(plus, times, zero, one, amp),
    ensures
        mat_apply(
            plus,
            times,
            zero,
            9,
            cnot_matrix(zero, one),
            Seq::new(9, |k: int| if k % 3 == 0 {
                amp
            } else {
                zero
            }),
        ) =~= bell_vector(0, zero, amp),
{
    let p = Seq::new(9, |k: int| if k % 3 == 0 {
        amp
    } else {
        zero
    });
    lemma_cnot_is_perm(zero, one);
    let g = |j: int| cnot_source(j);
    assert forall|j: int| 0 <= j < 9 implies 0 <= #[trigger] cnot_fn()(j) < 9 && cnot_fn()(g(j))
        == j by {
        lemma_cnot_source_inverts(j);
    }
    assert forall|j: int| 0 <= j < 9 implies 0 <= #[trigger] g(j) < 9 && g(cnot_fn()(j)) == j by {
        lemma_cnot_source_inverts(j);
    }
    assert forall|k: int| 0 <= k < 9 implies #[trigger] unit_on(plus, times, zero, one, p[k]) by {}
    lemma_perm_apply(plus, times, zero, one, 9, cnot_fn(), g, p);
    assert forall|i: int| 0 <= i < 9 implies p[g(i)] == bell_vector(0, zero, amp)[i] by {
        lemma_source_in_first_column(i);
    }
    assert(Seq::new(9, |i: int| p[g(i)]) =~= bell_vector(0, zero, amp));
}

/// Applying H to the first qutrit of `|0, 0>` and then the SUM gate gives
/// the Bell state `(|00> + |11> + |22>)/sqrt(3)`.
pub proof fn lemma_h_then_sum_gives_bell<T, P: Fn(T, T) -> T, M: Fn(T, T) -> T>(
    plus: P,
    times: M,
    zero: T,
    one: T,
    inv_sqrt3: T,
    omega: T,
)
    requires
        unit_on(plus, times, zero, one, zero),
        forall|i: int, j: int|
            0 <= i < 3 && 0 <= j < 3 ==> #[trigger] unit_on(
                plus,
                times,
                zero,
                one,
                h_matrix(inv_sqrt3, omega, times)[i][j],
            ),
    ensures
        mat_apply(
            plus,
            times,
            zero,
            9,
            cnot_matrix(zero, one),
            product_state(
                times,
                mat_apply(
                    plus,
                    times,
                    zero,
                    3,
                    h_matrix(inv_sqrt3, omega, times),
                    basis_vector(3, 0, zero, one),
                ),
                basis_vector(3, 0, zero, one),
            ),
        ) =~= bell_vector(0, zero, inv_sqrt3),
{
    let e0 = basis_vector(3, 0, zero, one);
    let q = mat_apply(plus, times, zero, 3, h_matrix(inv_sqrt3, omega, times), e0);
    lemma_h_on_zero_is_uniform(plus, times, zero, one, inv_sqrt3, omega);
    assert(unit_on(plus, times, zero, one, h_matrix(inv_sqrt3, omega, times)[0][0]));
    assert(q == seq![inv_sqrt3, inv_sqrt3, inv_sqrt3]);
    lemma_uniform_times_zero_state(plus, times, zero, one, inv_sqrt3);
    lemma_sum_entangles_first_column(plus, times, zero, one, inv_sqrt3);
}

/// The two-qutrit QFT is `H (x) H`, when the products of the entries of H
/// multiply out as `(omega^e1 / sqrt 3) * (omega^e2 / sqrt 3) = omega^(e1 + e2 mod 3) / 3`.
pub proof fn lemma_qft_two_is_h_tensor_h<T, M: Fn(T, T) -> T>(
    times: M,
    one: T,
    omega: T,
    inv_sqrt3: T,
    inv3: T,
)
    requires
        forall|e1: int, e2: int|
            0 <= e1 < 3 && 0 <= e2 < 3 ==> #[trigger] op2(
                times,
                h_entry(inv_sqrt3, omega, times, e1),
                h_entry(inv_sqrt3, omega, times, e2),
            ) == op2(times, inv3, omega_power(one, omega, times, (e1 + e2) % 3)),
    ensures
        qft_two_matrix(one, omega, inv3, times) =~~= kron(
            times,
            h_matrix(inv_sqrt3, omega, times),
            h_matrix(inv_sqrt3, omega, times),
        ),
{
    let h = h_matrix(inv_sqrt3, omega, times);
    let q = qft_two_matrix(one, omega, inv3, times);
    let k = kron(times, h, h);
    assert forall|r: int, c: int| 0 <= r < 9 && 0 <= c < 9 implies q[r][c] == k[r][c] by {
        let x = (r / 3) * (c / 3);
        let y = (r % 3) * (c % 3);
        lemma_mod_sum(x, y);
        assert(op2(
            times,
            h_entry(inv_sqrt3, omega, times, x % 3),
            h_entry(inv_sqrt3, omega, times, y % 3),
        ) == op2(times, inv3, omega_power(one, omega, times, (x % 3 + y % 3) % 3)));
    }
    assert(q =~~= k);
}

proof fn lemma_mod_sum(x: int, y: int)
    ensures
        (x + y) % 3 == (x % 3 + y % 3) % 3,
        0 <= x % 3 < 3,
        0 <= y % 3 < 3,
{
}

/// The Kronecker product of two identities leaves every two-qutrit state unchanged.
pub proof fn lemma_tensor_identity_apply<T, P: Fn(T, T) -> T, M: Fn(T, T) -> T>(
    plus: P,
    times: M,
    zero: T,
    one: T,
    v: Seq<T>,
)
    requires
        v.len() == 9,
        exact_on_bits(plus, times, zero, one),
        unit_on(plus, times, zero, one, zero),
        forall|k: int| 0 <= k < 9 ==> #[trigger] unit_on(plus, times, zero, one, v[k]),
    ensures
        mat_apply(
            plus,
            times,
            zero,
            9,
            kron(times, identity_matrix(3, zero, one), identity_matrix(3, zero, one)),
            v,
        ) =~= v,
{
    lemma_tensor_identity(plus, times, zero, one);
    lemma_identity_apply(plus, times, zero, one, 9, v);
}

} // verus!
